use vstd::prelude::*;

verus! {

/// Position of the first entry whose key is `k`, or -1.
pub open spec fn key_index<V>(m: Seq<(String, V)>, k: Seq<char>) -> int
    decreases m.len(),
{
    if m.len() == 0 {
        -1
    } else {
        let j = key_index(m.drop_last(), k);
        if j >= 0 {
            j
        } else if m.last().0@ == k {
            m.len() - 1
        } else {
            -1
        }
    }
}

/// The value of the first entry whose key is `k`.
pub open spec fn lookup<V>(m: Seq<(String, V)>, k: Seq<char>) -> Option<V> {
    let i = key_index(m, k);
    if i >= 0 {
        Some(m[i].1)
    } else {
        None
    }
}

/// No key occurs twice.
pub open spec fn keys_unique<V>(m: Seq<(String, V)>) -> bool {
    forall|i: int, j: int| 0 <= i < j < m.len() ==> m[i].0@ != m[j].0@
}

pub proof fn lemma_key_index<V>(m: Seq<(String, V)>, k: Seq<char>)
    ensures
        -1 <= key_index(m, k) < m.len(),
        key_index(m, k) >= 0 ==> m[key_index(m, k)].0@ == k,
        key_index(m, k) >= 0 ==> forall|j: int| 0 <= j < key_index(m, k) ==> m[j].0@ != k,
        key_index(m, k) < 0 ==> forall|j: int| 0 <= j < m.len() ==> m[j].0@ != k,
    decreases m.len(),
{
    if m.len() > 0 {
        let d = m.drop_last();
        lemma_key_index(d, k);
        assert forall|j: int| 0 <= j < d.len() implies d[j] == m[j] by {}
    }
}

pub proof fn lemma_key_index_same<V>(a: Seq<(String, V)>, b: Seq<(String, V)>, q: Seq<char>)
    requires
        a.len() == b.len(),
        forall|j: int| 0 <= j < a.len() ==> ((a[j].0@ == q) <==> (b[j].0@ == q)),
    ensures
        key_index(a, q) == key_index(b, q),
    decreases a.len(),
{
    if a.len() > 0 {
        let da = a.drop_last();
        let db = b.drop_last();
        assert forall|j: int| 0 <= j < da.len() implies ((da[j].0@ == q) <==> (db[j].0@ == q)) by {
            assert(da[j] == a[j]);
            assert(db[j] == b[j]);
        }
        lemma_key_index_same(da, db, q);
    }
}

pub proof fn lemma_key_index_push<V>(m: Seq<(String, V)>, e: (String, V), k: Seq<char>)
    ensures
        key_index(m.push(e), k) == if key_index(m, k) >= 0 {
            key_index(m, k)
        } else if e.0@ == k {
            m.len() as int
        } else {
            -1
        },
{
    assert(m.push(e).drop_last() =~= m);
}

pub proof fn lemma_same_keys<V>(a: Seq<(String, V)>, b: Seq<(String, V)>, q: Seq<char>)
    requires
        a.len() == b.len(),
        forall|k: int| 0 <= k < a.len() ==> (#[trigger] a[k]).0 == b[k].0,
    ensures
        key_index(a, q) == key_index(b, q),
        (lookup(a, q) is Some) == (lookup(b, q) is Some),
{
    lemma_key_index_same(a, b, q);
}

/// Position of the entry with key `k`.
pub fn assoc_find<V>(m: &Vec<(String, V)>, k: &str) -> (res: Option<usize>)
    ensures
        match res {
            Some(i) => i as int == key_index(m@, k@),
            None => key_index(m@, k@) < 0,
        },
{
    proof {
        lemma_key_index(m@, k@);
    }
    let mut i: usize = 0;
    while i < m.len()
        invariant
            i <= m@.len(),
            forall|j: int| 0 <= j < i ==> m@[j].0@ != k@,
        decreases m@.len() - i,
    {
        if crate::text::str_eq(m[i].0.as_str(), k) {
            proof {
                lemma_key_index(m@, k@);
                let ki = key_index(m@, k@);
                if ki < 0 {
                    assert(m@[i as int].0@ != k@);
                } else if ki < i {
                    assert(m@[ki].0@ != k@);
                } else if ki > i {
                    assert(m@[i as int].0@ != k@);
                }
            }
            return Some(i);
        }
        i = i + 1;
    }
    None
}

/// The value stored under `k`.
pub fn assoc_get<'a, V>(m: &'a Vec<(String, V)>, k: &str) -> (res: Option<&'a V>)
    ensures
        match res {
            Some(v) => lookup(m@, k@) == Some(*v),
            None => lookup(m@, k@) is None,
        },
{
    proof {
        lemma_key_index(m@, k@);
    }
    match assoc_find(m, k) {
        Some(i) => Some(&m[i].1),
        None => None,
    }
}

/// Whether some entry has key `k`.
pub fn assoc_has<V>(m: &Vec<(String, V)>, k: &str) -> (res: bool)
    ensures
        res == (lookup(m@, k@) is Some),
{
    assoc_find(m, k).is_some()
}

/// The table after storing `v` under `k`: the first entry with that key is replaced, or
/// a new entry is appended.
pub open spec fn assoc_put<V>(m: Seq<(String, V)>, k: String, v: V) -> Seq<(String, V)> {
    if key_index(m, k@) >= 0 {
        m.update(key_index(m, k@), (k, v))
    } else {
        m.push((k, v))
    }
}

/// Stores `v` under `k`: the first entry with that key is replaced, or a new entry is
/// appended.
pub fn assoc_insert<V>(m: &mut Vec<(String, V)>, k: String, v: V)
    ensures
        lookup(final(m)@, k@) == Some(v),
        forall|q: Seq<char>| q != k@ ==> #[trigger] lookup(final(m)@, q) == lookup(old(m)@, q),
        keys_unique(old(m)@) ==> keys_unique(final(m)@),
        key_index(old(m)@, k@) >= 0 ==> final(m)@ == old(m)@.update(key_index(old(m)@, k@), (k, v)),
        key_index(old(m)@, k@) < 0 ==> final(m)@ == old(m)@.push((k, v)),
{
    proof {
        lemma_key_index(m@, k@);
    }
    match assoc_find(m, k.as_str()) {
        Some(i) => {
            let ghost before = m@;
            m.set(i, (k, v));
            proof {
                assert forall|q: Seq<char>| q != k@ implies #[trigger] lookup(m@, q) == lookup(before, q) by {
                    assert forall|j: int| 0 <= j < before.len() implies ((before[j].0@ == q) <==> (
                    m@[j].0@ == q)) by {
                        if j != i {
                            assert(m@[j] == before[j]);
                        }
                    }
                    lemma_key_index_same(before, m@, q);
                    lemma_key_index(before, q);
                    if key_index(before, q) >= 0 {
                        assert(key_index(before, q) != i);
                    }
                }
                assert forall|j: int| 0 <= j < before.len() implies ((before[j].0@ == k@) <==> (m@[j].0@
                == k@)) by {
                    if j != i {
                        assert(m@[j] == before[j]);
                    }
                }
                lemma_key_index_same(before, m@, k@);
                lemma_key_index(m@, k@);
            }
        },
        None => {
            let ghost before = m@;
            m.push((k, v));
            proof {
                lemma_key_index_push(before, (k, v), k@);
                assert forall|q: Seq<char>| q != k@ implies #[trigger] lookup(m@, q) == lookup(before, q) by {
                    lemma_key_index_push(before, (k, v), q);
                    lemma_key_index(before, q);
                }
            }
        },
    }
}

} // verus!
