use vstd::prelude::*;
use vstd::set_lib::*;
use vstd::relations::injective_on;
use std::collections::{HashMap, HashSet};
use crate::nfa::{Edge, Nfa, NfaState, edges_in_bounds, edge_target};
use crate::utils::{epsilon_closure, move_states, eps_closed, move_set, moves_on};

verus! {

broadcast use vstd::std_specs::hash::group_hash_axioms;

/// Two to the power `n`.
pub open spec fn pow2(n: nat) -> nat
    decreases n,
{
    if n == 0 {
        1
    } else {
        2 * pow2((n - 1) as nat)
    }
}

/// All elements of a set are below `n`.
pub open spec fn below(s: Set<usize>, n: nat) -> bool {
    forall|x: usize| #[trigger] s.contains(x) ==> x < n
}

/// A finite family of sets of values below `n` has at most `2^n` members.
proof fn lemma_family_bound(f: Set<Set<usize>>, n: nat)
    requires
        f.finite(),
        forall|x: Set<usize>| #[trigger] f.contains(x) ==> below(x, n),
    ensures
        f.len() <= pow2(n),
    decreases n,
{
    if n == 0 {
        let e = Set::<usize>::empty();
        assert forall|x: Set<usize>| #[trigger] f.contains(x) implies x == e by {
            assert(x =~= e);
        }
        assert(f.subset_of(set![e]));
        lemma_len_subset(f, set![e]);
    } else {
        let m = (n - 1) as usize;
        let f1 = f.filter(|x: Set<usize>| x.contains(m));
        let f0 = f.filter(|x: Set<usize>| !x.contains(m));
        lemma_family_bound(f0, (n - 1) as nat);
        let g = |x: Set<usize>| x.remove(m);
        let g1 = f1.map(g);
        assert(injective_on(g, f1)) by {
            assert forall|a: Set<usize>, b: Set<usize>|
                f1.contains(a) && f1.contains(b) && #[trigger] g(a) == #[trigger] g(b) implies a
                == b by {
                assert(a =~= g(a).insert(m));
                assert(b =~= g(b).insert(m));
            }
        }
        lemma_map_size(f1, g1, g);
        assert forall|y: Set<usize>| #[trigger] g1.contains(y) implies below(y, (n - 1) as nat) by {
            let x = choose|x: Set<usize>| f1.contains(x) && g(x) == y;
            assert(below(x, n));
        }
        lemma_family_bound(g1, (n - 1) as nat);
        assert(f =~= f0 + f1);
        assert(f0.disjoint(f1));
        lemma_set_disjoint_lens(f0, f1);
    }
}

/// The least set that contains `s` and is closed under epsilon edges.
pub open spec fn closure_of(st: Seq<NfaState>, s: Set<usize>) -> Set<usize> {
    Set::new(|x: usize| forall|c: Set<usize>| #[trigger] eps_closed(st, c) && s.subset_of(c) ==> c.contains(x))
}

/// The token (by its index in `token_map`) that an automaton state set accepts: the
/// first entry, from position `k` on, whose automaton state is in the set and accepts.
pub open spec fn first_accept_from(
    st: Seq<NfaState>,
    token_map: Seq<(usize, String)>,
    set: Set<usize>,
    k: int,
) -> Option<int>
    decreases token_map.len() - k,
{
    if k < 0 || k >= token_map.len() {
        None
    } else if set.contains(token_map[k].0) && st[token_map[k].0 as int].is_accept {
        Some(k)
    } else {
        first_accept_from(st, token_map, set, k + 1)
    }
}

/// Entry `k` of `token_map` names an automaton state that is in `set` and accepts.
pub open spec fn entry_accepts(st: Seq<NfaState>, token_map: Seq<(usize, String)>, set: Set<usize>, k: int) -> bool {
    0 <= k < token_map.len() && set.contains(token_map[k].0) && st[token_map[k].0 as int].is_accept
}

/// The search for an accepting entry from position `k` on finds the earliest one.
pub proof fn lemma_first_accept_earliest(
    st: Seq<NfaState>,
    token_map: Seq<(usize, String)>,
    set: Set<usize>,
    k: int,
)
    requires
        0 <= k,
    ensures
        first_accept_from(st, token_map, set, k) matches Some(j) ==> k <= j && entry_accepts(st, token_map, set, j)
            && forall|j2: int| k <= j2 < j ==> !entry_accepts(st, token_map, set, j2),
        first_accept_from(st, token_map, set, k) is None ==> forall|j2: int|
            k <= j2 ==> !entry_accepts(st, token_map, set, j2),
    decreases token_map.len() - k,
{
    if k < token_map.len() {
        lemma_first_accept_earliest(st, token_map, set, k + 1);
    }
}

/// Deterministic automaton obtained by the subset construction.
pub struct Dfa {
    /// Each state is a set of automaton states of the NFA.
    pub states: Vec<HashSet<usize>>,
    /// For each state, its transitions as (character, target) pairs.
    pub transitions: Vec<Vec<(char, usize)>>,
    /// Accepting states and the token that each accepts.
    pub accept_states: HashMap<usize, String>,
}

/// The target of the transition of `trans` on character `c`, if any.
pub open spec fn trans_lookup(trans: Seq<(char, usize)>, c: char) -> Option<usize>
    decreases trans.len(),
{
    if trans.len() == 0 {
        None
    } else if trans.last().0 == c {
        Some(trans.last().1)
    } else {
        trans_lookup(trans.drop_last(), c)
    }
}

/// State `j` of `sv` is the closure of a move, on a symbol of the alphabet, out of an
/// earlier state.
pub open spec fn made_from_earlier(st: Seq<NfaState>, alphabet: Seq<char>, sv: Seq<Set<usize>>, j: int) -> bool {
    exists|i: int, c: char|
        #![trigger move_set(st, sv[i], c)]
        0 <= i < j && alphabet.contains(c) && !move_set(st, sv[i], c).is_empty() && sv[j] == closure_of(
            st,
            move_set(st, sv[i], c),
        )
}

/// The state sets of a deterministic automaton, as sets.
pub open spec fn state_sets(states: Seq<HashSet<usize>>) -> Seq<Set<usize>> {
    states.map_values(|h: HashSet<usize>| h@)
}

proof fn lemma_made_from_earlier_extend(
    st: Seq<NfaState>,
    alphabet: Seq<char>,
    a: Seq<Set<usize>>,
    b: Seq<Set<usize>>,
    j: int,
)
    requires
        0 <= j < a.len() <= b.len(),
        forall|i: int| 0 <= i < a.len() ==> #[trigger] b[i] == a[i],
        made_from_earlier(st, alphabet, a, j),
    ensures
        made_from_earlier(st, alphabet, b, j),
{
    let (i, c) = choose|i: int, c: char|
        #![trigger move_set(st, a[i], c)]
        0 <= i < j && alphabet.contains(c) && !move_set(st, a[i], c).is_empty() && a[j] == closure_of(
            st,
            move_set(st, a[i], c),
        );
    assert(b[i] == a[i] && b[j] == a[j]);
    assert(!move_set(st, b[i], c).is_empty());
}

/// What the subset construction guarantees of a deterministic automaton.
pub open spec fn dfa_spec(
    d: Dfa,
    st: Seq<NfaState>,
    start: usize,
    alphabet: Seq<char>,
    token_map: Seq<(usize, String)>,
) -> bool {
    let n = st.len();
    let sv = d.states@;
    let tv = d.transitions@;
    &&& sv.len() >= 1
    &&& tv.len() == sv.len()
    &&& sv[0]@ == closure_of(st, set![start])
    // distinct states, each a set of automaton states
    &&& forall|i: int, j: int| 0 <= i < j < sv.len() ==> sv[i]@ != sv[j]@
    &&& forall|i: int| 0 <= i < sv.len() ==> below(#[trigger] sv[i]@, n)
    // every state after the first is reached from an earlier one
    &&& forall|j: int| 1 <= j < sv.len() ==> #[trigger] made_from_earlier(st, alphabet, state_sets(sv), j)
    // every transition follows the move-then-close rule
    &&& forall|i: int, k: int|
        #![trigger tv[i]@[k]]
        0 <= i < sv.len() && 0 <= k < tv[i]@.len() ==> {
            let (c, j) = tv[i]@[k];
            &&& 0 <= j < sv.len()
            &&& alphabet.contains(c)
            &&& !move_set(st, sv[i]@, c).is_empty()
            &&& sv[j as int]@ == closure_of(st, move_set(st, sv[i]@, c))
        }
    // every symbol of the alphabet that moves somewhere has a transition
    &&& forall|i: int, c: char|
        0 <= i < sv.len() && alphabet.contains(c) && !(#[trigger] move_set(st, sv[i]@, c)).is_empty()
            ==> trans_lookup(tv[i]@, c) is Some
    // accepting states and their tokens
    &&& forall|i: int|
        0 <= i < sv.len() ==> (#[trigger] d.accept_states@.contains_key(i as usize)
            <==> first_accept_from(st, token_map, sv[i]@, 0) is Some)
    &&& forall|i: int|
        0 <= i < sv.len() && #[trigger] d.accept_states@.contains_key(i as usize) ==> d.accept_states@[i
            as usize]@ == token_map[first_accept_from(st, token_map, sv[i]@, 0).unwrap()].1@
}

/// Token priority of the subset construction: a state of the deterministic automaton
/// accepts exactly when some entry of `token_map` names an accepting automaton state in
/// it, and then its token is that of the earliest such entry, so an earlier pattern
/// always wins over a later one.
pub proof fn lemma_dfa_token_priority(
    d: Dfa,
    st: Seq<NfaState>,
    start: usize,
    alphabet: Seq<char>,
    token_map: Seq<(usize, String)>,
    i: int,
)
    requires
        dfa_spec(d, st, start, alphabet, token_map),
        0 <= i < d.states@.len(),
    ensures
        d.accept_states@.contains_key(i as usize) <==> exists|k: int| #[trigger]
            entry_accepts(st, token_map, d.states@[i]@, k),
        forall|k: int|
            #[trigger] entry_accepts(st, token_map, d.states@[i]@, k) ==> exists|j: int|
                0 <= j <= k && entry_accepts(st, token_map, d.states@[i]@, j) && (forall|j2: int|
                    0 <= j2 < j ==> !entry_accepts(st, token_map, d.states@[i]@, j2))
                    && d.accept_states@[i as usize]@ == token_map[j].1@,
{
    let set = d.states@[i]@;
    lemma_first_accept_earliest(st, token_map, set, 0);
    assert(d.accept_states@.contains_key(i as usize) <==> first_accept_from(st, token_map, set, 0) is Some);
    if first_accept_from(st, token_map, set, 0) is Some {
        let j = first_accept_from(st, token_map, set, 0).unwrap();
        assert(entry_accepts(st, token_map, set, j));
        assert forall|k: int| #[trigger] entry_accepts(st, token_map, set, k) implies exists|j1: int|
            0 <= j1 <= k && entry_accepts(st, token_map, set, j1) && (forall|j2: int|
                0 <= j2 < j1 ==> !entry_accepts(st, token_map, set, j2))
                && d.accept_states@[i as usize]@ == token_map[j1].1@ by {
            assert(j <= k);
        }
    } else {
        assert(!exists|k: int| #[trigger] entry_accepts(st, token_map, set, k));
    }
}

fn sets_equal(a: &HashSet<usize>, b: &HashSet<usize>, n: usize) -> (res: bool)
    requires
        below(a@, n as nat),
        below(b@, n as nat),
    ensures
        res == (a@ == b@),
{
    let mut x: usize = 0;
    while x < n
        invariant
            x <= n,
            forall|y: usize| y < x ==> (a@.contains(y) == b@.contains(y)),
        decreases n - x,
    {
        if a.contains(&x) != b.contains(&x) {
            return false;
        }
        x = x + 1;
    }
    assert(a@ =~= b@);
    true
}

fn copy_set(a: &HashSet<usize>, n: usize) -> (res: HashSet<usize>)
    requires
        below(a@, n as nat),
    ensures
        res@ == a@,
{
    let mut r: HashSet<usize> = HashSet::new();
    let mut x: usize = 0;
    while x < n
        invariant
            x <= n,
            r@ == a@.filter(|y: usize| y < x),
        decreases n - x,
    {
        if a.contains(&x) {
            r.insert(x);
        }
        x = x + 1;
        assert(r@ =~= a@.filter(|y: usize| y < x));
    }
    assert(r@ =~= a@);
    r
}

fn lookup(trans: &Vec<(char, usize)>, c: char) -> (res: Option<usize>)
    ensures
        res == trans_lookup(trans@, c),
{
    let mut k = trans.len();
    assert(trans@.take(k as int) =~= trans@);
    while k > 0
        invariant
            k <= trans@.len(),
            trans_lookup(trans@, c) == trans_lookup(trans@.take(k as int), c),
        decreases k,
    {
        let (d, t) = trans[k - 1];
        if d == c {
            assert(trans@.take(k as int).last() == (d, t));
            return Some(t);
        }
        assert(trans@.take(k as int).drop_last() =~= trans@.take(k - 1));
        k = k - 1;
    }
    None
}

proof fn lemma_closure_of(st: Seq<NfaState>, s: Set<usize>, r: Set<usize>)
    requires
        s.subset_of(r),
        eps_closed(st, r),
        forall|c: Set<usize>| #[trigger] eps_closed(st, c) && s.subset_of(c) ==> r.subset_of(c),
    ensures
        r == closure_of(st, s),
{
    assert(r =~= closure_of(st, s));
}

proof fn lemma_states_bound(states: Seq<HashSet<usize>>, n: nat)
    requires
        forall|i: int, j: int| 0 <= i < j < states.len() ==> states[i]@ != states[j]@,
        forall|i: int| 0 <= i < states.len() ==> below(#[trigger] states[i]@, n),
    ensures
        states.len() <= pow2(n),
{
    let fam = states.map_values(|s: HashSet<usize>| s@);
    assert(fam.no_duplicates()) by {
        assert forall|i: int, j: int|
            0 <= i < fam.len() && 0 <= j < fam.len() && i != j implies fam[i] != fam[j] by {
            if i < j {
                assert(states[i]@ != states[j]@);
            } else {
                assert(states[j]@ != states[i]@);
            }
        }
    }
    fam.unique_seq_to_set();
    assert forall|x: Set<usize>| #[trigger] fam.to_set().contains(x) implies below(x, n) by {
        let i = choose|i: int| 0 <= i < fam.len() && fam[i] == x;
        assert(below(states[i]@, n));
    }
    lemma_family_bound(fam.to_set(), n);
}

proof fn lemma_move_set_below(st: Seq<NfaState>, s: Set<usize>, c: char)
    requires
        edges_in_bounds(st),
        below(s, st.len()),
    ensures
        below(move_set(st, s, c), st.len()),
{
    assert forall|v: usize| #[trigger] move_set(st, s, c).contains(v) implies v < st.len() by {
        let u = choose|u: usize| s.contains(u) && #[trigger] moves_on(st, u, c, v);
        let k = choose|k: int|
            0 <= k < st[u as int].edges@.len() && #[trigger] st[u as int].edges@[k] == Edge::Symbol(
                c,
                v,
            );
        assert(edge_target(st[u as int].edges@[k]) == v);
    }
}

fn find_state(states: &Vec<HashSet<usize>>, s: &HashSet<usize>, n: usize) -> (res: Option<usize>)
    requires
        forall|i: int| 0 <= i < states@.len() ==> below(#[trigger] states@[i]@, n as nat),
        below(s@, n as nat),
    ensures
        res matches Some(i) ==> i < states@.len() && states@[i as int]@ == s@,
        res is None ==> forall|i: int| 0 <= i < states@.len() ==> states@[i]@ != s@,
{
    let mut i: usize = 0;
    while i < states.len()
        invariant
            i <= states@.len(),
            forall|i: int| 0 <= i < states@.len() ==> below(#[trigger] states@[i]@, n as nat),
            below(s@, n as nat),
            forall|j: int| 0 <= j < i ==> states@[j]@ != s@,
        decreases states@.len() - i,
    {
        if sets_equal(&states[i], s, n) {
            return Some(i);
        }
        i = i + 1;
    }
    None
}

fn first_accepting(u_set: &HashSet<usize>, nfa: &Nfa, token_map: &Vec<(usize, String)>) -> (res: Option<usize>)
    requires
        below(u_set@, nfa.states@.len()),
    ensures
        first_accept_from(nfa.states@, token_map@, u_set@, 0) == (match res {
            Some(k) => Some(k as int),
            None => None,
        }),
        res matches Some(k) ==> k < token_map@.len(),
{
    let mut k: usize = 0;
    while k < token_map.len()
        invariant
            k <= token_map@.len(),
            below(u_set@, nfa.states@.len()),
            first_accept_from(nfa.states@, token_map@, u_set@, 0) == first_accept_from(
                nfa.states@,
                token_map@,
                u_set@,
                k as int,
            ),
        decreases token_map@.len() - k,
    {
        let t = token_map[k].0;
        if u_set.contains(&t) && nfa.states[t].is_accept {
            return Some(k);
        }
        k = k + 1;
    }
    None
}

impl Dfa {
    /// The transition of state `state` on character `c`, if any.
    pub fn transition(&self, state: usize, c: char) -> (res: Option<usize>)
        ensures
            state < self.transitions@.len() ==> res == trans_lookup(
                self.transitions@[state as int]@,
                c,
            ),
            state >= self.transitions@.len() ==> res is None,
    {
        if state < self.transitions.len() {
            lookup(&self.transitions[state], c)
        } else {
            None
        }
    }

    /// Subset construction: the states of the result are the epsilon-closed sets of
    /// automaton states reachable from the closure of the start state; a state accepts the
    /// first token of `token_map` (in order) whose automaton state it contains and that
    /// accepts.
    pub fn from_nfa(nfa: &Nfa, alphabet: &Vec<char>, token_map: &Vec<(usize, String)>) -> (res: Self)
        requires
            edges_in_bounds(nfa.states@),
            nfa.start < nfa.states@.len(),
        ensures
            dfa_spec(res, nfa.states@, nfa.start, alphabet@, token_map@),
            forall|i: int, k: int|
                0 <= i < res.states@.len() && #[trigger] entry_accepts(nfa.states@, token_map@, res.states@[i]@, k)
                    ==> res.accept_states@.contains_key(i as usize) && exists|j: int|
                    0 <= j <= k && entry_accepts(nfa.states@, token_map@, res.states@[i]@, j) && (forall|j2: int|
                        0 <= j2 < j ==> !entry_accepts(nfa.states@, token_map@, res.states@[i]@, j2))
                        && res.accept_states@[i as usize]@ == token_map@[j].1@,
    {
        let ghost st = nfa.states@;
        let n = nfa.states.len();
        let mut states: Vec<HashSet<usize>> = Vec::new();
        let mut transitions: Vec<Vec<(char, usize)>> = Vec::new();
        let mut accept_states: HashMap<usize, String> = HashMap::new();

        let mut start_set: HashSet<usize> = HashSet::new();
        start_set.insert(nfa.start);
        let start_closure = epsilon_closure(&start_set, nfa);
        proof {
            lemma_closure_of(st, start_set@, start_closure@);
            assert(start_set@ =~= set![nfa.start]);
        }
        states.push(start_closure);
        transitions.push(Vec::new());

        let mut u_idx: usize = 0;
        while u_idx < states.len()
            invariant
                st == nfa.states@,
                n == st.len(),
                edges_in_bounds(st),
                1 <= states@.len(),
                u_idx <= states@.len(),
                transitions@.len() == states@.len(),
                states@[0]@ == closure_of(st, set![nfa.start]),
                forall|i: int, j: int| 0 <= i < j < states@.len() ==> states@[i]@ != states@[j]@,
                forall|i: int| 0 <= i < states@.len() ==> below(#[trigger] states@[i]@, n as nat),
                forall|i: int| 0 <= i < states@.len() ==> eps_closed(st, #[trigger] states@[i]@),
                forall|j: int| 1 <= j < states@.len() ==> #[trigger] made_from_earlier(st, alphabet@, state_sets(states@), j),
                forall|i: int, k: int|
                    #![trigger transitions@[i]@[k]]
                    0 <= i < states@.len() && 0 <= k < transitions@[i]@.len() ==> {
                        let (c, j) = transitions@[i]@[k];
                        &&& 0 <= j < states@.len()
                        &&& alphabet@.contains(c)
                        &&& !move_set(st, states@[i]@, c).is_empty()
                        &&& states@[j as int]@ == closure_of(st, move_set(st, states@[i]@, c))
                    },
                forall|i: int| u_idx <= i < transitions@.len() ==> (#[trigger] transitions@[i])@.len() == 0,
                forall|i: int, c: char|
                    0 <= i < u_idx && alphabet@.contains(c) && !(#[trigger] move_set(
                        st,
                        states@[i]@,
                        c,
                    )).is_empty() ==> trans_lookup(transitions@[i]@, c) is Some,
                forall|key: usize| #[trigger] accept_states@.contains_key(key) ==> key < u_idx,
                forall|i: int|
                    0 <= i < u_idx ==> (#[trigger] accept_states@.contains_key(i as usize)
                        <==> first_accept_from(st, token_map@, states@[i]@, 0) is Some),
                forall|i: int|
                    0 <= i < u_idx && #[trigger] accept_states@.contains_key(i as usize)
                        ==> accept_states@[i as usize]@ == token_map@[first_accept_from(
                        st,
                        token_map@,
                        states@[i]@,
                        0,
                    ).unwrap()].1@,
            decreases pow2(n as nat) - states@.len(), states@.len() - u_idx,
        {
            proof {
                lemma_states_bound(states@, n as nat);
            }
            let ghost len_before = states@.len();
            let u_set = copy_set(&states[u_idx], n);

            // Accepting: the first token in priority order.
            let acc = first_accepting(&u_set, nfa, token_map);
            if let Some(k) = acc {
                let name = token_map[k].1.clone();
                accept_states.insert(u_idx, name);
            }
            proof {
                assert forall|i: int|
                    0 <= i <= u_idx implies (#[trigger] accept_states@.contains_key(i as usize)
                    <==> first_accept_from(st, token_map@, states@[i]@, 0) is Some) by {}
            }

            let ghost snap = states@;
            let mut a: usize = 0;
            while a < alphabet.len()
                invariant
                    snap.len() <= states@.len(),
                    forall|i: int| 0 <= i < snap.len() ==> #[trigger] states@[i] == snap[i],
                    st == nfa.states@,
                    n == st.len(),
                    edges_in_bounds(st),
                    u_set@ == states@[u_idx as int]@,
                    u_idx < states@.len(),
                    len_before <= states@.len(),
                    a <= alphabet@.len(),
                    transitions@.len() == states@.len(),
                    states@[0]@ == closure_of(st, set![nfa.start]),
                    forall|i: int, j: int| 0 <= i < j < states@.len() ==> states@[i]@ != states@[j]@,
                    forall|i: int| 0 <= i < states@.len() ==> below(#[trigger] states@[i]@, n as nat),
                    forall|i: int| 0 <= i < states@.len() ==> eps_closed(st, #[trigger] states@[i]@),
                    forall|j: int| 1 <= j < states@.len() ==> #[trigger] made_from_earlier(st, alphabet@, state_sets(states@), j),
                    forall|i: int, k: int|
                        #![trigger transitions@[i]@[k]]
                        0 <= i < states@.len() && 0 <= k < transitions@[i]@.len() ==> {
                            let (c, j) = transitions@[i]@[k];
                            &&& 0 <= j < states@.len()
                            &&& alphabet@.contains(c)
                            &&& !move_set(st, states@[i]@, c).is_empty()
                            &&& states@[j as int]@ == closure_of(st, move_set(st, states@[i]@, c))
                        },
                    forall|i: int| u_idx < i < transitions@.len() ==> (#[trigger] transitions@[i])@.len() == 0,
                    forall|i: int, c: char|
                        0 <= i < u_idx && alphabet@.contains(c) && !(#[trigger] move_set(
                            st,
                            states@[i]@,
                            c,
                        )).is_empty() ==> trans_lookup(transitions@[i]@, c) is Some,
                    forall|b: int|
                        0 <= b < a && !(#[trigger] move_set(st, u_set@, alphabet@[b])).is_empty()
                            ==> trans_lookup(transitions@[u_idx as int]@, alphabet@[b]) is Some,
                decreases alphabet@.len() - a,
            {
                let symbol = alphabet[a];
                let mv = move_states(&u_set, symbol, nfa);
                if mv.is_empty() {
                    a = a + 1;
                    continue ;
                }
                proof {
                    lemma_move_set_below(st, u_set@, symbol);
                }
                let next_closure = epsilon_closure(&mv, nfa);
                proof {
                    lemma_closure_of(st, mv@, next_closure@);
                }
                proof {
                    assert(alphabet@.contains(symbol)) by {
                        assert(alphabet@[a as int] == symbol);
                    }
                }
                let v_idx = match find_state(&states, &next_closure, n) {
                    Some(idx) => idx,
                    None => {
                        let ghost before = state_sets(states@);
                        states.push(next_closure);
                        transitions.push(Vec::new());
                        proof {
                            let after = state_sets(states@);
                            assert forall|i: int| 0 <= i < before.len() implies #[trigger] after[i] == before[i] by {}
                            assert forall|j: int| 1 <= j < after.len() implies #[trigger] made_from_earlier(st, alphabet@, after, j) by {
                                if j < before.len() {
                                    lemma_made_from_earlier_extend(st, alphabet@, before, after, j);
                                } else {
                                    assert(after[u_idx as int] == u_set@);
                                    assert(!move_set(st, after[u_idx as int], symbol).is_empty());
                                }
                            }
                        }
                        states.len() - 1
                    },
                };
                let ghost t_before = transitions@[u_idx as int]@;
                if lookup(&transitions[u_idx], symbol).is_none() {
                    transitions[u_idx].push((symbol, v_idx));
                    proof {
                        let t_after = transitions@[u_idx as int]@;
                        assert(t_after.drop_last() =~= t_before);
                        assert forall|c: char| c != symbol implies trans_lookup(t_after, c) == trans_lookup(t_before, c) by {}
                    }
                }
                proof {
                    assert(alphabet@.contains(symbol)) by {
                        assert(alphabet@[a as int] == symbol);
                    }
                }
                a = a + 1;
            }
            proof {
                lemma_states_bound(states@, n as nat);
                assert forall|i: int| 0 <= i <= u_idx implies #[trigger] states@[i] == snap[i] by {}
            }
            u_idx = u_idx + 1;
        }
        let res = Dfa { states, transitions, accept_states };
        proof {
            assert forall|i: int, k: int|
                0 <= i < res.states@.len() && #[trigger] entry_accepts(nfa.states@, token_map@, res.states@[i]@, k)
                    implies res.accept_states@.contains_key(i as usize) && exists|j: int|
                    0 <= j <= k && entry_accepts(nfa.states@, token_map@, res.states@[i]@, j) && (forall|j2: int|
                        0 <= j2 < j ==> !entry_accepts(nfa.states@, token_map@, res.states@[i]@, j2))
                        && res.accept_states@[i as usize]@ == token_map@[j].1@ by {
                lemma_dfa_token_priority(res, nfa.states@, nfa.start, alphabet@, token_map@, i);
            }
        }
        res
    }
}

} // verus!
