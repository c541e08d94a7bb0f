use vstd::prelude::*;
use std::collections::HashSet;
use crate::nfa::{Edge, Nfa, NfaState, edges_in_bounds, edge_target};

verus! {

broadcast use vstd::std_specs::hash::group_hash_axioms;

/// `c` is closed under the epsilon edges of `states`.
pub open spec fn eps_closed(states: Seq<NfaState>, c: Set<usize>) -> bool {
    forall|u: usize, k: int|
        #![trigger c.contains(u), states[u as int].edges@[k]]
        c.contains(u) && u < states.len() && 0 <= k < states[u as int].edges@.len()
            && states[u as int].edges@[k] is Epsilon ==> c.contains(
            edge_target(states[u as int].edges@[k]),
        )
}

/// State `u` has an edge on character `c` to state `v`.
pub open spec fn moves_on(states: Seq<NfaState>, u: usize, c: char, v: usize) -> bool {
    exists|k: int|
        0 <= k < states[u as int].edges@.len() && #[trigger] states[u as int].edges@[k]
            == Edge::Symbol(c, v)
}

/// States reachable from some state of `s` by one edge on `c`.
pub open spec fn move_set(states: Seq<NfaState>, s: Set<usize>, c: char) -> Set<usize> {
    Set::new(|v: usize| exists|u: usize| s.contains(u) && #[trigger] moves_on(states, u, c, v))
}

/// A finite set of values below `n` has at most `n` elements.
pub proof fn lemma_bounded_len(s: Set<usize>, n: nat)
    requires
        s.finite(),
        forall|x: usize| #[trigger] s.contains(x) ==> x < n,
    ensures
        s.len() <= n,
    decreases n,
{
    if n == 0 {
        if s.len() > 0 {
            let x = s.choose();
            assert(s.contains(x));
        }
    } else {
        let t = s.remove((n - 1) as usize);
        lemma_bounded_len(t, (n - 1) as nat);
    }
}

/// The epsilon closure of `states`: the least set that contains `states` and is closed
/// under epsilon edges.
pub fn epsilon_closure(states: &HashSet<usize>, nfa: &Nfa) -> (res: HashSet<usize>)
    requires
        edges_in_bounds(nfa.states@),
        forall|u: usize| #[trigger] states@.contains(u) ==> u < nfa.states@.len(),
    ensures
        states@.subset_of(res@),
        eps_closed(nfa.states@, res@),
        forall|c: Set<usize>|
            #[trigger] eps_closed(nfa.states@, c) && states@.subset_of(c) ==> res@.subset_of(c),
        forall|u: usize| #[trigger] res@.contains(u) ==> u < nfa.states@.len(),
{
    let ghost st = nfa.states@;
    let ghost n = st.len();
    let mut closure: HashSet<usize> = HashSet::new();
    let mut stack: Vec<usize> = Vec::new();
    let n_exec = nfa.states.len();
    let mut u0: usize = 0;
    while u0 < n_exec
        invariant
            n_exec == n,
            u0 <= n,
            closure@ == states@.filter(|x: usize| x < u0),
            closure@.finite(),
            forall|j: int| 0 <= j < stack@.len() ==> closure@.contains(#[trigger] stack@[j]),
            forall|x: usize| #[trigger] closure@.contains(x) ==> stack@.contains(x),
        decreases n - u0,
    {
        if states.contains(&u0) {
            let ghost old_stack = stack@;
            let ghost old_closure = closure@;
            closure.insert(u0);
            stack.push(u0);
            proof {
                assert forall|x: usize| #[trigger] closure@.contains(x) implies stack@.contains(x) by {
                    if x == u0 {
                        assert(stack@[stack@.len() - 1] == u0);
                    } else {
                        assert(old_closure.contains(x));
                        assert(old_stack.contains(x));
                        let m = choose|m: int| 0 <= m < old_stack.len() && old_stack[m] == x;
                        assert(stack@[m] == x);
                    }
                }
            }
        }
        u0 = u0 + 1;
        assert(closure@ =~= states@.filter(|x: usize| x < u0));
    }
    assert(closure@ =~= states@);
    while stack.len() > 0
        invariant
            st == nfa.states@,
            n == st.len(),
            edges_in_bounds(st),
            states@.subset_of(closure@),
            closure@.finite(),
            forall|u: usize| #[trigger] closure@.contains(u) ==> u < n,
            forall|j: int| 0 <= j < stack@.len() ==> closure@.contains(#[trigger] stack@[j]),
            forall|u: usize, k: int|
                #![trigger closure@.contains(u), st[u as int].edges@[k]]
                closure@.contains(u) && !stack@.contains(u) && 0 <= k < st[u as int].edges@.len()
                    && st[u as int].edges@[k] is Epsilon ==> closure@.contains(
                    edge_target(st[u as int].edges@[k]),
                ),
            forall|c: Set<usize>|
                #[trigger] eps_closed(st, c) && states@.subset_of(c) ==> closure@.subset_of(c),
        decreases n - closure@.len(), stack@.len(),
    {
        proof {
            lemma_bounded_len(closure@, n);
        }
        let ghost stack_before_pop = stack@;
        let u = stack.pop().unwrap();
        proof {
            assert(stack_before_pop =~= stack@.push(u));
        }
        let ghost stack_after_pop = stack@;
        let ghost closure_before = closure@;
        let edges = &nfa.states[u].edges;
        let mut k: usize = 0;
        while k < edges.len()
            invariant
                st == nfa.states@,
                n == st.len(),
                edges_in_bounds(st),
                u < n,
                edges@ == st[u as int].edges@,
                k <= edges@.len(),
                states@.subset_of(closure@),
                closure_before.subset_of(closure@),
                closure@.finite(),
                closure@.contains(u),
                forall|x: usize| #[trigger] closure@.contains(x) ==> x < n,
                forall|j: int| 0 <= j < stack@.len() ==> closure@.contains(#[trigger] stack@[j]),
                forall|j: int|
                    0 <= j < stack_after_pop.len() ==> stack@.contains(
                        #[trigger] stack_after_pop[j],
                    ),
                forall|x: usize| #[trigger]
                    closure@.contains(x) && !closure_before.contains(x) ==> stack@.contains(x),
                closure@.len() >= closure_before.len(),
                closure@.len() > closure_before.len() || stack@ == stack_after_pop,
                forall|j: int|
                    0 <= j < k && edges@[j] is Epsilon ==> closure@.contains(
                        edge_target(#[trigger] edges@[j]),
                    ),
                forall|c: Set<usize>|
                    #[trigger] eps_closed(st, c) && states@.subset_of(c) ==> closure@.subset_of(c),
            decreases edges@.len() - k,
        {
            if let Edge::Epsilon(v) = edges[k] {
                let ghost before = closure@;
                proof {
                    assert(st[u as int].edges@[k as int] == edges@[k as int]);
                }
                let ghost old_stack = stack@;
                if closure.insert(v) {
                    stack.push(v);
                    proof {
                        assert(!before.contains(v));
                        assert(closure@ == before.insert(v));
                        assert(closure@.len() == before.len() + 1);
                        assert forall|c: Set<usize>| #[trigger]
                            eps_closed(st, c) && states@.subset_of(c) implies closure@.subset_of(
                            c,
                        ) by {
                            assert(before.subset_of(c));
                            assert(c.contains(u));
                            assert(st[u as int].edges@[k as int] is Epsilon);
                            assert(c.contains(edge_target(st[u as int].edges@[k as int])));
                        }
                        assert forall|j: int|
                            0 <= j < stack_after_pop.len() implies stack@.contains(
                            #[trigger] stack_after_pop[j],
                        ) by {
                            let w = stack_after_pop[j];
                            assert(old_stack.contains(w));
                            let m = choose|m: int| 0 <= m < old_stack.len() && old_stack[m] == w;
                            assert(stack@[m] == w);
                        }
                        assert forall|x: usize| #[trigger]
                            closure@.contains(x) && !closure_before.contains(x) implies stack@.contains(
                            x,
                        ) by {
                            if x != v {
                                assert(old_stack.contains(x));
                                let m = choose|m: int| 0 <= m < old_stack.len() && old_stack[m] == x;
                                assert(stack@[m] == x);
                            } else {
                                assert(stack@[stack@.len() - 1] == v);
                            }
                        }
                    }
                }
            }
            k = k + 1;
        }
        proof {
            assert forall|w: usize, j: int|
                #![trigger closure@.contains(w), st[w as int].edges@[j]]
                closure@.contains(w) && !stack@.contains(w) && 0 <= j < st[w as int].edges@.len()
                    && st[w as int].edges@[j] is Epsilon implies closure@.contains(
                edge_target(st[w as int].edges@[j]),
            ) by {
                if w == u {
                    assert(edges@[j] == st[w as int].edges@[j]);
                    assert(edges@[j] is Epsilon);
                    assert(closure@.contains(edge_target(edges@[j])));
                } else if closure_before.contains(w) {
                    if stack_after_pop.contains(w) {
                        let m = choose|m: int|
                            0 <= m < stack_after_pop.len() && stack_after_pop[m] == w;
                        assert(stack@.contains(stack_after_pop[m]));
                    } else {
                        if stack_before_pop.contains(w) {
                            let m = choose|m: int|
                                0 <= m < stack_before_pop.len() && stack_before_pop[m] == w;
                            if m < stack_after_pop.len() {
                                assert(stack_after_pop[m] == w);
                            }
                        }
                        assert(!stack_before_pop.contains(w));
                        assert(closure_before.contains(edge_target(st[w as int].edges@[j])));
                    }
                }
            }
            lemma_bounded_len(closure@, n);
        }
    }
    proof {
        assert forall|w: usize, j: int|
            #![trigger closure@.contains(w), st[w as int].edges@[j]]
            closure@.contains(w) && w < st.len() && 0 <= j < st[w as int].edges@.len()
                && st[w as int].edges@[j] is Epsilon implies closure@.contains(
            edge_target(st[w as int].edges@[j]),
        ) by {
            assert(!stack@.contains(w));
        }
    }
    closure
}

/// The states reachable from `states` by one edge on `symbol`.
pub fn move_states(states: &HashSet<usize>, symbol: char, nfa: &Nfa) -> (res: HashSet<usize>)
    requires
        forall|u: usize| #[trigger] states@.contains(u) ==> u < nfa.states@.len(),
    ensures
        res@ == move_set(nfa.states@, states@, symbol),
{
    let ghost st = nfa.states@;
    let mut result: HashSet<usize> = HashSet::new();
    let n_exec = nfa.states.len();
    let mut u: usize = 0;
    while u < n_exec
        invariant
            st == nfa.states@,
            n_exec == st.len(),
            u <= n_exec,
            forall|x: usize| #[trigger] states@.contains(x) ==> x < st.len(),
            result@ == move_set(st, states@.filter(|x: usize| x < u), symbol),
        decreases n_exec - u,
    {
        let ghost prev = states@.filter(|x: usize| x < u);
        let ghost before = result@;
        if states.contains(&u) {
            let edges = &nfa.states[u].edges;
            let mut k: usize = 0;
            while k < edges.len()
                invariant
                    edges@ == st[u as int].edges@,
                    k <= edges@.len(),
                    result@ == before + Set::new(
                        |v: usize|
                            exists|j: int|
                                0 <= j < k && #[trigger] edges@[j] == Edge::Symbol(symbol, v),
                    ),
                decreases edges@.len() - k,
            {
                if let Edge::Symbol(c, v) = edges[k] {
                    if c == symbol {
                        result.insert(v);
                    }
                }
                k = k + 1;
                proof {
                    assert(result@ =~= before + Set::new(
                        |v: usize|
                            exists|j: int|
                                0 <= j < k && #[trigger] edges@[j] == Edge::Symbol(symbol, v),
                    ));
                }
            }
            proof {
                let next = states@.filter(|x: usize| x < u + 1);
                assert(next =~= prev.insert(u));
                assert(result@ =~= move_set(st, next, symbol)) by {
                    assert forall|v: usize| result@.contains(v) implies move_set(
                        st,
                        next,
                        symbol,
                    ).contains(v) by {
                        if !before.contains(v) {
                            let j = choose|j: int|
                                0 <= j < k && #[trigger] edges@[j] == Edge::Symbol(symbol, v);
                            assert(moves_on(st, u, symbol, v));
                        } else {
                            let w = choose|w: usize|
                                prev.contains(w) && #[trigger] moves_on(st, w, symbol, v);
                            assert(next.contains(w));
                        }
                    }
                    assert forall|v: usize| move_set(st, next, symbol).contains(
                        v,
                    ) implies result@.contains(v) by {
                        let w = choose|w: usize|
                            next.contains(w) && #[trigger] moves_on(st, w, symbol, v);
                        if w == u {
                            let j = choose|j: int|
                                0 <= j < st[u as int].edges@.len() && #[trigger] st[u as int].edges@[j]
                                    == Edge::Symbol(symbol, v);
                            assert(edges@[j] == Edge::Symbol(symbol, v));
                        } else {
                            assert(prev.contains(w));
                            assert(before.contains(v));
                        }
                    }
                }
            }
        } else {
            proof {
                assert(states@.filter(|x: usize| x < u + 1) =~= prev);
            }
        }
        u = u + 1;
    }
    proof {
        assert(states@.filter(|x: usize| x < n_exec) =~= states@);
    }
    result
}

} // verus!
