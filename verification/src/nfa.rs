use vstd::prelude::*;
use std::collections::HashSet;
use crate::regex_ast::RegexAST;

verus! {

broadcast use vstd::std_specs::hash::group_hash_axioms;

/// A transition of an automaton.
#[derive(Debug, Clone, Copy, PartialEq, Eq, Structural)]
pub enum Edge {
    /// Consumes the given character and goes to the given state.
    Symbol(char, usize),
    /// Goes to the given state without consuming input.
    Epsilon(usize),
}

/// The state an edge leads to.
pub open spec fn edge_target(e: Edge) -> usize {
    match e {
        Edge::Symbol(_, v) => v,
        Edge::Epsilon(v) => v,
    }
}

/// A state of a nondeterministic automaton.
#[derive(Debug)]
pub struct NfaState {
    pub edges: Vec<Edge>,
    pub is_accept: bool,
}

/// A nondeterministic finite automaton.
#[derive(Debug)]
pub struct Nfa {
    pub states: Vec<NfaState>,
    pub start: usize,
    pub end: usize,
}

/// Number of states that the construction adds for a tree.
pub open spec fn nfa_size(ast: RegexAST) -> nat
    decreases ast,
{
    match ast {
        RegexAST::Literal(_) => 2,
        RegexAST::Epsilon => 2,
        RegexAST::Concat(l, r) => nfa_size(*l) + nfa_size(*r),
        RegexAST::Union(l, r) => nfa_size(*l) + nfa_size(*r) + 2,
        RegexAST::Star(i) => nfa_size(*i) + 2,
    }
}

/// Every edge of states `lo..` of `states` leads to a state in `lo..hi`.
pub open spec fn edges_within(states: Seq<NfaState>, lo: int, hi: int) -> bool {
    forall|i: int, k: int|
        #![trigger states[i].edges@[k]]
        lo <= i < states.len() && 0 <= k < states[i].edges@.len() ==> lo <= edge_target(
            states[i].edges@[k],
        ) < hi
}

/// Every edge of every state leads to an existing state.
pub open spec fn edges_in_bounds(states: Seq<NfaState>) -> bool {
    edges_within(states, 0, states.len() as int)
}

/// Two state lists agree on positions below `n`.
pub open spec fn same_prefix(a: Seq<NfaState>, b: Seq<NfaState>, n: int) -> bool {
    forall|i: int|
        0 <= i < n ==> #[trigger] a[i].edges@ == b[i].edges@ && a[i].is_accept == b[i].is_accept
}

/// The shape of the fragment that the construction appends: its states are new, start and
/// end are among them, the end state has no outgoing edge, no new state accepts, and every
/// new edge stays inside the fragment.
pub open spec fn fragment(
    old_states: Seq<NfaState>,
    new_states: Seq<NfaState>,
    ast: RegexAST,
    start: usize,
    end: usize,
) -> bool {
    let lo = old_states.len() as int;
    &&& new_states.len() == lo + nfa_size(ast)
    &&& same_prefix(new_states, old_states, lo)
    &&& lo <= start < new_states.len()
    &&& lo <= end < new_states.len()
    &&& start != end
    &&& new_states[end as int].edges@.len() == 0
    &&& forall|i: int| lo <= i < new_states.len() ==> !(#[trigger] new_states[i].is_accept)
    &&& edges_within(new_states, lo, new_states.len() as int)
}

/// The edges of the states that the construction appends for `ast` to a list of `lo`
/// states, with the appended automaton's start and end: a literal or the empty word is a
/// state with one edge to a final state; a concatenation links the end of the left part
/// to the start of the right one; a union adds a start with empty edges to both parts
/// and an end that both parts' ends lead to; a star adds a start with empty edges to the
/// inner part and to a new end, and the inner end leads back to the inner start and to
/// the new end.
pub open spec fn thompson(ast: RegexAST, lo: int) -> (Seq<Seq<Edge>>, int, int)
    decreases ast,
{
    match ast {
        RegexAST::Literal(c) => (seq![seq![Edge::Symbol(c, (lo + 1) as usize)], Seq::empty()], lo, lo + 1),
        RegexAST::Epsilon => (seq![seq![Edge::Epsilon((lo + 1) as usize)], Seq::empty()], lo, lo + 1),
        RegexAST::Concat(l, r) => {
            let (a, ls, le) = thompson(*l, lo);
            let (b, rs, re) = thompson(*r, lo + a.len());
            let all = a + b;
            (all.update(le - lo, all[le - lo].push(Edge::Epsilon(rs as usize))), ls, re)
        },
        RegexAST::Union(l, r) => {
            let (a, ls, le) = thompson(*l, lo + 1);
            let (b, rs, re) = thompson(*r, lo + 1 + a.len());
            let ne = lo + 1 + a.len() + b.len();
            let all = seq![seq![Edge::Epsilon(ls as usize), Edge::Epsilon(rs as usize)]] + a + b + seq![Seq::<Edge>::empty()];
            let all2 = all.update(le - lo, all[le - lo].push(Edge::Epsilon(ne as usize)));
            (all2.update(re - lo, all2[re - lo].push(Edge::Epsilon(ne as usize))), lo, ne)
        },
        RegexAST::Star(i) => {
            let (a, is, ie) = thompson(*i, lo + 1);
            let ne = lo + 1 + a.len();
            let all = seq![seq![Edge::Epsilon(is as usize), Edge::Epsilon(ne as usize)]] + a + seq![Seq::<Edge>::empty()];
            (all.update(ie - lo, all[ie - lo].push(Edge::Epsilon(is as usize)).push(Edge::Epsilon(ne as usize))), lo, ne)
        },
    }
}

pub(crate) proof fn lemma_thompson_shape(ast: RegexAST, lo: int)
    ensures
        thompson(ast, lo).0.len() == nfa_size(ast),
        lo <= thompson(ast, lo).1 < lo + nfa_size(ast),
        lo <= thompson(ast, lo).2 < lo + nfa_size(ast),
    decreases ast,
{
    match ast {
        RegexAST::Concat(l, r) => {
            lemma_thompson_shape(*l, lo);
            lemma_thompson_shape(*r, lo + nfa_size(*l));
        },
        RegexAST::Union(l, r) => {
            lemma_thompson_shape(*l, lo + 1);
            lemma_thompson_shape(*r, lo + 1 + nfa_size(*l));
        },
        RegexAST::Star(i) => {
            lemma_thompson_shape(*i, lo + 1);
        },
        _ => {},
    }
}

proof fn lemma_size_positive(ast: RegexAST)
    ensures
        nfa_size(ast) >= 2,
    decreases ast,
{
    match ast {
        RegexAST::Concat(l, r) => {
            lemma_size_positive(*l);
            lemma_size_positive(*r);
        },
        RegexAST::Union(l, r) => {
            lemma_size_positive(*l);
            lemma_size_positive(*r);
        },
        RegexAST::Star(i) => {
            lemma_size_positive(*i);
        },
        _ => {},
    }
}

pub(crate) fn push_edge(states: &mut Vec<NfaState>, i: usize, e: Edge)
    requires
        i < old(states)@.len(),
    ensures
        final(states)@.len() == old(states)@.len(),
        final(states)@[i as int].edges@ == old(states)@[i as int].edges@.push(e),
        final(states)@[i as int].is_accept == old(states)@[i as int].is_accept,
        forall|j: int|
            0 <= j < old(states)@.len() && j != i ==> #[trigger] final(states)@[j] == old(
                states,
            )@[j],
{
    states[i].edges.push(e);
}

impl Nfa {
    /// Thompson construction: appends the states of `ast`'s automaton to `states` and
    /// returns its (start, end) states.
    #[verifier::rlimit(60)]
    pub fn build_from_ast(ast: &RegexAST, states: &mut Vec<NfaState>) -> (res: (usize, usize))
        requires
            old(states)@.len() + nfa_size(*ast) <= usize::MAX,
        ensures
            fragment(old(states)@, final(states)@, *ast, res.0, res.1),
            res.0 == thompson(*ast, old(states)@.len() as int).1,
            res.1 == thompson(*ast, old(states)@.len() as int).2,
            forall|i: int|
                0 <= i < nfa_size(*ast) ==> (#[trigger] final(states)@[old(states)@.len() + i]).edges@ == thompson(
                    *ast,
                    old(states)@.len() as int,
                ).0[i],
        decreases ast,
    {
        proof {
            lemma_size_positive(*ast);
            lemma_thompson_shape(*ast, old(states)@.len() as int);
        }
        let ghost s0 = states@;
        let ghost lo = s0.len() as int;
        match ast {
            RegexAST::Literal(c) => {
                let start = states.len();
                let end = start + 1;
                let mut e = Vec::new();
                e.push(Edge::Symbol(*c, end));
                states.push(NfaState { edges: e, is_accept: false });
                states.push(NfaState { edges: Vec::new(), is_accept: false });
                proof {
                    assert(states@[start as int].edges@ == seq![Edge::Symbol(*c, end)]);
                    let t = thompson(*ast, lo).0;
                    assert forall|i: int| 0 <= i < 2 implies (#[trigger] states@[lo + i]).edges@ == t[i] by {
                        if i == 0 {
                            assert(t[0] =~= seq![Edge::Symbol(*c, end)]);
                        } else {
                            assert(t[1] =~= Seq::<Edge>::empty());
                        }
                    }
                }
                (start, end)
            },
            RegexAST::Epsilon => {
                let start = states.len();
                let end = start + 1;
                let mut e = Vec::new();
                e.push(Edge::Epsilon(end));
                states.push(NfaState { edges: e, is_accept: false });
                states.push(NfaState { edges: Vec::new(), is_accept: false });
                proof {
                    assert(states@[start as int].edges@ == seq![Edge::Epsilon(end)]);
                    let t = thompson(*ast, lo).0;
                    assert forall|i: int| 0 <= i < 2 implies (#[trigger] states@[lo + i]).edges@ == t[i] by {
                        if i == 0 {
                            assert(t[0] =~= seq![Edge::Epsilon(end)]);
                        } else {
                            assert(t[1] =~= Seq::<Edge>::empty());
                        }
                    }
                }
                (start, end)
            },
            RegexAST::Concat(left, right) => {
                proof {
                    lemma_size_positive(**left);
                    lemma_size_positive(**right);
                }
                let (l_start, l_end) = Self::build_from_ast(left, states);
                let ghost s1 = states@;
                let (r_start, r_end) = Self::build_from_ast(right, states);
                let ghost s2 = states@;
                push_edge(states, l_end, Edge::Epsilon(r_start));
                proof {
                    let lo = s0.len() as int;
                    assert(edges_within(states@, lo, states@.len() as int)) by {
                        assert forall|i: int, k: int|
                            lo <= i < states@.len() && 0 <= k < states@[i].edges@.len() implies lo
                            <= edge_target(#[trigger] states@[i].edges@[k]) < states@.len() by {
                            if i == l_end {
                                if k < s2[i].edges@.len() {
                                    assert(s2[i].edges@[k] == s1[i].edges@[k]);
                                }
                            } else if i < s1.len() {
                                assert(states@[i] == s2[i]);
                                assert(s2[i].edges@ == s1[i].edges@);
                            } else {
                                assert(states@[i] == s2[i]);
                            }
                        }
                    }
                    assert forall|i: int| lo <= i < states@.len() implies !(
                    #[trigger] states@[i].is_accept) by {
                        if i != l_end {
                            assert(states@[i] == s2[i]);
                        }
                        if i < s1.len() {
                            assert(s2[i].edges@ == s1[i].edges@);
                            assert(s2[i].is_accept == s1[i].is_accept);
                        }
                    }
                    assert forall|i: int| 0 <= i < lo implies #[trigger] states@[i].edges@
                        == s0[i].edges@ && states@[i].is_accept == s0[i].is_accept by {
                        assert(states@[i] == s2[i]);
                        assert(s2[i].edges@ == s1[i].edges@);
                    }
                    assert(states@[r_end as int] == s2[r_end as int]);
                    lemma_thompson_shape(**left, lo);
                    let a = thompson(**left, lo).0;
                    lemma_thompson_shape(**right, lo + a.len());
                    let b = thompson(**right, lo + a.len()).0;
                    let all = a + b;
                    let t = thompson(*ast, lo).0;
                    assert(a.len() == s1.len() - lo);
                    assert(t == all.update(l_end - lo, all[l_end - lo].push(Edge::Epsilon(r_start))));
                    assert forall|i: int| 0 <= i < nfa_size(*ast) implies (#[trigger] states@[lo + i]).edges@ == t[i] by {
                        if i < a.len() {
                            assert(s2[lo + i].edges@ == s1[lo + i].edges@);
                            if lo + i == l_end {
                                assert(states@[lo + i].edges@ == s2[lo + i].edges@.push(Edge::Epsilon(r_start)));
                            } else {
                                assert(states@[lo + i] == s2[lo + i]);
                            }
                            assert(all[i] == a[i]);
                        } else {
                            let j = i - a.len();
                            assert(s2[s1.len() + j].edges@ == b[j]);
                            assert(states@[lo + i] == s2[lo + i]);
                            assert(all[i] == b[j]);
                        }
                    }
                }
                (l_start, r_end)
            },
            RegexAST::Union(left, right) => {
                proof {
                    lemma_size_positive(**left);
                    lemma_size_positive(**right);
                }
                let new_start = states.len();
                states.push(NfaState { edges: Vec::new(), is_accept: false });
                let ghost s1 = states@;
                let (l_start, l_end) = Self::build_from_ast(left, states);
                let ghost s2 = states@;
                let (r_start, r_end) = Self::build_from_ast(right, states);
                let ghost s3 = states@;
                let new_end = states.len();
                states.push(NfaState { edges: Vec::new(), is_accept: false });
                let ghost s4 = states@;
                push_edge(states, new_start, Edge::Epsilon(l_start));
                push_edge(states, new_start, Edge::Epsilon(r_start));
                push_edge(states, l_end, Edge::Epsilon(new_end));
                push_edge(states, r_end, Edge::Epsilon(new_end));
                proof {
                    let lo = s0.len() as int;
                    let hi = states@.len() as int;
                    assert(hi == s4.len());
                    assert forall|i: int| 0 <= i < lo implies #[trigger] states@[i].edges@
                        == s0[i].edges@ && states@[i].is_accept == s0[i].is_accept by {
                        assert(states@[i] == s4[i]);
                        assert(s4[i] == s3[i]);
                        assert(s3[i].edges@ == s2[i].edges@);
                        assert(s2[i].edges@ == s1[i].edges@);
                        assert(s1[i] == s0[i]);
                    }
                    assert forall|i: int| lo <= i < hi implies !(#[trigger] states@[i].is_accept) by {
                        assert(states@[i].is_accept == s4[i].is_accept);
                        if i < s3.len() {
                            assert(s4[i] == s3[i]);
                            if i < s2.len() {
                                assert(s3[i].edges@ == s2[i].edges@);
                                assert(s3[i].is_accept == s2[i].is_accept);
                                if i < s1.len() {
                                    assert(s2[i].edges@ == s1[i].edges@);
                                    assert(s2[i].is_accept == s1[i].is_accept);
                                }
                            }
                        }
                    }
                    assert(edges_within(states@, lo, hi)) by {
                        assert forall|i: int, k: int|
                            lo <= i < hi && 0 <= k < states@[i].edges@.len() implies lo
                            <= edge_target(#[trigger] states@[i].edges@[k]) < hi by {
                            if i == new_start {
                                assert(s4[i].edges@.len() == 0);
                            } else if i == new_end {
                                assert(states@[i] == s4[i]);
                            } else if i == l_end || i == r_end {
                                if k < s4[i].edges@.len() {
                                    assert(s4[i] == s3[i]);
                                    if i < s2.len() {
                                        assert(s3[i].edges@ == s2[i].edges@);
                                    }
                                    assert(states@[i].edges@[k] == s4[i].edges@[k]);
                                }
                            } else {
                                assert(states@[i] == s4[i]);
                                assert(s4[i] == s3[i]);
                                if i < s2.len() {
                                    assert(s3[i].edges@ == s2[i].edges@);
                                }
                            }
                        }
                    }
                    assert(states@[new_end as int] == s4[new_end as int]);
                    lemma_thompson_shape(**left, lo + 1);
                    let a = thompson(**left, lo + 1).0;
                    lemma_thompson_shape(**right, lo + 1 + a.len());
                    let b = thompson(**right, lo + 1 + a.len()).0;
                    let ne = lo + 1 + a.len() + b.len();
                    assert(ne == new_end);
                    let all = seq![seq![Edge::Epsilon(l_start), Edge::Epsilon(r_start)]] + a + b + seq![Seq::<Edge>::empty()];
                    let all2 = all.update(l_end - lo, all[l_end - lo].push(Edge::Epsilon(new_end)));
                    let t = thompson(*ast, lo).0;
                    assert(t == all2.update(r_end - lo, all2[r_end - lo].push(Edge::Epsilon(new_end))));
                    assert forall|i: int| 0 <= i < nfa_size(*ast) implies (#[trigger] states@[lo + i]).edges@ == t[i] by {
                        if i == 0 {
                            assert(s4[lo].edges@.len() == 0);
                            assert(states@[lo].edges@ =~= seq![Edge::Epsilon(l_start), Edge::Epsilon(r_start)]);
                        } else if i < 1 + a.len() {
                            let j = i - 1;
                            assert(s2[s1.len() + j].edges@ == a[j]);
                            assert(s2[lo + i].edges@ == a[j]);
                            assert(s3[lo + i].edges@ == s2[lo + i].edges@);
                            assert(s4[lo + i] == s3[lo + i]);
                            assert(all[i] == a[j]);
                            if lo + i == l_end {
                                assert(states@[lo + i].edges@ == s4[lo + i].edges@.push(Edge::Epsilon(new_end)));
                            } else {
                                assert(states@[lo + i] == s4[lo + i]);
                            }
                        } else if i < 1 + a.len() + b.len() {
                            let j = i - 1 - a.len();
                            assert(s3[s2.len() + j].edges@ == b[j]);
                            assert(s3[lo + i].edges@ == b[j]);
                            assert(s4[lo + i] == s3[lo + i]);
                            assert(all[i] == b[j]);
                            if lo + i == r_end {
                                assert(states@[lo + i].edges@ == s4[lo + i].edges@.push(Edge::Epsilon(new_end)));
                            } else {
                                assert(states@[lo + i] == s4[lo + i]);
                            }
                        } else {
                            assert(states@[lo + i] == s4[lo + i]);
                            assert(all[i] =~= Seq::<Edge>::empty());
                        }
                    }
                }
                (new_start, new_end)
            },
            RegexAST::Star(inner) => {
                proof {
                    lemma_size_positive(**inner);
                }
                let new_start = states.len();
                states.push(NfaState { edges: Vec::new(), is_accept: false });
                let ghost s1 = states@;
                let (i_start, i_end) = Self::build_from_ast(inner, states);
                let ghost s2 = states@;
                let new_end = states.len();
                states.push(NfaState { edges: Vec::new(), is_accept: false });
                let ghost s3 = states@;
                push_edge(states, new_start, Edge::Epsilon(i_start));
                push_edge(states, new_start, Edge::Epsilon(new_end));
                push_edge(states, i_end, Edge::Epsilon(i_start));
                push_edge(states, i_end, Edge::Epsilon(new_end));
                proof {
                    let lo = s0.len() as int;
                    let hi = states@.len() as int;
                    assert forall|i: int| 0 <= i < lo implies #[trigger] states@[i].edges@
                        == s0[i].edges@ && states@[i].is_accept == s0[i].is_accept by {
                        assert(states@[i] == s3[i]);
                        assert(s3[i] == s2[i]);
                        assert(s2[i].edges@ == s1[i].edges@);
                        assert(s1[i] == s0[i]);
                    }
                    assert forall|i: int| lo <= i < hi implies !(#[trigger] states@[i].is_accept) by {
                        assert(states@[i].is_accept == s3[i].is_accept);
                        if i < s2.len() {
                            assert(s3[i] == s2[i]);
                            if i < s1.len() {
                                assert(s2[i].edges@ == s1[i].edges@);
                                assert(s2[i].is_accept == s1[i].is_accept);
                            }
                        }
                    }
                    assert(edges_within(states@, lo, hi)) by {
                        assert forall|i: int, k: int|
                            lo <= i < hi && 0 <= k < states@[i].edges@.len() implies lo
                            <= edge_target(#[trigger] states@[i].edges@[k]) < hi by {
                            if i == new_start {
                                assert(s3[i].edges@.len() == 0);
                            } else if i == new_end {
                                assert(states@[i] == s3[i]);
                            } else if i == i_end {
                                if k < s3[i].edges@.len() {
                                    assert(s3[i] == s2[i]);
                                    assert(states@[i].edges@[k] == s3[i].edges@[k]);
                                }
                            } else {
                                assert(states@[i] == s3[i]);
                                assert(s3[i] == s2[i]);
                            }
                        }
                    }
                    assert(states@[new_end as int] == s3[new_end as int]);
                    lemma_thompson_shape(**inner, lo + 1);
                    let a = thompson(**inner, lo + 1).0;
                    let ne = lo + 1 + a.len();
                    assert(ne == new_end);
                    let all = seq![seq![Edge::Epsilon(i_start), Edge::Epsilon(new_end)]] + a + seq![Seq::<Edge>::empty()];
                    let t = thompson(*ast, lo).0;
                    assert(t == all.update(i_end - lo, all[i_end - lo].push(Edge::Epsilon(i_start)).push(Edge::Epsilon(new_end))));
                    assert forall|i: int| 0 <= i < nfa_size(*ast) implies (#[trigger] states@[lo + i]).edges@ == t[i] by {
                        if i == 0 {
                            assert(s3[lo].edges@.len() == 0);
                            assert(states@[lo].edges@ =~= seq![Edge::Epsilon(i_start), Edge::Epsilon(new_end)]);
                        } else if i < 1 + a.len() {
                            let j = i - 1;
                            assert(s2[s1.len() + j].edges@ == a[j]);
                            assert(s2[lo + i].edges@ == a[j]);
                            assert(s3[lo + i] == s2[lo + i]);
                            assert(all[i] == a[j]);
                            if lo + i == i_end {
                                assert(states@[lo + i].edges@ == s3[lo + i].edges@.push(Edge::Epsilon(i_start)).push(Edge::Epsilon(new_end)));
                            } else {
                                assert(states@[lo + i] == s3[lo + i]);
                            }
                        } else {
                            assert(states@[lo + i] == s3[lo + i]);
                            assert(all[i] =~= Seq::<Edge>::empty());
                        }
                    }
                }
                (new_start, new_end)
            },
        }
    }
}

} // verus!
