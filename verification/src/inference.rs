use vstd::prelude::*;
use std::collections::HashMap;
use crate::types::{HulkType, TypeView, type_debug, debug_string};

verus! {

broadcast use vstd::std_specs::hash::group_hash_axioms;

/// A restriction on the types that a type variable may be bound to.
#[derive(Debug)]
pub enum Constraint {
    StringOrNumber,
    ConformsToProtocol(String),
}

/// Model of a constraint.
pub enum ConstraintView {
    StringOrNumber,
    ConformsToProtocol(Seq<char>),
}

impl View for Constraint {
    type V = ConstraintView;

    open spec fn view(&self) -> ConstraintView {
        match self {
            Constraint::StringOrNumber => ConstraintView::StringOrNumber,
            Constraint::ConformsToProtocol(p) => ConstraintView::ConformsToProtocol(p@),
        }
    }
}

/// A copy of a list of constraints.
pub fn clone_constraints(v: &Vec<Constraint>) -> (res: Vec<Constraint>)
    ensures
        constraint_views(res@) == constraint_views(v@),
{
    let mut out: Vec<Constraint> = Vec::new();
    let mut i: usize = 0;
    while i < v.len()
        invariant
            i <= v@.len(),
            constraint_views(out@) == constraint_views(v@.subrange(0, i as int)),
        decreases v@.len() - i,
    {
        let ghost before = out@;
        out.push(v[i].clone());
        proof {
            assert(constraint_views(out@) =~= constraint_views(before).push(v@[i as int]@));
            assert(constraint_views(v@.subrange(0, i + 1)) =~= constraint_views(v@.subrange(0, i as int)).push(v@[i as int]@));
        }
        i = i + 1;
    }
    assert(v@.subrange(0, i as int) =~= v@);
    out
}

impl Clone for Constraint {
    fn clone(&self) -> (res: Self)
        ensures
            res@ == self@,
    {
        match self {
            Constraint::StringOrNumber => Constraint::StringOrNumber,
            Constraint::ConformsToProtocol(p) => Constraint::ConformsToProtocol(p.clone()),
        }
    }
}

/// Models of a list of constraints.
pub open spec fn constraint_views(cs: Seq<Constraint>) -> Seq<ConstraintView> {
    cs.map_values(|c: Constraint| c@)
}

/// Whether a type satisfies every constraint of a list: `StringOrNumber` admits only
/// `String` and `Number`; protocol conformance is checked elsewhere.
pub open spec fn satisfies(cs: Seq<ConstraintView>, t: TypeView) -> bool {
    forall|i: int|
        0 <= i < cs.len() ==> (#[trigger] cs[i] matches ConstraintView::StringOrNumber ==> (t
            matches TypeView::String || t matches TypeView::Number))
}

/// The substitution is acyclic: every bound variable carries a stamp below `clock`, and
/// a bound variable that points to another bound variable has a smaller stamp than it.
pub open spec fn acyclic(subst: Map<usize, TypeView>, stamp: Map<usize, nat>, clock: nat) -> bool {
    &&& forall|id: usize| #[trigger]
        subst.contains_key(id) ==> stamp.contains_key(id) && stamp[id] < clock
    &&& forall|id: usize, j: usize|
        #![trigger subst.contains_key(id), subst.contains_key(j)]
        subst.contains_key(id) && subst[id] == TypeView::Var(j) && subst.contains_key(j)
            ==> stamp[id] < stamp[j]
}

/// Measure that decreases along a chain of bound variables.
pub open spec fn chain_measure(
    subst: Map<usize, TypeView>,
    stamp: Map<usize, nat>,
    clock: nat,
    t: TypeView,
) -> nat {
    match t {
        TypeView::Var(id) => if subst.contains_key(id) && stamp[id] < clock {
            (clock - stamp[id]) as nat
        } else {
            0
        },
        _ => 0,
    }
}

/// Follows a type through the substitution until it is not a bound variable.
pub open spec fn chase(
    subst: Map<usize, TypeView>,
    stamp: Map<usize, nat>,
    clock: nat,
    t: TypeView,
) -> TypeView
    decreases chain_measure(subst, stamp, clock, t),
    when acyclic(subst, stamp, clock)
{
    match t {
        TypeView::Var(id) => if subst.contains_key(id) {
            chase(subst, stamp, clock, subst[id])
        } else {
            t
        },
        _ => t,
    }
}

/// The error message of a failed unification.
pub open spec fn unify_error(a: TypeView, b: TypeView) -> Seq<char> {
    "Cannot unify "@ + type_debug(a) + " and "@ + type_debug(b)
}

/// The error message of a violated `StringOrNumber` constraint.
pub open spec fn constraint_error(t: TypeView) -> Seq<char> {
    "Type "@ + type_debug(t) + " must be String or Number"@
}

/// The message of a failed unification of two resolved types: a variable side fails on the
/// constraints of that variable against the other side; two other types fail as a mismatch.
pub open spec fn unify_failure(ra: TypeView, rb: TypeView) -> Seq<char> {
    match (ra, rb) {
        (TypeView::Var(_), _) => constraint_error(rb),
        (_, TypeView::Var(_)) => constraint_error(ra),
        _ => unify_error(ra, rb),
    }
}

/// Whether two resolved types are equal base types that unify without binding.
pub open spec fn same_base(a: TypeView, b: TypeView) -> bool {
    match (a, b) {
        (TypeView::Number, TypeView::Number) => true,
        (TypeView::String, TypeView::String) => true,
        (TypeView::Boolean, TypeView::Boolean) => true,
        (TypeView::Class(c1), TypeView::Class(c2)) => c1 == c2,
        (TypeView::Protocol(p1), TypeView::Protocol(p2)) => p1 == p2,
        (TypeView::Object, TypeView::Object) => true,
        _ => false,
    }
}

/// Type variables, their substitution and the constraints on them.
pub struct Unifier {
    subs: HashMap<usize, HulkType>,
    next_var: usize,
    constraints: HashMap<usize, Vec<Constraint>>,
    stamp: Ghost<Map<usize, nat>>,
    clock: Ghost<nat>,
}

impl Unifier {
    /// The substitution: bound variable -> type it is bound to.
    pub closed spec fn subst(&self) -> Map<usize, TypeView> {
        self.subs@.map_values(|t: HulkType| t@)
    }

    /// The id the next fresh variable gets.
    pub closed spec fn counter(&self) -> usize {
        self.next_var
    }

    /// The constraints recorded for each variable.
    pub closed spec fn constraint_map(&self) -> Map<usize, Seq<ConstraintView>> {
        self.constraints@.map_values(|cs: Vec<Constraint>| constraint_views(cs@))
    }

    /// Constraints recorded for `id` (empty when none).
    pub open spec fn constraints_on(&self, id: usize) -> Seq<ConstraintView> {
        if self.constraint_map().contains_key(id) {
            self.constraint_map()[id]
        } else {
            Seq::empty()
        }
    }

    closed spec fn stamps(&self) -> Map<usize, nat> {
        self.stamp@
    }

    closed spec fn time(&self) -> nat {
        self.clock@
    }

    /// Internal consistency: the substitution is acyclic.
    pub closed spec fn wf(&self) -> bool {
        acyclic(self.subst(), self.stamp@, self.clock@)
    }

    /// A type followed through the substitution.
    pub closed spec fn resolved(&self, t: TypeView) -> TypeView {
        chase(self.subst(), self.stamp@, self.clock@, t)
    }

    /// Whether `t` is a variable that the substitution binds.
    pub open spec fn is_bound_var(&self, t: TypeView) -> bool {
        t matches TypeView::Var(id) && self.subst().contains_key(id)
    }

    proof fn lemma_chase_end(
        subst: Map<usize, TypeView>,
        stamp: Map<usize, nat>,
        clock: nat,
        t: TypeView,
    )
        requires
            acyclic(subst, stamp, clock),
        ensures
            !(chase(subst, stamp, clock, t) matches TypeView::Var(id) && subst.contains_key(id)),
            chase(subst, stamp, clock, chase(subst, stamp, clock, t)) == chase(
                subst,
                stamp,
                clock,
                t,
            ),
            !(t matches TypeView::Var(_)) ==> chase(subst, stamp, clock, t) == t,
        decreases chain_measure(subst, stamp, clock, t),
    {
        if let TypeView::Var(id) = t {
            if subst.contains_key(id) {
                let next = subst[id];
                if let TypeView::Var(j) = next {
                    if subst.contains_key(j) {
                        assert(stamp[id] < stamp[j]);
                    }
                }
                Self::lemma_chase_end(subst, stamp, clock, next);
            }
        }
    }

    /// Binding an unbound variable `id` to a type that is not a bound variable changes the
    /// resolution of exactly those types that resolved to `Var(id)`.
    proof fn lemma_chase_insert(
        subst: Map<usize, TypeView>,
        stamp: Map<usize, nat>,
        clock: nat,
        id: usize,
        t: TypeView,
        x: TypeView,
    )
        requires
            acyclic(subst, stamp, clock),
            !subst.contains_key(id),
            !(t matches TypeView::Var(j) && (subst.contains_key(j) || j == id)),
        ensures
            acyclic(subst.insert(id, t), stamp.insert(id, clock), clock + 1),
            chase(subst.insert(id, t), stamp.insert(id, clock), clock + 1, x) == (if chase(
                subst,
                stamp,
                clock,
                x,
            ) == TypeView::Var(id) {
                t
            } else {
                chase(subst, stamp, clock, x)
            }),
        decreases chain_measure(subst, stamp, clock, x),
    {
        let s2 = subst.insert(id, t);
        let st2 = stamp.insert(id, clock);
        assert(acyclic(s2, st2, clock + 1)) by {
            assert forall|a: usize, b: usize|
                #![trigger s2.contains_key(a), s2.contains_key(b)]
                s2.contains_key(a) && s2[a] == TypeView::Var(b) && s2.contains_key(b) implies st2[a]
                < st2[b] by {
                if a == id {
                    assert(t == TypeView::Var(b));
                } else if b == id {
                    assert(subst.contains_key(a));
                } else {
                    assert(subst.contains_key(a) && subst.contains_key(b));
                }
            }
        }
        if let TypeView::Var(k) = x {
            if subst.contains_key(k) {
                let next = subst[k];
                if let TypeView::Var(j) = next {
                    if subst.contains_key(j) {
                        assert(stamp[k] < stamp[j]);
                    }
                }
                assert(k != id);
                assert(s2[k] == next);
                Self::lemma_chase_insert(subst, stamp, clock, id, t, next);
            } else if k == id {
                assert(chase(s2, st2, clock + 1, t) == t);
            }
        }
    }

    /// A type that is not a variable resolves to itself.
    pub proof fn lemma_resolved_non_var(&self, t: TypeView)
        requires
            self.wf(),
            !(t is Var),
        ensures
            self.resolved(t) == t,
    {
    }

    /// A variable that the substitution does not bind resolves to itself.
    pub proof fn lemma_resolved_unbound(&self, id: usize)
        requires
            self.wf(),
            !self.subst().contains_key(id),
        ensures
            self.resolved(TypeView::Var(id)) == TypeView::Var(id),
    {
    }

    /// Resolution is idempotent, and what it gives is never a bound variable.
    pub proof fn lemma_resolve_idempotent(&self, t: TypeView)
        requires
            self.wf(),
        ensures
            self.resolved(self.resolved(t)) == self.resolved(t),
            !self.is_bound_var(self.resolved(t)),
    {
        Self::lemma_chase_end(self.subst(), self.stamp@, self.clock@, t);
    }

    /// `after` refines this substitution: resolving under `after` what this one resolves
    /// gives what `after` resolves directly. Bindings are only ever added.
    pub open spec fn refined_by(&self, after: Unifier) -> bool {
        forall|x: TypeView| #[trigger] after.resolved(self.resolved(x)) == after.resolved(x)
    }

    /// A substitution refines itself.
    pub proof fn lemma_refines_refl(&self)
        requires
            self.wf(),
        ensures
            self.refined_by(*self),
    {
        assert forall|x: TypeView| #[trigger] self.resolved(self.resolved(x)) == self.resolved(x) by {
            self.lemma_resolve_idempotent(x);
        }
    }

    /// A substitution that resolves every type as before refines the old one.
    pub proof fn lemma_refines_same(&self, after: Unifier)
        requires
            self.wf(),
            forall|x: TypeView| #[trigger] after.resolved(x) == self.resolved(x),
        ensures
            self.refined_by(after),
    {
        assert forall|x: TypeView| #[trigger] after.resolved(self.resolved(x)) == after.resolved(x) by {
            self.lemma_resolve_idempotent(x);
        }
    }

    /// Refinement is transitive.
    pub proof fn lemma_refines_trans(a: Unifier, b: Unifier, c: Unifier)
        requires
            a.refined_by(b),
            b.refined_by(c),
        ensures
            a.refined_by(c),
    {
        assert forall|x: TypeView| #[trigger] c.resolved(a.resolved(x)) == c.resolved(x) by {
            assert(c.resolved(b.resolved(a.resolved(x))) == c.resolved(a.resolved(x)));
            assert(b.resolved(a.resolved(x)) == b.resolved(x));
            assert(c.resolved(b.resolved(x)) == c.resolved(x));
        }
    }

    /// A successful unification of resolved types `ra` and `rb` refines the substitution.
    pub proof fn lemma_refines_update(&self, after: Unifier, ra: TypeView, rb: TypeView)
        requires
            self.wf(),
            forall|x: TypeView| #[trigger] after.resolved(x) == unify_update(self.resolved(x), ra, rb),
        ensures
            self.refined_by(after),
    {
        assert forall|x: TypeView| #[trigger] after.resolved(self.resolved(x)) == after.resolved(x) by {
            self.lemma_resolve_idempotent(x);
        }
    }

    /// Under a refinement, a type that resolved to a type other than a variable keeps
    /// resolving to it.
    pub proof fn lemma_refines_keeps(&self, after: Unifier, t: TypeView)
        requires
            self.refined_by(after),
            after.wf(),
            !(self.resolved(t) is Var),
        ensures
            after.resolved(t) == self.resolved(t),
    {
        after.lemma_resolved_non_var(self.resolved(t));
    }

    /// Whether another fresh variable can be numbered.
    pub fn can_make_var(&self) -> (res: bool)
        ensures
            res == (self.counter() < usize::MAX),
    {
        self.next_var < usize::MAX
    }

    /// Creates a fresh type variable.
    pub fn new_var(&mut self) -> (res: HulkType)
        requires
            old(self).counter() < usize::MAX,
        ensures
            res@ == TypeView::Var(old(self).counter()),
            final(self).counter() == old(self).counter() + 1,
            final(self).subst() == old(self).subst(),
            final(self).constraint_map() == old(self).constraint_map(),
            final(self).wf() == old(self).wf(),
            forall|t: TypeView| #[trigger] final(self).resolved(t) == old(self).resolved(t),
    {
        let id = self.next_var;
        self.next_var = self.next_var + 1;
        HulkType::Var(id)
    }

    fn apply_chain(&self, ty: &HulkType) -> (res: HulkType)
        requires
            self.wf(),
        ensures
            res@ == self.resolved(ty@),
            !self.is_bound_var(res@),
        decreases chain_measure(self.subst(), self.stamps(), self.time(), ty@),
    {
        proof {
            Self::lemma_chase_end(self.subst(), self.stamp@, self.clock@, ty@);
        }
        match ty {
            HulkType::Var(id) => {
                if let Some(sub) = self.subs.get(id) {
                    proof {
                        assert(self.subst().contains_key(*id));
                        assert(self.subst()[*id] == sub@);
                        if let TypeView::Var(j) = sub@ {
                            if self.subst().contains_key(j) {
                                assert(self.stamp@[*id] < self.stamp@[j]);
                            }
                        }
                    }
                    self.apply_chain(sub)
                } else {
                    ty.clone()
                }
            },
            _ => ty.clone(),
        }
    }

    /// Applies the current substitution to a type: a bound variable is replaced, repeatedly,
    /// by what it is bound to.
    pub fn apply(&self, ty: &HulkType) -> (res: HulkType)
        requires
            self.wf(),
        ensures
            res@ == self.resolved(ty@),
            !self.is_bound_var(res@),
    {
        self.apply_chain(ty)
    }

    /// Records a constraint on a variable.
    pub fn add_constraint(&mut self, id: usize, constraint: Constraint)
        ensures
            final(self).constraint_map() == old(self).constraint_map().insert(
                id,
                old(self).constraints_on(id).push(constraint@),
            ),
            final(self).subst() == old(self).subst(),
            final(self).counter() == old(self).counter(),
            final(self).wf() == old(self).wf(),
            forall|t: TypeView| #[trigger] final(self).resolved(t) == old(self).resolved(t),
    {
        let ghost old_map = self.constraints@;
        let mut list = match self.constraints.remove(&id) {
            Some(v) => v,
            None => Vec::new(),
        };
        let ghost before = list@;
        assert(constraint_views(before) == old(self).constraints_on(id));
        list.push(constraint);
        self.constraints.insert(id, list);
        proof {
            assert(constraint_views(before.push(constraint)) =~= constraint_views(before).push(
                constraint@,
            ));
            assert(final(self).constraint_map() =~= old(self).constraint_map().insert(
                id,
                old(self).constraints_on(id).push(constraint@),
            ));
        }
    }

    /// Checks that `ty` satisfies every constraint recorded for `id`.
    pub fn check_constraints(&self, id: usize, ty: &HulkType) -> (res: Result<(), String>)
        ensures
            res is Ok <==> satisfies(self.constraints_on(id), ty@),
            res matches Err(msg) ==> msg@ == constraint_error(ty@),
    {
        if let Some(constraints) = self.constraints.get(&id) {
            let ghost cv = constraint_views(constraints@);
            assert(cv == self.constraints_on(id));
            let mut i: usize = 0;
            while i < constraints.len()
                invariant
                    i <= constraints@.len(),
                    cv == self.constraints_on(id),
                    cv == constraint_views(constraints@),
                    forall|k: int|
                        0 <= k < i ==> (#[trigger] cv[k] matches ConstraintView::StringOrNumber
                            ==> (ty@ matches TypeView::String || ty@ matches TypeView::Number)),
                decreases constraints@.len() - i,
            {
                match &constraints[i] {
                    Constraint::StringOrNumber => {
                        let ok = match ty {
                            HulkType::String | HulkType::Number => true,
                            _ => false,
                        };
                        if !ok {
                            let mut msg = String::from_str("Type ");
                            let d = debug_string(ty);
                            msg.append(d.as_str());
                            msg.append(" must be String or Number");
                            proof {
                                reveal_strlit("Type ");
                                reveal_strlit(" must be String or Number");
                                assert(cv[i as int] == constraints@[i as int]@);
                                assert(cv[i as int] matches ConstraintView::StringOrNumber);
                                assert(!satisfies(cv, ty@));
                                assert(msg@ =~= constraint_error(ty@));
                            }
                            return Err(msg);
                        }
                    },
                    Constraint::ConformsToProtocol(_) => {},
                }
                i = i + 1;
            }
        } else {
            assert(self.constraints_on(id) == Seq::<ConstraintView>::empty());
        }
        Ok(())
    }

    /// Binds variable `id` to `ty`, after the occurs check and the constraints on `id`.
    /// The binding stores `ty` as the substitution resolves it, so that chains stay short;
    /// a binding that would close a cycle (`ty` resolves to `id` itself) fails the occurs
    /// check. Binding a variable that is already bound replaces its binding.
    pub fn bind(&mut self, id: usize, ty: HulkType) -> (res: Result<(), String>)
        requires
            old(self).wf(),
        ensures
            final(self).wf(),
            final(self).counter() == old(self).counter(),
            final(self).constraint_map() == old(self).constraint_map(),
            ty@ == TypeView::Var(id) ==> (res matches Err(msg) && msg@ == "Occurs check failed"@),
            ty@ != TypeView::Var(id) && !satisfies(old(self).constraints_on(id), ty@) ==> (res matches Err(
                msg,
            ) && msg@ == constraint_error(ty@)),
            ty@ != TypeView::Var(id) && satisfies(old(self).constraints_on(id), ty@) && old(self).resolved(ty@)
                == TypeView::Var(id) ==> (res matches Err(msg) && msg@ == "Occurs check failed"@),
            res is Ok <==> ty@ != TypeView::Var(id) && satisfies(old(self).constraints_on(id), ty@)
                && old(self).resolved(ty@) != TypeView::Var(id),
            res is Ok ==> final(self).subst() == old(self).subst().insert(id, old(self).resolved(ty@)),
            res is Err ==> final(self).subst() == old(self).subst(),
            res is Ok && !old(self).subst().contains_key(id) ==> forall|x: TypeView| #[trigger]
                final(self).resolved(x) == if old(self).resolved(x) == TypeView::Var(id) {
                    old(self).resolved(ty@)
                } else {
                    old(self).resolved(x)
                },
            res is Err ==> forall|x: TypeView| #[trigger]
                final(self).resolved(x) == old(self).resolved(x),
    {
        proof {
            reveal_strlit("Occurs check failed");
        }
        if let HulkType::Var(id2) = &ty {
            if *id2 == id {
                return Err(String::from_str("Occurs check failed"));
            }
        }
        self.check_constraints(id, &ty)?;
        let target = self.apply(&ty);
        if let HulkType::Var(k) = &target {
            if *k == id {
                return Err(String::from_str("Occurs check failed"));
            }
        }
        let ghost old_subst = self.subst();
        let ghost tv = target@;
        if self.subs.contains_key(&id) {
            proof {
                let s2 = old_subst.insert(id, tv);
                assert(old_subst.contains_key(id));
                assert forall|a: usize| #[trigger] s2.contains_key(a) implies self.stamp@.contains_key(a)
                    && self.stamp@[a] < self.clock@ by {
                    assert(old_subst.contains_key(a));
                }
                assert forall|a: usize, b: usize|
                    #![trigger s2.contains_key(a), s2.contains_key(b)]
                    s2.contains_key(a) && s2[a] == TypeView::Var(b) && s2.contains_key(b) implies self.stamp@[a]
                    < self.stamp@[b] by {
                    if a != id {
                        assert(old_subst.contains_key(a) && old_subst.contains_key(b));
                    }
                }
                assert(acyclic(s2, self.stamp@, self.clock@));
            }
            self.subs.insert(id, target);
            proof {
                assert(self.subst() =~= old_subst.insert(id, tv));
            }
        } else {
            proof {
                assert forall|x: TypeView| true implies #[trigger] chase(
                    old_subst.insert(id, tv),
                    self.stamp@.insert(id, self.clock@),
                    self.clock@ + 1,
                    x,
                ) == (if chase(old_subst, self.stamp@, self.clock@, x) == TypeView::Var(id) {
                    tv
                } else {
                    chase(old_subst, self.stamp@, self.clock@, x)
                }) by {
                    Self::lemma_chase_insert(old_subst, self.stamp@, self.clock@, id, tv, x);
                }
                Self::lemma_chase_insert(old_subst, self.stamp@, self.clock@, id, tv, tv);
            }
            self.subs.insert(id, target);
            self.stamp = Ghost(self.stamp@.insert(id, self.clock@));
            self.clock = Ghost(self.clock@ + 1);
            proof {
                assert(self.subst() =~= old_subst.insert(id, tv));
            }
        }
        Ok(())
    }

    /// Unifies two types, binding variables as needed.
    pub fn unify(&mut self, a: &HulkType, b: &HulkType) -> (res: Result<(), String>)
        requires
            old(self).wf(),
        ensures
            final(self).wf(),
            final(self).counter() == old(self).counter(),
            final(self).constraint_map() == old(self).constraint_map(),
            res is Ok ==> final(self).resolved(a@) == final(self).resolved(b@),
            ({
                let ra = old(self).resolved(a@);
                let rb = old(self).resolved(b@);
                &&& res is Ok <==> unifiable(old(self).constraint_map(), ra, rb)
                &&& res matches Err(msg) ==> msg@ == unify_failure(ra, rb)
                &&& res is Err ==> final(self).subst() == old(self).subst()
                &&& (!(ra matches TypeView::Var(_)) && !(rb matches TypeView::Var(_)) && !same_base(
                    ra,
                    rb,
                )) ==> (res matches Err(msg) && msg@ == unify_error(ra, rb))
                &&& res is Ok ==> final(self).subst() == unify_binding(old(self).subst(), ra, rb)
            }),
            rigid(old(self).resolved(a@)) && rigid(old(self).resolved(b@)) ==> (res is Ok <==> old(self).resolved(a@)
                == old(self).resolved(b@)) && final(self).subst() == old(self).subst(),
            old(self).resolved(a@) matches TypeView::Var(id) && !old(self).constraint_map().contains_key(id) && rigid(
                old(self).resolved(b@),
            ) ==> res is Ok && final(self).resolved(a@) == old(self).resolved(b@),
            old(self).resolved(a@) matches TypeView::Var(id) && old(self).constraint_map().contains_key(id)
                && old(self).constraint_map()[id].contains(ConstraintView::StringOrNumber) && rigid(old(self).resolved(b@))
                && !(old(self).resolved(b@) is String || old(self).resolved(b@) is Number) ==> res is Err,
            res is Err ==> forall|x: TypeView| #[trigger]
                final(self).resolved(x) == old(self).resolved(x),
            res is Ok ==> forall|x: TypeView| #[trigger]
                final(self).resolved(x) == unify_update(
                    old(self).resolved(x),
                    old(self).resolved(a@),
                    old(self).resolved(b@),
                ),
    {
        let a = self.apply(a);
        let b = self.apply(b);
        proof {
            Self::lemma_chase_end(self.subst(), self.stamp@, self.clock@, a@);
            Self::lemma_chase_end(self.subst(), self.stamp@, self.clock@, b@);
        }
        let ghost before = *self;
        proof {
            if rigid(a@) && rigid(b@) {
                lemma_rigid_unification(self.constraint_map(), self.subst(), a@, b@);
            }
            if let TypeView::Var(id) = a@ {
                if self.constraint_map().contains_key(id) && self.constraint_map()[id].contains(
                    ConstraintView::StringOrNumber,
                ) {
                    let k = choose|k: int| 0 <= k < self.constraint_map()[id].len()
                        && self.constraint_map()[id][k] == ConstraintView::StringOrNumber;
                    assert(self.constraint_map()[id][k] matches ConstraintView::StringOrNumber);
                }
            }
        }
        if let HulkType::Var(id1) = &a {
            if let HulkType::Var(id2) = &b {
                if *id1 == *id2 {
                    return Ok(());
                }
            }
            let r = self.bind(*id1, b.clone());
            proof {
                if r is Ok {
                    assert(before.resolved(a@) == a@);
                }
            }
            return r;
        }
        if let HulkType::Var(id2) = &b {
            let r = self.bind(*id2, a.clone());
            proof {
                if r is Ok {
                    assert(before.resolved(b@) == b@);
                    Self::lemma_chase_end(before.subst(), before.stamp@, before.clock@, a@);
                }
            }
            return r;
        }
        let same = match (&a, &b) {
            (HulkType::Number, HulkType::Number) => true,
            (HulkType::String, HulkType::String) => true,
            (HulkType::Boolean, HulkType::Boolean) => true,
            (HulkType::Class(c1), HulkType::Class(c2)) => c1.eq(c2),
            (HulkType::Protocol(p1), HulkType::Protocol(p2)) => p1.eq(p2),
            (HulkType::Object, HulkType::Object) => true,
            _ => false,
        };
        assert(same == same_base(a@, b@));
        if same {
            assert(a@ == b@);
            Ok(())
        } else {
            let mut msg = String::from_str("Cannot unify ");
            let da = debug_string(&a);
            msg.append(da.as_str());
            msg.append(" and ");
            let db = debug_string(&b);
            msg.append(db.as_str());
            proof {
                reveal_strlit("Cannot unify ");
                reveal_strlit(" and ");
                assert(msg@ =~= unify_error(a@, b@));
            }
            Err(msg)
        }
    }

    /// The current substitution applied to a type (a bound variable is followed to the end
    /// of its chain).
    pub fn resolve(&self, ty: &HulkType) -> (res: HulkType)
        requires
            self.wf(),
        ensures
            res@ == self.resolved(ty@),
            !self.is_bound_var(res@),
    {
        self.apply(ty)
    }

    /// The constraints recorded for `id`, if any.
    pub fn get_constraints(&self, id: usize) -> (res: Option<&Vec<Constraint>>)
        ensures
            res is Some <==> self.constraint_map().contains_key(id),
            res matches Some(v) ==> constraint_views(v@) == self.constraint_map()[id],
    {
        self.constraints.get(&id)
    }
}

/// A successful unification binds a variable only to a type that meets the variable's
/// constraints: a variable constrained by a concatenation gets bound to `String` or
/// `Number` only.
pub proof fn lemma_new_binding_meets_constraints(
    cm: Map<usize, Seq<ConstraintView>>,
    s: Map<usize, TypeView>,
    ra: TypeView,
    rb: TypeView,
    id: usize,
)
    requires
        unifiable(cm, ra, rb),
        unify_binding(s, ra, rb).contains_key(id),
        !s.contains_key(id),
    ensures
        satisfies(if cm.contains_key(id) { cm[id] } else { Seq::empty() }, unify_binding(s, ra, rb)[id]),
{
}

/// A concrete type that unification compares by kind and name: `Number`, `String`,
/// `Boolean`, `Object`, a class or a protocol.
pub open spec fn rigid(t: TypeView) -> bool {
    t is Number || t is String || t is Boolean || t is Object || t is Class || t is Protocol
}

/// Two concrete types unify exactly when they are the same type, and then nothing is
/// bound: unification of concrete types is reflexive and never confuses two of them.
pub proof fn lemma_rigid_unification(
    cm: Map<usize, Seq<ConstraintView>>,
    s: Map<usize, TypeView>,
    ra: TypeView,
    rb: TypeView,
)
    requires
        rigid(ra),
        rigid(rb),
    ensures
        unifiable(cm, ra, rb) <==> ra == rb,
        unify_binding(s, ra, rb) == s,
{
}

/// Whether two resolved types unify under the given constraints.
pub open spec fn unifiable(cm: Map<usize, Seq<ConstraintView>>, ra: TypeView, rb: TypeView) -> bool {
    let cs = |id: usize| if cm.contains_key(id) { cm[id] } else { Seq::empty() };
    match (ra, rb) {
        (TypeView::Var(i), TypeView::Var(j)) => i == j || satisfies(cs(i), rb),
        (TypeView::Var(i), _) => satisfies(cs(i), rb),
        (_, TypeView::Var(j)) => satisfies(cs(j), ra),
        _ => same_base(ra, rb),
    }
}

/// The substitution after a successful unification of two resolved types.
pub open spec fn unify_binding(s: Map<usize, TypeView>, ra: TypeView, rb: TypeView) -> Map<
    usize,
    TypeView,
> {
    match (ra, rb) {
        (TypeView::Var(i), TypeView::Var(j)) => if i == j {
            s
        } else {
            s.insert(i, rb)
        },
        (TypeView::Var(i), _) => s.insert(i, rb),
        (_, TypeView::Var(j)) => s.insert(j, ra),
        _ => s,
    }
}

/// How the resolution `r` of any type changes when resolved types `ra` and `rb` are
/// unified: a variable that gets bound is replaced by the other side.
pub open spec fn unify_update(r: TypeView, ra: TypeView, rb: TypeView) -> TypeView {
    match (ra, rb) {
        (TypeView::Var(i), _) => if r == ra {
            rb
        } else {
            r
        },
        (_, TypeView::Var(j)) => if r == rb {
            ra
        } else {
            r
        },
        _ => r,
    }
}

impl Default for Unifier {
    fn default() -> (res: Unifier)
        ensures
            res.wf(),
            res.subst() == Map::<usize, TypeView>::empty(),
            res.counter() == 0,
            res.constraint_map() == Map::<usize, Seq<ConstraintView>>::empty(),
    {
        let u = Unifier {
            subs: HashMap::new(),
            next_var: 0,
            constraints: HashMap::new(),
            stamp: Ghost(Map::empty()),
            clock: Ghost(0),
        };
        assert(u.subst() =~= Map::<usize, TypeView>::empty());
        assert(u.constraint_map() =~= Map::<usize, Seq<ConstraintView>>::empty());
        u
    }
}

} // verus!
