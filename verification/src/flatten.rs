use vstd::prelude::*;
use crate::types::HulkType;
use crate::types::TypeView;
use crate::span::Span;
use crate::error::CompilerError;
use crate::ast::{
    types_mapped, Expr, same_expr, clone_expr, same_exprs, clone_exprs, Attribute, Method, TypeDef, attr_copy, method_copy,
};
use crate::assoc::{lookup, assoc_get, assoc_insert, keys_unique, key_index, lemma_key_index};
use crate::type_checker::{TypeChecker, TypeInfo, FlattenedType, FlattenedMethod, class_parent, opt_name};
use crate::inference::Unifier;
use crate::resolve::{normalized, normalized_slot, resolve_rel, resolve_expr, resolve_and_normalize};
use crate::inferred::{error_list, as_some};

verus! {

/// `b` is `a` with every variable that `s` names replaced by a copy of its expression.
pub open spec fn substituted(s: Seq<(String, Box<Expr>)>, a: Expr, b: Expr) -> bool
    decreases a,
{
    match a {
        Expr::Variable(v) => match lookup(s, v.name@) {
            Some(r) => same_expr(*r, b),
            None => b == a,
        },
        Expr::BinaryOp(x) => b matches Expr::BinaryOp(y) && x.op == y.op && x.span == y.span && x.ty == y.ty
            && substituted(s, *x.left, *y.left) && substituted(s, *x.right, *y.right),
        Expr::Call(x) => b matches Expr::Call(y) && x.func == y.func && x.span == y.span && x.ty == y.ty
            && x.args@.len() == y.args@.len() && forall|i: int|
            0 <= i < x.args@.len() ==> substituted(s, *x.args@[i], *y.args@[i]),
        Expr::UnaryOp(x) => b matches Expr::UnaryOp(y) && x.op == y.op && x.span == y.span && x.ty == y.ty
            && substituted(s, *x.expr, *y.expr),
        Expr::Let(x) => b matches Expr::Let(y) && x.span == y.span && x.ty == y.ty && x.bindings@.len()
            == y.bindings@.len() && (forall|i: int|
            0 <= i < x.bindings@.len() ==> x.bindings@[i].0 == y.bindings@[i].0 && x.bindings@[i].1
                == y.bindings@[i].1 && substituted(s, *x.bindings@[i].2, *y.bindings@[i].2)) && substituted(
            s,
            *x.body,
            *y.body,
        ),
        Expr::DestructiveAssign(x) => b matches Expr::DestructiveAssign(y) && x.span == y.span && x.ty == y.ty
            && substituted(s, *x.lhs, *y.lhs) && substituted(s, *x.value, *y.value),
        Expr::Block(x) => b matches Expr::Block(y) && x.span == y.span && x.ty == y.ty && x.expressions@.len()
            == y.expressions@.len() && forall|i: int|
            0 <= i < x.expressions@.len() ==> substituted(s, *x.expressions@[i], *y.expressions@[i]),
        Expr::If(x) => b matches Expr::If(y) && x.span == y.span && x.ty == y.ty && substituted(
            s,
            *x.condition,
            *y.condition,
        ) && substituted(s, *x.then_branch, *y.then_branch) && substituted(s, *x.else_branch, *y.else_branch),
        Expr::While(x) => b matches Expr::While(y) && x.span == y.span && x.ty == y.ty && substituted(
            s,
            *x.condition,
            *y.condition,
        ) && substituted(s, *x.body, *y.body),
        Expr::New(x) => b matches Expr::New(y) && x.class_name == y.class_name && x.span == y.span && x.ty
            == y.ty && x.args@.len() == y.args@.len() && forall|i: int|
            0 <= i < x.args@.len() ==> substituted(s, *x.args@[i], *y.args@[i]),
        Expr::MethodCall(x) => b matches Expr::MethodCall(y) && x.method == y.method && x.span == y.span
            && x.ty == y.ty && substituted(s, *x.object, *y.object) && x.args@.len() == y.args@.len() && forall|
            i: int,
        |
            0 <= i < x.args@.len() ==> substituted(s, *x.args@[i], *y.args@[i]),
        Expr::AttributeAccess(x) => b matches Expr::AttributeAccess(y) && x.attribute == y.attribute && x.span
            == y.span && x.ty == y.ty && substituted(s, *x.object, *y.object),
        _ => b == a,
    }
}

fn subst_list(s: &Vec<(String, Box<Expr>)>, v: &mut Vec<Box<Expr>>)
    ensures
        final(v)@.len() == old(v)@.len(),
        forall|i: int| 0 <= i < old(v)@.len() ==> substituted(s@, *old(v)@[i], #[trigger] *final(v)@[i]),
    decreases old(v)@, 0int,
{
    let ghost start = v@;
    let mut i: usize = 0;
    while i < v.len()
        invariant
            i <= v@.len(),
            v@.len() == start.len(),
            start == old(v)@,
            forall|j: int| 0 <= j < i ==> substituted(s@, *start[j], #[trigger] *v@[j]),
            forall|j: int| i <= j < v@.len() ==> #[trigger] v@[j] == start[j],
        decreases v@.len() - i,
    {
        assert(v@[i as int] == start[i as int]);
        substitute_expr(s, &mut v[i]);
        i = i + 1;
    }
}

fn subst_bindings(s: &Vec<(String, Box<Expr>)>, v: &mut Vec<(String, Option<HulkType>, Box<Expr>)>)
    ensures
        final(v)@.len() == old(v)@.len(),
        forall|i: int|
            #![trigger final(v)@[i]]
            0 <= i < old(v)@.len() ==> final(v)@[i].0 == old(v)@[i].0 && final(v)@[i].1 == old(v)@[i].1
                && substituted(s@, *old(v)@[i].2, *final(v)@[i].2),
    decreases old(v)@, 0int,
{
    let ghost start = v@;
    let mut i: usize = 0;
    while i < v.len()
        invariant
            i <= v@.len(),
            v@.len() == start.len(),
            start == old(v)@,
            forall|j: int|
                #![trigger v@[j]]
                0 <= j < i ==> v@[j].0 == start[j].0 && v@[j].1 == start[j].1 && substituted(
                    s@,
                    *start[j].2,
                    *v@[j].2,
                ),
            forall|j: int| i <= j < v@.len() ==> #[trigger] v@[j] == start[j],
        decreases v@.len() - i,
    {
        assert(v@[i as int] == start[i as int]);
        substitute_expr(s, &mut v[i].2);
        i = i + 1;
    }
}

/// Replaces each variable that `s` names by a copy of its expression, everywhere in `expr`.
pub fn substitute_expr(s: &Vec<(String, Box<Expr>)>, expr: &mut Expr)
    ensures
        substituted(s@, *old(expr), *final(expr)),
    decreases *old(expr), 1int,
{
    let replacement = match &*expr {
        Expr::Variable(v) => assoc_get(s, v.name.as_str()),
        _ => None,
    };
    if let Some(r) = replacement {
        *expr = clone_expr(r);
        return;
    }
    match expr {
        Expr::BinaryOp(b) => {
            substitute_expr(s, &mut b.left);
            substitute_expr(s, &mut b.right);
        },
        Expr::Call(c) => {
            subst_list(s, &mut c.args);
        },
        Expr::UnaryOp(x) => {
            substitute_expr(s, &mut x.expr);
        },
        Expr::Let(l) => {
            subst_bindings(s, &mut l.bindings);
            substitute_expr(s, &mut l.body);
        },
        Expr::DestructiveAssign(a) => {
            substitute_expr(s, &mut a.lhs);
            substitute_expr(s, &mut a.value);
        },
        Expr::Block(b) => {
            subst_list(s, &mut b.expressions);
        },
        Expr::If(x) => {
            substitute_expr(s, &mut x.condition);
            substitute_expr(s, &mut x.then_branch);
            substitute_expr(s, &mut x.else_branch);
        },
        Expr::While(w) => {
            substitute_expr(s, &mut w.condition);
            substitute_expr(s, &mut w.body);
        },
        Expr::New(n) => {
            subst_list(s, &mut n.args);
        },
        Expr::MethodCall(m) => {
            substitute_expr(s, &mut m.object);
            subst_list(s, &mut m.args);
        },
        Expr::AttributeAccess(a) => {
            substitute_expr(s, &mut a.object);
        },
        _ => {},
    }
}

/// What a dispatch-table entry says: method name, number of parameters, defining type and
/// slot.
pub open spec fn msig(fm: FlattenedMethod) -> (Seq<char>, nat, Seq<char>, usize) {
    (fm.method.name@, fm.method.params@.len(), fm.defining_type@, fm.vtable_index)
}

/// The entries of a dispatch table.
pub open spec fn sigs(v: Seq<FlattenedMethod>) -> Seq<(Seq<char>, nat, Seq<char>, usize)> {
    v.map_values(|fm: FlattenedMethod| msig(fm))
}

/// The first entry with that name and number of parameters, or -1.
pub open spec fn slot_of(list: Seq<(Seq<char>, nat, Seq<char>, usize)>, name: Seq<char>, arity: nat) -> int
    decreases list.len(),
{
    if list.len() == 0 {
        -1
    } else {
        let j = slot_of(list.drop_last(), name, arity);
        if j >= 0 {
            j
        } else if list.last().0 == name && list.last().1 == arity {
            list.len() - 1
        } else {
            -1
        }
    }
}

/// A method of type `tname` placed in a dispatch table: it overrides the first entry with
/// its name and number of parameters, keeping that entry's slot, or takes a new slot at
/// the end (a table that already has `usize::MAX` entries, which memory cannot hold, is
/// left as it is).
pub open spec fn place(
    list: Seq<(Seq<char>, nat, Seq<char>, usize)>,
    name: Seq<char>,
    arity: nat,
    tname: Seq<char>,
) -> Seq<(Seq<char>, nat, Seq<char>, usize)> {
    let i = slot_of(list, name, arity);
    if i >= 0 {
        list.update(i, (name, arity, tname, list[i].3))
    } else if list.len() < usize::MAX {
        list.push((name, arity, tname, list.len() as usize))
    } else {
        list
    }
}

/// The dispatch table after placing the first `n` methods of `ms` over `base`.
pub open spec fn vtable_after(
    base: Seq<(Seq<char>, nat, Seq<char>, usize)>,
    ms: Seq<Method>,
    tname: Seq<char>,
    n: int,
) -> Seq<(Seq<char>, nat, Seq<char>, usize)>
    decreases n,
{
    if n <= 0 {
        base
    } else {
        place(vtable_after(base, ms, tname, n - 1), ms[n - 1].name@, ms[n - 1].params@.len(), tname)
    }
}

/// Every entry sits in the slot it records.
pub open spec fn slots_numbered(list: Seq<(Seq<char>, nat, Seq<char>, usize)>) -> bool {
    forall|i: int| 0 <= i < list.len() ==> #[trigger] list[i].3 == i
}

/// The names of a list of attributes.
pub open spec fn attr_names(v: Seq<Attribute>) -> Seq<Seq<char>> {
    v.map_values(|a: Attribute| a.name@)
}

/// No two attributes share a name.
pub open spec fn distinct_names(v: Seq<Attribute>) -> bool {
    forall|i: int, j: int| 0 <= i < j < v.len() ==> v[i].name@ != v[j].name@
}

/// Every registered class has no parent (in its table entry and its definition) and a
/// definition whose attributes have distinct names: flattening such classes finds no
/// attribute defined twice.
pub open spec fn parentless_distinct(types: Seq<(String, TypeInfo)>, defs: Seq<(String, TypeDef)>) -> bool {
    forall|q: Seq<char>|
        #[trigger] lookup(types, q) is Some ==> lookup(types, q)->Some_0.parent is None && lookup(defs, q) is Some
            && lookup(defs, q)->Some_0.parent is None && distinct_names(lookup(defs, q)->Some_0.attributes@)
}

proof fn lemma_accept_distinct(own: Seq<Attribute>, n: int)
    requires
        distinct_names(own),
        0 <= n <= own.len(),
    ensures
        accept_attrs(Seq::empty(), own, n) == attr_names(own).subrange(0, n),
    decreases n,
{
    if n > 0 {
        lemma_accept_distinct(own, n - 1);
        let prev = attr_names(own).subrange(0, n - 1);
        if prev.contains(own[n - 1].name@) {
            let j = choose|j: int| 0 <= j < prev.len() && prev[j] == own[n - 1].name@;
            assert(own[j].name@ == own[n - 1].name@);
        }
        assert(attr_names(own).subrange(0, n) =~= prev.push(own[n - 1].name@));
    }
}

/// The attribute names after adding the first `n` own attributes to `names`: a name
/// already present is not added again.
pub open spec fn accept_attrs(names: Seq<Seq<char>>, own: Seq<Attribute>, n: int) -> Seq<Seq<char>>
    decreases n,
{
    if n <= 0 {
        names
    } else {
        let prev = accept_attrs(names, own, n - 1);
        if prev.contains(own[n - 1].name@) {
            prev
        } else {
            prev.push(own[n - 1].name@)
        }
    }
}

/// A flattened class lays out the inherited attributes first, in their order, followed by
/// its own: the parent's attribute names are a prefix of the result, every own
/// attribute's name occurs in it, and no name after the inherited ones is inherited.
pub proof fn lemma_inherited_attributes_first(names: Seq<Seq<char>>, own: Seq<Attribute>, n: int)
    requires
        0 <= n <= own.len(),
    ensures
        names.is_prefix_of(accept_attrs(names, own, n)),
        forall|j: int| 0 <= j < n ==> accept_attrs(names, own, n).contains(#[trigger] own[j].name@),
        forall|k: int|
            names.len() <= k < accept_attrs(names, own, n).len() ==> !names.contains(
                #[trigger] accept_attrs(names, own, n)[k],
            ),
    decreases n,
{
    if n > 0 {
        lemma_inherited_attributes_first(names, own, n - 1);
        let prev = accept_attrs(names, own, n - 1);
        if !prev.contains(own[n - 1].name@) {
            let next = prev.push(own[n - 1].name@);
            assert(next[next.len() - 1] == own[n - 1].name@);
            assert forall|j: int| 0 <= j < n implies next.contains(#[trigger] own[j].name@) by {
                if j < n - 1 {
                    let k = choose|k: int| 0 <= k < prev.len() && prev[k] == own[j].name@;
                    assert(next[k] == prev[k]);
                }
            }
            assert forall|k: int| names.len() <= k < next.len() implies !names.contains(#[trigger] next[k]) by {
                if k < prev.len() {
                    assert(next[k] == prev[k]);
                } else {
                    if names.contains(next[k]) {
                        let q = choose|q: int| 0 <= q < names.len() && names[q] == next[k];
                        assert(prev[q] == names[q]);
                    }
                }
            }
        }
    }
}

/// The errors for the first `n` own attributes whose name is already present.
pub open spec fn dup_errors(names: Seq<Seq<char>>, own: Seq<Attribute>, n: int) -> Seq<(Seq<char>, Span)>
    decreases n,
{
    if n <= 0 {
        Seq::empty()
    } else {
        let prev = accept_attrs(names, own, n - 1);
        dup_errors(names, own, n - 1) + if prev.contains(own[n - 1].name@) {
            seq![("Attribute '"@ + own[n - 1].name@ + "' already defined in parent"@, own[n - 1].span)]
        } else {
            Seq::empty()
        }
    }
}

/// The parameters of a flattened type, as names and types.
pub open spec fn params_view(v: Seq<(String, HulkType)>) -> Seq<(Seq<char>, TypeView)> {
    v.map_values(|p: (String, HulkType)| (p.0@, p.1@))
}

/// A type definition's own parameters, each with its resolved (normalized) type; a name
/// without a type, or a type without a name, is left out.
pub open spec fn own_params(u: Unifier, td: TypeDef) -> Seq<(Seq<char>, TypeView)> {
    let n = if td.params@.len() <= td.param_types@.len() {
        td.params@.len()
    } else {
        td.param_types@.len()
    };
    Seq::new(n, |i: int| (td.params@[i]@, normalized(u.resolved(td.param_types@[i]@))))
}

/// The type passes arguments to its parent's constructor.
pub open spec fn has_specialization(td: TypeDef) -> bool {
    td.parent matches Some(p) && p.args@.len() > 0
}

/// The effective parameters of a flattened type.
pub open spec fn effective_params(
    u: Unifier,
    parent: Seq<(Seq<char>, TypeView)>,
    td: TypeDef,
) -> Seq<(Seq<char>, TypeView)> {
    if td.params@.len() == 0 {
        parent
    } else if has_specialization(td) {
        own_params(u, td)
    } else {
        parent + own_params(u, td)
    }
}

/// `b` is a copy of the flattened type `a`.
pub open spec fn flat_copy(a: FlattenedType, b: FlattenedType) -> bool {
    &&& a.type_id == b.type_id
    &&& a.parent_name == b.parent_name
    &&& a.params@ == b.params@
    &&& a.attributes@.len() == b.attributes@.len()
    &&& forall|i: int| 0 <= i < a.attributes@.len() ==> attr_copy(a.attributes@[i], #[trigger] b.attributes@[i])
    &&& a.methods@.len() == b.methods@.len()
    &&& forall|i: int|
        0 <= i < a.methods@.len() ==> method_copy(a.methods@[i].method, (#[trigger] b.methods@[i]).method)
            && a.methods@[i].vtable_index == b.methods@[i].vtable_index && a.methods@[i].defining_type
            == b.methods@[i].defining_type
    &&& match (a.parent_init_args, b.parent_init_args) {
        (None, None) => true,
        (Some(x), Some(y)) => same_exprs(x@, y@),
        _ => false,
    }
}

/// The recorded flattening `f` of class `q` is a copy of the flattening of the class's
/// definition over a copy of its parent's recorded flattening (over nothing for a class
/// without parent).
pub open spec fn flat_entry_ok(
    u: Unifier,
    types: Seq<(String, TypeInfo)>,
    defs: Seq<(String, TypeDef)>,
    flat: Seq<(String, FlattenedType)>,
    q: Seq<char>,
    f: FlattenedType,
) -> bool {
    let td = lookup(defs, q).unwrap();
    let parent = lookup(types, q).unwrap().parent;
    exists|pf: FlattenedType, g: FlattenedType|
        #![trigger flattened_from(u, pf, td, parent, g.type_id, g), flat_copy(g, f)]
        flattened_from(u, pf, td, parent, g.type_id, g) && flat_copy(g, f) && match parent {
            Some(p) => lookup(flat, p@) matches Some(e) && flat_copy(pf, e),
            None => empty_flat(pf),
        }
}

/// Every class that `new_flat` records and `old_flat` did not is recorded with its
/// flattening.
pub open spec fn added_ok(
    u: Unifier,
    types: Seq<(String, TypeInfo)>,
    defs: Seq<(String, TypeDef)>,
    old_flat: Seq<(String, FlattenedType)>,
    new_flat: Seq<(String, FlattenedType)>,
) -> bool {
    forall|q: Seq<char>|
        lookup(old_flat, q) is None && #[trigger] lookup(new_flat, q) is Some ==> flat_entry_ok(
            u,
            types,
            defs,
            new_flat,
            q,
            lookup(new_flat, q).unwrap(),
        )
}

proof fn lemma_entry_ok_stable(
    u: Unifier,
    types: Seq<(String, TypeInfo)>,
    defs: Seq<(String, TypeDef)>,
    flat1: Seq<(String, FlattenedType)>,
    flat2: Seq<(String, FlattenedType)>,
    q: Seq<char>,
    f: FlattenedType,
)
    requires
        flat_entry_ok(u, types, defs, flat1, q, f),
        forall|k: Seq<char>| lookup(flat1, k) is Some ==> #[trigger] lookup(flat2, k) == lookup(flat1, k),
    ensures
        flat_entry_ok(u, types, defs, flat2, q, f),
{
    let td = lookup(defs, q).unwrap();
    let parent = lookup(types, q).unwrap().parent;
    let (pf, g) = choose|pf: FlattenedType, g: FlattenedType|
        #![trigger flattened_from(u, pf, td, parent, g.type_id, g), flat_copy(g, f)]
        flattened_from(u, pf, td, parent, g.type_id, g) && flat_copy(g, f) && match parent {
            Some(p) => lookup(flat1, p@) matches Some(e) && flat_copy(pf, e),
            None => empty_flat(pf),
        };
    match parent {
        Some(p) => {
            assert(lookup(flat2, p@) == lookup(flat1, p@));
        },
        None => {},
    }
    assert(flattened_from(u, pf, td, parent, g.type_id, g) && flat_copy(g, f));
}

proof fn lemma_added_trans(
    u: Unifier,
    types: Seq<(String, TypeInfo)>,
    defs: Seq<(String, TypeDef)>,
    a: Seq<(String, FlattenedType)>,
    b: Seq<(String, FlattenedType)>,
    c: Seq<(String, FlattenedType)>,
)
    requires
        added_ok(u, types, defs, a, b),
        added_ok(u, types, defs, b, c),
        forall|k: Seq<char>| lookup(a, k) is Some ==> #[trigger] lookup(b, k) == lookup(a, k),
        forall|k: Seq<char>| lookup(b, k) is Some ==> #[trigger] lookup(c, k) == lookup(b, k),
    ensures
        added_ok(u, types, defs, a, c),
{
    assert forall|q: Seq<char>| lookup(a, q) is None && #[trigger] lookup(c, q) is Some implies flat_entry_ok(
        u,
        types,
        defs,
        c,
        q,
        lookup(c, q).unwrap(),
    ) by {
        if lookup(b, q) is Some {
            assert(lookup(c, q) == lookup(b, q));
            lemma_entry_ok_stable(u, types, defs, b, c, q, lookup(b, q).unwrap());
        }
    }
}

/// A type is ready to be flattened: it is flattened already, or it is registered and
/// defined and its parent is ready, within `fuel` steps.
pub open spec fn ready(
    types: Seq<(String, TypeInfo)>,
    defs: Seq<(String, TypeDef)>,
    flat: Seq<(String, FlattenedType)>,
    name: Seq<char>,
    fuel: nat,
) -> bool
    decreases fuel,
{
    lookup(flat, name) is Some || (fuel > 0 && lookup(types, name) is Some && lookup(defs, name) is Some
        && match class_parent(types, name) {
        Some(p) => ready(types, defs, flat, p, (fuel - 1) as nat),
        None => true,
    })
}

/// How `flat` relates to the flattening of type definition `td`, whose class has parent
/// `parent_name`, over the flattened parent `pf`: its identifier, parent, parameters,
/// constructor arguments for the parent, attribute names (the parent's first) and dispatch
/// table.
pub open spec fn flattened_from(
    u: Unifier,
    pf: FlattenedType,
    td: TypeDef,
    parent_name: Option<String>,
    id: u32,
    flat: FlattenedType,
) -> bool {
    &&& flat.type_id == id
    &&& flat.parent_name == parent_name
    &&& params_view(flat.params@) == effective_params(u, params_view(pf.params@), td)
    &&& (flat.parent_init_args is Some <==> (td.params@.len() > 0 && has_specialization(td)))
    &&& (flat.parent_init_args matches Some(args) ==> td.parent matches Some(p) && same_exprs(p.args@, args@))
    &&& attr_names(flat.attributes@) == accept_attrs(attr_names(pf.attributes@), td.attributes@, td.attributes@.len() as int)
    &&& (flat.parent_init_args is None ==> forall|i: int|
        0 <= i < pf.attributes@.len() ==> attr_copy(pf.attributes@[i], #[trigger] flat.attributes@[i]))
    &&& sigs(flat.methods@) == vtable_after(sigs(pf.methods@), td.methods@, td.name@, td.methods@.len() as int)
}

proof fn lemma_slot_of(list: Seq<(Seq<char>, nat, Seq<char>, usize)>, name: Seq<char>, arity: nat)
    ensures
        -1 <= slot_of(list, name, arity) < list.len(),
        slot_of(list, name, arity) >= 0 ==> list[slot_of(list, name, arity)].0 == name && list[slot_of(
            list,
            name,
            arity,
        )].1 == arity,
        slot_of(list, name, arity) >= 0 ==> forall|j: int|
            0 <= j < slot_of(list, name, arity) ==> !(list[j].0 == name && list[j].1 == arity),
        slot_of(list, name, arity) < 0 ==> forall|j: int| 0 <= j < list.len() ==> !(list[j].0 == name && list[j].1 == arity),
    decreases list.len(),
{
    if list.len() > 0 {
        let d = list.drop_last();
        lemma_slot_of(d, name, arity);
        assert forall|j: int| 0 <= j < d.len() implies d[j] == list[j] by {}
    }
}

/// Placing a method keeps every entry in the slot it records, and keeps the name and
/// number of parameters of every entry that was there.
pub proof fn lemma_place_keeps_slots(
    list: Seq<(Seq<char>, nat, Seq<char>, usize)>,
    name: Seq<char>,
    arity: nat,
    tname: Seq<char>,
)
    requires
        slots_numbered(list),
        list.len() <= usize::MAX,
    ensures
        slots_numbered(place(list, name, arity, tname)),
        place(list, name, arity, tname).len() >= list.len(),
        forall|i: int|
            0 <= i < list.len() ==> (#[trigger] place(list, name, arity, tname)[i]).0 == list[i].0 && place(
                list,
                name,
                arity,
                tname,
            )[i].1 == list[i].1,
{
    lemma_slot_of(list, name, arity);
}

/// Building a dispatch table over a numbered base keeps every entry in the slot it records
/// and never moves or renames an inherited entry: an overriding method takes over the slot
/// of the method it overrides.
pub proof fn lemma_vtable_keeps_slots(
    base: Seq<(Seq<char>, nat, Seq<char>, usize)>,
    ms: Seq<Method>,
    tname: Seq<char>,
    n: int,
)
    requires
        slots_numbered(base),
        0 <= n <= ms.len(),
        base.len() <= usize::MAX,
    ensures
        slots_numbered(vtable_after(base, ms, tname, n)),
        base.len() <= vtable_after(base, ms, tname, n).len() <= base.len() + n,
        vtable_after(base, ms, tname, n).len() <= usize::MAX,
        forall|i: int|
            0 <= i < base.len() ==> (#[trigger] vtable_after(base, ms, tname, n)[i]).0 == base[i].0
                && vtable_after(base, ms, tname, n)[i].1 == base[i].1,
    decreases n,
{
    if n > 0 {
        lemma_vtable_keeps_slots(base, ms, tname, n - 1);
        let prev = vtable_after(base, ms, tname, n - 1);
        lemma_place_keeps_slots(prev, ms[n - 1].name@, ms[n - 1].params@.len(), tname);
        lemma_slot_of(prev, ms[n - 1].name@, ms[n - 1].params@.len());
        assert forall|i: int| 0 <= i < base.len() implies (#[trigger] vtable_after(base, ms, tname, n)[i]).0
            == base[i].0 && vtable_after(base, ms, tname, n)[i].1 == base[i].1 by {
            assert(prev[i].0 == base[i].0);
        }
    }
}

fn clone_flat_method(fm: &FlattenedMethod) -> (res: FlattenedMethod)
    ensures
        method_copy(fm.method, res.method),
        res.vtable_index == fm.vtable_index,
        res.defining_type == fm.defining_type,
{
    FlattenedMethod { method: fm.method.clone(), vtable_index: fm.vtable_index, defining_type: fm.defining_type.clone() }
}

fn clone_params(v: &Vec<(String, HulkType)>) -> (res: Vec<(String, HulkType)>)
    ensures
        res@ == v@,
{
    let mut out: Vec<(String, HulkType)> = Vec::new();
    let mut i: usize = 0;
    while i < v.len()
        invariant
            i <= v@.len(),
            out@ == v@.subrange(0, i as int),
        decreases v@.len() - i,
    {
        out.push((v[i].0.clone(), v[i].1.clone()));
        i = i + 1;
        assert(out@ =~= v@.subrange(0, i as int));
    }
    assert(v@.subrange(0, i as int) =~= v@);
    out
}

fn clone_attributes(v: &Vec<Attribute>) -> (res: Vec<Attribute>)
    ensures
        res@.len() == v@.len(),
        forall|i: int| 0 <= i < v@.len() ==> attr_copy(v@[i], #[trigger] res@[i]),
{
    let mut out: Vec<Attribute> = Vec::new();
    let mut i: usize = 0;
    while i < v.len()
        invariant
            i <= v@.len(),
            out@.len() == i,
            forall|j: int| 0 <= j < i ==> attr_copy(v@[j], #[trigger] out@[j]),
        decreases v@.len() - i,
    {
        out.push(v[i].clone());
        i = i + 1;
    }
    out
}

fn clone_flat_methods(v: &Vec<FlattenedMethod>) -> (res: Vec<FlattenedMethod>)
    ensures
        res@.len() == v@.len(),
        forall|i: int|
            0 <= i < v@.len() ==> method_copy(v@[i].method, (#[trigger] res@[i]).method) && v@[i].vtable_index
                == res@[i].vtable_index && v@[i].defining_type == res@[i].defining_type,
        sigs(res@) == sigs(v@),
{
    let mut out: Vec<FlattenedMethod> = Vec::new();
    let mut i: usize = 0;
    while i < v.len()
        invariant
            i <= v@.len(),
            out@.len() == i,
            forall|j: int|
                0 <= j < i ==> method_copy(v@[j].method, (#[trigger] out@[j]).method) && v@[j].vtable_index
                    == out@[j].vtable_index && v@[j].defining_type == out@[j].defining_type,
        decreases v@.len() - i,
    {
        out.push(clone_flat_method(&v[i]));
        i = i + 1;
    }
    assert(sigs(out@) =~= sigs(v@));
    out
}

/// A copy of a flattened type.
fn clone_flattened(f: &FlattenedType) -> (res: FlattenedType)
    ensures
        flat_copy(*f, res),
{
    FlattenedType {
        type_id: f.type_id,
        attributes: clone_attributes(&f.attributes),
        methods: clone_flat_methods(&f.methods),
        parent_name: match &f.parent_name {
            Some(n) => Some(n.clone()),
            None => None,
        },
        params: clone_params(&f.params),
        parent_init_args: match &f.parent_init_args {
            Some(a) => Some(clone_exprs(a)),
            None => None,
        },
    }
}

/// Places a method of type `tname` in a dispatch table.
fn place_method(methods: &mut Vec<FlattenedMethod>, method: &Method, tname: &String)
    ensures
        sigs(final(methods)@) == place(sigs(old(methods)@), method.name@, method.params@.len(), tname@),
{
    let ghost list = sigs(methods@);
    proof {
        lemma_slot_of(list, method.name@, method.params@.len());
    }
    let mut i: usize = 0;
    while i < methods.len()
        invariant
            i <= methods@.len(),
            list == sigs(methods@),
            list == sigs(old(methods)@),
            forall|j: int| 0 <= j < i ==> !(list[j].0 == method.name@ && list[j].1 == method.params@.len()),
        decreases methods@.len() - i,
    {
        if crate::text::str_eq(methods[i].method.name.as_str(), method.name.as_str())
            && methods[i].method.params.len() == method.params.len() {
            let old_index = methods[i].vtable_index;
            proof {
                lemma_slot_of(list, method.name@, method.params@.len());
                assert(list[i as int].0 == method.name@);
                let k = slot_of(list, method.name@, method.params@.len());
                if k < 0 || k > i {
                    assert(!(list[i as int].0 == method.name@ && list[i as int].1 == method.params@.len()));
                }
            }
            methods.set(i, FlattenedMethod { method: method.clone(), vtable_index: old_index, defining_type: tname.clone() });
            proof {
                assert(sigs(methods@) =~= place(list, method.name@, method.params@.len(), tname@));
            }
            return;
        }
        i = i + 1;
    }
    let n = methods.len();
    if n < usize::MAX {
        methods.push(FlattenedMethod { method: method.clone(), vtable_index: n, defining_type: tname.clone() });
        proof {
            assert(sigs(methods@) =~= place(list, method.name@, method.params@.len(), tname@));
        }
    }
}

/// A flattened type with nothing in it.
pub open spec fn empty_flat(f: FlattenedType) -> bool {
    &&& f.type_id == 0
    &&& f.attributes@.len() == 0
    &&& f.methods@.len() == 0
    &&& f.parent_name is None
    &&& f.params@.len() == 0
    &&& f.parent_init_args is None
}

impl Default for FlattenedType {
    fn default() -> (res: Self)
        ensures
            empty_flat(res),
    {
        FlattenedType {
            type_id: 0,
            attributes: Vec::new(),
            methods: Vec::new(),
            parent_name: None,
            params: Vec::new(),
            parent_init_args: None,
        }
    }
}

/// A type resolved for a flattened type, with `Object` recorded as the class `Object`.
fn resolve_type_for_flatten(u: &Unifier, ty: &HulkType) -> (res: HulkType)
    requires
        u.wf(),
    ensures
        res@ == normalized(u.resolved(ty@)),
{
    let resolved = u.resolve(ty);
    if let HulkType::Object = resolved {
        proof {
            reveal_strlit("Object");
        }
        HulkType::Class(String::from_str("Object"))
    } else {
        resolved
    }
}

proof fn lemma_ready_grows(
    types: Seq<(String, TypeInfo)>,
    defs: Seq<(String, TypeDef)>,
    f1: Seq<(String, FlattenedType)>,
    f2: Seq<(String, FlattenedType)>,
    name: Seq<char>,
    fuel: nat,
)
    requires
        ready(types, defs, f1, name, fuel),
        forall|q: Seq<char>| lookup(f1, q) is Some ==> #[trigger] lookup(f2, q) is Some,
    ensures
        ready(types, defs, f2, name, fuel),
    decreases fuel,
{
    if lookup(f1, name) is None {
        if let Some(p) = class_parent(types, name) {
            lemma_ready_grows(types, defs, f1, f2, p, (fuel - 1) as nat);
        }
    }
}

proof fn lemma_reaches_mono(types: Seq<(String, TypeInfo)>, x: Seq<char>, y: Seq<char>, f: nat)
    ensures
        crate::type_checker::class_reaches(types, x, y, f) ==> crate::type_checker::class_reaches(types, x, y, f + 1),
    decreases f,
{
    if f > 0 {
        if let Some(p) = class_parent(types, x) {
            lemma_reaches_mono(types, p, y, (f - 1) as nat);
        }
    }
}

/// A copy of a flattened type is a copy the other way round too.
pub proof fn lemma_flat_copy_symmetric(a: FlattenedType, b: FlattenedType)
    requires
        flat_copy(a, b),
    ensures
        flat_copy(b, a),
{
    assert forall|i: int| 0 <= i < b.attributes@.len() implies attr_copy(b.attributes@[i], #[trigger] a.attributes@[i]) by {
        crate::ast::lemma_same_expr_symmetric(*a.attributes@[i].init_expr, *b.attributes@[i].init_expr);
    }
    assert forall|i: int| 0 <= i < b.methods@.len() implies method_copy(b.methods@[i].method, (#[trigger] a.methods@[i]).method)
        && b.methods@[i].vtable_index == a.methods@[i].vtable_index && b.methods@[i].defining_type == a.methods@[i].defining_type by {
        crate::ast::lemma_same_expr_symmetric(*a.methods@[i].method.body, *b.methods@[i].method.body);
    }
    match (a.parent_init_args, b.parent_init_args) {
        (Some(x), Some(y)) => {
            crate::ast::lemma_same_exprs_symmetric(x@, y@);
        },
        _ => {},
    }
}

/// No class reaches itself by following at most `fuel` parent links.
pub open spec fn no_cycle(types: Seq<(String, TypeInfo)>, fuel: nat) -> bool {
    forall|x: Seq<char>| !#[trigger] crate::type_checker::class_reaches(types, x, x, fuel)
}

impl TypeChecker {
    /// Flattens a type: its parent first (once), then its own parameters, attributes and
    /// methods over the parent's; the result is recorded under the type's name and a copy
    /// is returned.
    fn flatten_type(&mut self, tname: &str, Ghost(fuel): Ghost<nat>) -> (res: FlattenedType)
        requires
            old(self).wf(),
            ready(old(self).types@, old(self).type_defs@, old(self).flattened_types@, tname@, fuel),
            no_cycle(old(self).types@, fuel),
            old(self).next_type_id + fuel <= u32::MAX,
        ensures
            final(self).wf(),
            final(self).types == old(self).types,
            final(self).type_defs == old(self).type_defs,
            final(self).protocols == old(self).protocols,
            final(self).unifier == old(self).unifier,
            final(self).functions == old(self).functions,
            final(self).scopes == old(self).scopes,
            old(self).next_type_id <= final(self).next_type_id <= old(self).next_type_id + fuel,
            old(self).errors@.is_prefix_of(final(self).errors@),
            forall|q: Seq<char>|
                lookup(old(self).flattened_types@, q) is Some ==> #[trigger] lookup(final(self).flattened_types@, q)
                    == lookup(old(self).flattened_types@, q),
            forall|q: Seq<char>|
                lookup(old(self).flattened_types@, q) is None && #[trigger] lookup(final(self).flattened_types@, q) is Some
                    ==> q == tname@ || crate::type_checker::class_reaches(old(self).types@, tname@, q, fuel),
            lookup(final(self).flattened_types@, tname@) matches Some(f) && flat_copy(res, f),
            lookup(old(self).flattened_types@, tname@) is Some ==> final(self).flattened_types
                == old(self).flattened_types && final(self).errors == old(self).errors
                && final(self).next_type_id == old(self).next_type_id,
            lookup(old(self).flattened_types@, tname@) is None ==> ({
                let td = lookup(old(self).type_defs@, tname@).unwrap();
                let parent = lookup(old(self).types@, tname@).unwrap().parent;
                let id = (final(self).next_type_id - 1) as u32;
                exists|pf: FlattenedType|
                    #![trigger flattened_from(old(self).unifier, pf, td, parent, id, res)]
                    flattened_from(old(self).unifier, pf, td, parent, id, res) && match parent {
                        Some(p) => lookup(final(self).flattened_types@, p@) matches Some(e) && flat_copy(pf, e),
                        None => empty_flat(pf),
                    }
            }),
            added_ok(
                old(self).unifier,
                old(self).types@,
                old(self).type_defs@,
                old(self).flattened_types@,
                final(self).flattened_types@,
            ),
            parentless_distinct(old(self).types@, old(self).type_defs@) ==> final(self).errors@ == old(self).errors@,
        decreases fuel,
    {
        proof {
            old(self).reveal_wf();
            lemma_key_index(self.flattened_types@, tname@);
            lemma_key_index(self.types@, tname@);
            lemma_key_index(self.type_defs@, tname@);
        }
        if let Some(i) = crate::assoc::assoc_find(&self.flattened_types, tname) {
            let c = clone_flattened(&self.flattened_types[i].1);
            proof {
                lemma_flat_copy_symmetric(self.flattened_types@[i as int].1, c);
            }
            return c;
        }
        let ti = crate::assoc::assoc_find(&self.types, tname).unwrap();
        let parent_name: Option<String> = match &self.types[ti].1.parent {
            Some(p) => Some(p.clone()),
            None => None,
        };
        let ghost s0 = *self;
        let parent_flat = match &parent_name {
            Some(p) => {
                proof {
                    assert(class_parent(self.types@, tname@) == Some(p@));
                    assert forall|x: Seq<char>| !#[trigger] crate::type_checker::class_reaches(self.types@, x, x, (fuel - 1) as nat) by {
                        lemma_reaches_mono(self.types@, x, x, (fuel - 1) as nat);
                    }
                }
                self.flatten_type(p.as_str(), Ghost((fuel - 1) as nat))
            },
            None => FlattenedType::default(),
        };
        let ghost s1 = *self;
        proof {
            lemma_key_index(self.flattened_types@, tname@);
            if lookup(self.flattened_types@, tname@) is Some {
                // only the parent and its ancestors were added, and this type is none of
                // them: it would then reach itself
                assert(crate::type_checker::class_reaches(s0.types@, tname@, tname@, fuel));
            }
        }
        let di = crate::assoc::assoc_find(&self.type_defs, tname).unwrap();
        let td = &self.type_defs[di].1;
        // parameters and the arguments for the parent's constructor
        let has_spec = match &td.parent {
            Some(p) => p.args.len() > 0,
            None => false,
        };
        let mut params: Vec<(String, HulkType)>;
        let mut parent_init_args: Option<Vec<Box<Expr>>> = None;
        if td.params.len() == 0 {
            params = clone_params(&parent_flat.params);
        } else {
            let mut own: Vec<(String, HulkType)> = Vec::new();
            let mut k: usize = 0;
            while k < td.params.len() && k < td.param_types.len()
                invariant
                    self.unifier.wf(),
                    k <= td.params@.len(),
                    k <= td.param_types@.len(),
                    params_view(own@) == own_params(self.unifier, *td).subrange(0, k as int),
                decreases td.params@.len() - k,
            {
                let t = resolve_type_for_flatten(&self.unifier, &td.param_types[k]);
                let ghost before = params_view(own@);
                own.push((td.params[k].clone(), t));
                proof {
                    let op = own_params(self.unifier, *td);
                    assert(op[k as int] == (td.params@[k as int]@, normalized(self.unifier.resolved(td.param_types@[k as int]@))));
                    assert(params_view(own@) =~= before.push(op[k as int]));
                }
                k = k + 1;
                assert(params_view(own@) =~= own_params(self.unifier, *td).subrange(0, k as int));
            }
            proof {
                assert(own_params(self.unifier, *td).subrange(0, k as int) =~= own_params(self.unifier, *td));
            }
            if has_spec {
                params = own;
                parent_init_args = match &td.parent {
                    Some(p) => Some(clone_exprs(&p.args)),
                    None => None,
                };
            } else {
                params = clone_params(&parent_flat.params);
                let ghost pp = params_view(params@);
                let mut j: usize = 0;
                while j < own.len()
                    invariant
                        j <= own@.len(),
                        params_view(params@) == pp + params_view(own@).subrange(0, j as int),
                    decreases own@.len() - j,
                {
                    let ghost before = params_view(params@);
                    params.push((own[j].0.clone(), own[j].1.clone()));
                    proof {
                        assert(params_view(params@) =~= before.push(params_view(own@)[j as int]));
                    }
                    j = j + 1;
                    assert(params_view(params@) =~= pp + params_view(own@).subrange(0, j as int));
                }
                proof {
                    assert(params_view(own@).subrange(0, j as int) =~= params_view(own@));
                }
            }
        }
        // attributes
        let mut attributes: Vec<Attribute>;
        match &parent_init_args {
            Some(args) => {
                let mut subst: Vec<(String, Box<Expr>)> = Vec::new();
                let mut k: usize = 0;
                while k < parent_flat.params.len() && k < args.len()
                    invariant
                        k <= parent_flat.params@.len(),
                    decreases parent_flat.params@.len() - k,
                {
                    assoc_insert(&mut subst, parent_flat.params[k].0.clone(), Box::new(clone_expr(&args[k])));
                    k = k + 1;
                }
                attributes = Vec::new();
                let mut a: usize = 0;
                while a < parent_flat.attributes.len()
                    invariant
                        a <= parent_flat.attributes@.len(),
                        attr_names(attributes@) == attr_names(parent_flat.attributes@).subrange(0, a as int),
                    decreases parent_flat.attributes@.len() - a,
                {
                    let mut new_attr = parent_flat.attributes[a].clone();
                    substitute_expr(&subst, &mut new_attr.init_expr);
                    assert(new_attr.name == parent_flat.attributes@[a as int].name);
                    let ghost before = attr_names(attributes@);
                    attributes.push(new_attr);
                    proof {
                        assert(attr_names(attributes@) =~= before.push(parent_flat.attributes@[a as int].name@));
                    }
                    a = a + 1;
                    assert(attr_names(attributes@) =~= attr_names(parent_flat.attributes@).subrange(0, a as int));
                }
                proof {
                    assert(attr_names(parent_flat.attributes@).subrange(0, a as int) =~= attr_names(parent_flat.attributes@));
                }
            },
            None => {
                attributes = clone_attributes(&parent_flat.attributes);
                proof {
                    assert(attr_names(attributes@) =~= attr_names(parent_flat.attributes@));
                }
            },
        }
        let ghost base_names = attr_names(parent_flat.attributes@);
        let ghost e0 = self.errors@;
        let ghost base_attrs = attributes@;
        let ghost clean = parentless_distinct(s0.types@, s0.type_defs@);
        proof {
            if clean {
                lemma_key_index(s0.types@, tname@);
                lemma_key_index(s0.type_defs@, tname@);
                assert(lookup(s0.types@, tname@) is Some);
                assert(parent_name is None);
                assert(td.parent is None);
                assert(base_names =~= Seq::<Seq<char>>::empty());
                assert(self.errors == s0.errors);
            }
        }
        let mut a: usize = 0;
        while a < td.attributes.len()
            invariant
                a <= td.attributes@.len(),
                attr_names(attributes@) == accept_attrs(base_names, td.attributes@, a as int),
                attributes@.len() >= base_attrs.len(),
                forall|i: int| 0 <= i < base_attrs.len() ==> #[trigger] attributes@[i] == base_attrs[i],
                e0.is_prefix_of(self.errors@),
                self.types == s1.types,
                self.type_defs == s1.type_defs,
                self.protocols == s1.protocols,
                self.unifier == s1.unifier,
                self.flattened_types == s1.flattened_types,
                self.next_type_id == s1.next_type_id,
                self.functions == s1.functions,
                self.param_vars == s1.param_vars,
                self.scopes == s1.scopes,
                di < s1.type_defs@.len(),
                td == &s1.type_defs@[di as int].1,
                clean ==> self.errors@ == e0 && base_names == Seq::<Seq<char>>::empty() && distinct_names(
                    td.attributes@,
                ),
            decreases td.attributes@.len() - a,
        {
            let attr = &td.attributes[a];
            proof {
                if clean {
                    lemma_accept_distinct(td.attributes@, a as int);
                    if attr_names(attributes@).contains(attr.name@) {
                        let j = choose|j: int| 0 <= j < a && attr_names(td.attributes@)[j] == attr.name@;
                        assert(td.attributes@[j].name@ == td.attributes@[a as int].name@);
                    }
                }
            }
            if contains_attr(&attributes, attr.name.as_str()) {
                let mut msg = String::from_str("Attribute '");
                msg.append(attr.name.as_str());
                msg.append("' already defined in parent");
                self.errors.push(CompilerError::TypeError { msg, span: attr.span });
                proof {
                    assert(e0.is_prefix_of(self.errors@)) by {
                        assert forall|i: int| 0 <= i < e0.len() implies self.errors@[i] == e0[i] by {}
                    }
                }
            } else {
                let ghost before = attributes@;
                attributes.push(attr.clone());
                proof {
                    assert(attr_names(attributes@) =~= attr_names(before).push(attr.name@));
                }
            }
            a = a + 1;
        }
        // methods
        let mut methods = clone_flat_methods(&parent_flat.methods);
        let mut m: usize = 0;
        while m < td.methods.len()
            invariant
                m <= td.methods@.len(),
                sigs(methods@) == vtable_after(sigs(parent_flat.methods@), td.methods@, td.name@, m as int),
            decreases td.methods@.len() - m,
        {
            place_method(&mut methods, &td.methods[m], &td.name);
            m = m + 1;
        }
        let flattened = FlattenedType {
            attributes,
            methods,
            parent_name,
            params,
            parent_init_args,
            type_id: self.next_type_id,
        };
        self.next_type_id = self.next_type_id + 1;
        let copy = clone_flattened(&flattened);
        let ghost before_flat = self.flattened_types@;
        let ghost pn = flattened.parent_name;
        assoc_insert(&mut self.flattened_types, String::from_str(tname), copy);
        proof {
            s1.reveal_wf();
            self.reveal_wf();
            match pn {
                Some(p) => {
                    if p@ == tname@ {
                        assert(crate::type_checker::class_reaches(s0.types@, tname@, tname@, fuel));
                    }
                    assert(lookup(self.flattened_types@, p@) == lookup(before_flat, p@));
                },
                None => {},
            }
            assert(flattened_from(s0.unifier, parent_flat, s0.type_defs@[di as int].1, pn, (self.next_type_id - 1) as u32, flattened));
            let fin = self.flattened_types@;
            assert forall|q: Seq<char>| lookup(s0.flattened_types@, q) is None && #[trigger] lookup(fin, q) is Some implies flat_entry_ok(
                s0.unifier,
                s0.types@,
                s0.type_defs@,
                fin,
                q,
                lookup(fin, q).unwrap(),
            ) by {
                if q == tname@ {
                    lemma_key_index(s0.type_defs@, tname@);
                    assert(lookup(s0.type_defs@, tname@).unwrap() == s0.type_defs@[di as int].1);
                    assert(lookup(fin, q).unwrap() == copy);
                    assert(flattened_from(s0.unifier, parent_flat, s0.type_defs@[di as int].1, pn, flattened.type_id, flattened));
                    assert(flat_copy(flattened, copy));
                } else {
                    assert(lookup(fin, q) == lookup(before_flat, q));
                    lemma_entry_ok_stable(s0.unifier, s0.types@, s0.type_defs@, before_flat, fin, q, lookup(before_flat, q).unwrap());
                }
            }
        }
        flattened
    }
}

/// Whether one of the attributes has that name.
fn contains_attr(v: &Vec<Attribute>, name: &str) -> (res: bool)
    ensures
        res == attr_names(v@).contains(name@),
{
    let mut k: usize = 0;
    while k < v.len()
        invariant
            k <= v@.len(),
            forall|j: int| 0 <= j < k ==> v@[j].name@ != name@,
        decreases v@.len() - k,
    {
        if crate::text::str_eq(v[k].name.as_str(), name) {
            assert(attr_names(v@)[k as int] == name@);
            return true;
        }
        k = k + 1;
    }
    proof {
        if attr_names(v@).contains(name@) {
            let j = choose|j: int| 0 <= j < attr_names(v@).len() && attr_names(v@)[j] == name@;
            assert(v@[j].name@ == name@);
        }
    }
    false
}

/// An attribute of a flattened type after resolution.
pub open spec fn flat_attr_resolved(u: Unifier, a: Attribute, b: Attribute) -> bool {
    &&& a.name == b.name
    &&& a.span == b.span
    &&& normalized_slot(u, a.ty, b.ty)
    &&& normalized_slot(u, a.ty_annotation, b.ty_annotation)
    &&& types_mapped(*a.init_expr, *b.init_expr, resolve_rel(u))
}

/// A method parameter of a flattened type after resolution.
pub open spec fn flat_param_resolved(u: Unifier, a: crate::ast::MethodParam, b: crate::ast::MethodParam) -> bool {
    &&& a.name == b.name
    &&& a.span == b.span
    &&& normalized_slot(u, a.ty, b.ty)
    &&& normalized_slot(u, a.ty_annotation, b.ty_annotation)
}

/// A method of a flattened type after resolution.
pub open spec fn flat_method_resolved(u: Unifier, a: FlattenedMethod, b: FlattenedMethod) -> bool {
    &&& a.vtable_index == b.vtable_index
    &&& a.defining_type == b.defining_type
    &&& a.method.name == b.method.name
    &&& a.method.owner == b.method.owner
    &&& a.method.span == b.method.span
    &&& a.method.ty_annotation == b.method.ty_annotation
    &&& normalized_slot(u, a.method.ty, b.method.ty)
    &&& a.method.params@.len() == b.method.params@.len()
    &&& forall|i: int|
        0 <= i < a.method.params@.len() ==> flat_param_resolved(u, a.method.params@[i], #[trigger] b.method.params@[i])
    &&& types_mapped(*a.method.body, *b.method.body, resolve_rel(u))
}

/// A flattened type after resolution of every type it records.
pub open spec fn flat_resolved(u: Unifier, a: FlattenedType, b: FlattenedType) -> bool {
    &&& a.type_id == b.type_id
    &&& a.parent_name == b.parent_name
    &&& a.parent_init_args == b.parent_init_args
    &&& a.params@.len() == b.params@.len()
    &&& forall|i: int|
        0 <= i < a.params@.len() ==> (#[trigger] b.params@[i]).0 == a.params@[i].0 && b.params@[i].1@ == normalized(
            u.resolved(a.params@[i].1@),
        )
    &&& a.attributes@.len() == b.attributes@.len()
    &&& forall|i: int| 0 <= i < a.attributes@.len() ==> flat_attr_resolved(u, a.attributes@[i], #[trigger] b.attributes@[i])
    &&& a.methods@.len() == b.methods@.len()
    &&& forall|i: int| 0 <= i < a.methods@.len() ==> flat_method_resolved(u, a.methods@[i], #[trigger] b.methods@[i])
}

fn normalize_flat_slot(u: &Unifier, slot: &mut Option<HulkType>)
    requires
        u.wf(),
    ensures
        normalized_slot(*u, *old(slot), *final(slot)),
{
    match slot {
        Some(t) => {
            let r = resolve_type_for_flatten(u, t);
            *slot = Some(r);
        },
        None => {},
    }
}

fn resolve_flat_method(u: &Unifier, fm: &mut FlattenedMethod)
    requires
        u.wf(),
    ensures
        flat_method_resolved(*u, *old(fm), *final(fm)),
{
    normalize_flat_slot(u, &mut fm.method.ty);
    let ghost start = fm.method.params@;
    let ghost f1 = *fm;
    let mut i: usize = 0;
    while i < fm.method.params.len()
        invariant
            u.wf(),
            i <= fm.method.params@.len(),
            fm.method.params@.len() == start.len(),
            fm.vtable_index == f1.vtable_index && fm.defining_type == f1.defining_type && fm.method.name
                == f1.method.name && fm.method.owner == f1.method.owner && fm.method.span == f1.method.span
                && fm.method.ty_annotation == f1.method.ty_annotation && fm.method.ty == f1.method.ty
                && fm.method.body == f1.method.body,
            forall|j: int| 0 <= j < i ==> flat_param_resolved(*u, start[j], #[trigger] fm.method.params@[j]),
            forall|j: int| i <= j < fm.method.params@.len() ==> #[trigger] fm.method.params@[j] == start[j],
        decreases fm.method.params@.len() - i,
    {
        normalize_flat_slot(u, &mut fm.method.params[i].ty);
        normalize_flat_slot(u, &mut fm.method.params[i].ty_annotation);
        i = i + 1;
    }
    resolve_expr(u, &mut fm.method.body);
}

fn resolve_flat(u: &Unifier, flat: &mut FlattenedType)
    requires
        u.wf(),
    ensures
        flat_resolved(*u, *old(flat), *final(flat)),
{
    let ghost f0 = *flat;
    let mut params: Vec<(String, HulkType)> = Vec::new();
    let mut i: usize = 0;
    while i < flat.params.len()
        invariant
            u.wf(),
            i <= flat.params@.len(),
            params@.len() == i,
            forall|j: int|
                0 <= j < i ==> (#[trigger] params@[j]).0 == flat.params@[j].0 && params@[j].1@ == normalized(
                    u.resolved(flat.params@[j].1@),
                ),
        decreases flat.params@.len() - i,
    {
        let t = resolve_type_for_flatten(u, &flat.params[i].1);
        params.push((flat.params[i].0.clone(), t));
        i = i + 1;
    }
    flat.params = params;
    let ghost astart = flat.attributes@;
    let ghost f1 = *flat;
    let mut a: usize = 0;
    while a < flat.attributes.len()
        invariant
            u.wf(),
            a <= flat.attributes@.len(),
            flat.attributes@.len() == astart.len(),
            flat.type_id == f1.type_id && flat.parent_name == f1.parent_name && flat.parent_init_args
                == f1.parent_init_args && flat.params == f1.params && flat.methods == f1.methods,
            forall|j: int| 0 <= j < a ==> flat_attr_resolved(*u, astart[j], #[trigger] flat.attributes@[j]),
            forall|j: int| a <= j < flat.attributes@.len() ==> #[trigger] flat.attributes@[j] == astart[j],
        decreases flat.attributes@.len() - a,
    {
        normalize_flat_slot(u, &mut flat.attributes[a].ty);
        normalize_flat_slot(u, &mut flat.attributes[a].ty_annotation);
        resolve_expr(u, &mut flat.attributes[a].init_expr);
        a = a + 1;
    }
    let ghost mstart = flat.methods@;
    let ghost f2 = *flat;
    let mut m: usize = 0;
    while m < flat.methods.len()
        invariant
            u.wf(),
            m <= flat.methods@.len(),
            flat.methods@.len() == mstart.len(),
            flat.type_id == f2.type_id && flat.parent_name == f2.parent_name && flat.parent_init_args
                == f2.parent_init_args && flat.params == f2.params && flat.attributes == f2.attributes,
            forall|j: int| 0 <= j < m ==> flat_method_resolved(*u, mstart[j], #[trigger] flat.methods@[j]),
            forall|j: int| m <= j < flat.methods@.len() ==> #[trigger] flat.methods@[j] == mstart[j],
        decreases flat.methods@.len() - m,
    {
        resolve_flat_method(u, &mut flat.methods[m]);
        m = m + 1;
    }
}

impl TypeChecker {
    /// Resolves every type recorded in the flattened types.
    pub fn resolve_flattened_types(&mut self)
        requires
            old(self).wf(),
        ensures
            final(self).type_defs_seq() == old(self).type_defs_seq(),
            final(self).wf(),
            final(self).unifier_spec() == old(self).unifier_spec(),
            final(self).errors_seq() == old(self).errors_seq(),
            final(self).types_seq() == old(self).types_seq(),
            final(self).flattened_seq().len() == old(self).flattened_seq().len(),
            forall|k: int|
                0 <= k < old(self).flattened_seq().len() ==> (#[trigger] final(self).flattened_seq()[k]).0
                    == old(self).flattened_seq()[k].0 && flat_resolved(
                    old(self).unifier_spec(),
                    old(self).flattened_seq()[k].1,
                    final(self).flattened_seq()[k].1,
                ),
    {
        proof {
            old(self).reveal_wf();
            old(self).reveal_views();
        }
        let ghost s0 = *self;
        let ghost start = self.flattened_types@;
        let mut k: usize = 0;
        while k < self.flattened_types.len()
            invariant
                self.unifier == s0.unifier,
                self.unifier.wf(),
                self.errors == s0.errors,
                self.types == s0.types,
                self.protocols == s0.protocols,
                self.functions == s0.functions,
                self.param_vars == s0.param_vars,
                self.type_defs == s0.type_defs,
                self.scopes == s0.scopes,
                k <= self.flattened_types@.len(),
                self.flattened_types@.len() == start.len(),
                forall|j: int| 0 <= j < self.flattened_types@.len() ==> (#[trigger] self.flattened_types@[j]).0 == start[j].0,
                forall|j: int| 0 <= j < k ==> flat_resolved(self.unifier, start[j].1, (#[trigger] self.flattened_types@[j]).1),
                forall|j: int| k <= j < self.flattened_types@.len() ==> #[trigger] self.flattened_types@[j] == start[j],
            decreases self.flattened_types@.len() - k,
        {
            resolve_flat(&self.unifier, &mut self.flattened_types[k].1);
            k = k + 1;
        }
        proof {
            self.reveal_views();
            assert forall|a: int, b: int| 0 <= a < b < self.flattened_types@.len() implies self.flattened_types@[a].0@
                != self.flattened_types@[b].0@ by {
                assert(start[a].0 == self.flattened_types@[a].0);
                assert(start[b].0 == self.flattened_types@[b].0);
            }
            self.reveal_wf();
        }
    }
}

/// Every registered class (and `Object`) can be flattened: registered and defined, with a
/// parent chain that ends, and no class is its own ancestor.
pub open spec fn all_ready(
    types: Seq<(String, TypeInfo)>,
    defs: Seq<(String, TypeDef)>,
    flat: Seq<(String, FlattenedType)>,
) -> bool {
    let f = types.len() + 1;
    &&& ready(types, defs, flat, "Object"@, f as nat)
    &&& forall|k: int| 0 <= k < types.len() ==> ready(types, defs, flat, (#[trigger] types[k]).0@, f as nat)
    &&& no_cycle(types, f as nat)
}

impl TypeChecker {
    /// Whether `flatten_all_types` can run on the current tables.
    pub closed spec fn flatten_ready(&self) -> bool {
        &&& all_ready(self.types@, self.type_defs@, self.flattened_types@)
        &&& self.next_type_id + (self.types@.len() + 1) * (self.types@.len() + 1) <= u32::MAX
    }

    pub(crate) proof fn reveal_flatten_ready(&self)
        ensures
            self.flatten_ready() == (all_ready(self.types@, self.type_defs@, self.flattened_types@)
                && self.next_type_id + (self.types@.len() + 1) * (self.types@.len() + 1) <= u32::MAX),
    {
    }

    /// Flattens `Object` and then every registered class.
    pub fn flatten_all_types(&mut self)
        requires
            old(self).wf(),
            old(self).flatten_ready(),
        ensures
            final(self).wf(),
            final(self).types_seq() == old(self).types_seq(),
            final(self).type_defs_seq() == old(self).type_defs_seq(),
            final(self).unifier_spec() == old(self).unifier_spec(),
            old(self).errors_seq().is_prefix_of(final(self).errors_seq()),
            forall|q: Seq<char>|
                lookup(old(self).flattened_seq(), q) is Some ==> #[trigger] lookup(final(self).flattened_seq(), q)
                    == lookup(old(self).flattened_seq(), q),
            lookup(final(self).flattened_seq(), "Object"@) is Some,
            forall|k: int|
                0 <= k < final(self).types_seq().len() ==> lookup(
                    final(self).flattened_seq(),
                    (#[trigger] final(self).types_seq()[k]).0@,
                ) is Some,
            added_ok(
                old(self).unifier_spec(),
                old(self).types_seq(),
                old(self).type_defs_seq(),
                old(self).flattened_seq(),
                final(self).flattened_seq(),
            ),
            parentless_distinct(old(self).types_seq(), old(self).type_defs_seq()) ==> final(self).errors_seq()
                == old(self).errors_seq(),
    {
        proof {
            old(self).reveal_views();
        }
        let n = self.types.len();
        let ghost f: nat = (n + 1) as nat;
        let ghost s0 = *self;
        proof {
            assert((n + 1) * (n + 1) >= n + 1) by (nonlinear_arith)
                requires n >= 0;
        }
        let ghost f0 = self.flattened_types@;
        let _ = self.flatten_type("Object", Ghost(f));
        proof {
            reveal_strlit("Object");
            assert forall|q: Seq<char>| lookup(f0, q) is Some implies #[trigger] lookup(self.flattened_types@, q) is Some by {}
            lemma_ready_grows(self.types@, self.type_defs@, f0, self.flattened_types@, "Object"@, f);
            assert forall|j: int| 0 <= j < self.types@.len() implies ready(self.types@, self.type_defs@, self.flattened_types@, (#[trigger] self.types@[j]).0@, f) by {
                lemma_ready_grows(self.types@, self.type_defs@, f0, self.flattened_types@, self.types@[j].0@, f);
            }
        }
        let mut names: Vec<String> = Vec::new();
        let mut i: usize = 0;
        while i < self.types.len()
            invariant
                i <= self.types@.len(),
                names@.len() == i,
                forall|j: int| 0 <= j < i ==> (#[trigger] names@[j]) == self.types@[j].0,
            decreases self.types@.len() - i,
        {
            names.push(self.types[i].0.clone());
            i = i + 1;
        }
        let mut k: usize = 0;
        while k < names.len()
            invariant
                self.wf(),
                n == s0.types@.len(),
                names@.len() == n,
                forall|j: int| 0 <= j < n ==> (#[trigger] names@[j]) == s0.types@[j].0,
                self.types == s0.types,
                self.type_defs == s0.type_defs,
                self.unifier == s0.unifier,
                self.protocols == s0.protocols,
                f == n + 1,
                k <= n,
                s0.errors@.is_prefix_of(self.errors@),
                self.next_type_id <= s0.next_type_id + (k + 1) * f,
                s0.next_type_id + (n + 1) * (n + 1) <= u32::MAX,
                all_ready(self.types@, self.type_defs@, self.flattened_types@),
                forall|q: Seq<char>|
                    lookup(s0.flattened_types@, q) is Some ==> #[trigger] lookup(self.flattened_types@, q)
                        == lookup(s0.flattened_types@, q),
                lookup(self.flattened_types@, "Object"@) is Some,
                forall|j: int| 0 <= j < k ==> lookup(self.flattened_types@, (#[trigger] s0.types@[j]).0@) is Some,
                added_ok(s0.unifier, s0.types@, s0.type_defs@, f0, self.flattened_types@),
                f0 == s0.flattened_types@,
                parentless_distinct(s0.types@, s0.type_defs@) ==> self.errors@ == s0.errors@,
            decreases n - k,
        {
            proof {
                assert((k + 1) * f + f == (k + 2) * f) by (nonlinear_arith);
                assert((k + 2) * f <= (n + 1) * (n + 1)) by (nonlinear_arith)
                    requires k < n, f == n + 1;
            }
            let ghost before = self.flattened_types@;
            if !crate::text::str_eq(names[k].as_str(), "Object") {
                let _ = self.flatten_type(names[k].as_str(), Ghost(f));
                proof {
                    lemma_added_trans(s0.unifier, s0.types@, s0.type_defs@, f0, before, self.flattened_types@);
                    assert forall|q: Seq<char>| lookup(before, q) is Some implies #[trigger] lookup(self.flattened_types@, q) is Some by {}
                    lemma_ready_grows(self.types@, self.type_defs@, before, self.flattened_types@, "Object"@, f);
                    assert forall|j: int| 0 <= j < self.types@.len() implies ready(self.types@, self.type_defs@, self.flattened_types@, (#[trigger] self.types@[j]).0@, f) by {
                        lemma_ready_grows(self.types@, self.type_defs@, before, self.flattened_types@, self.types@[j].0@, f);
                    }
                }
            } else {
                proof {
                    reveal_strlit("Object");
                }
            }
            k = k + 1;
        }
        proof {
            self.reveal_views();
        }
    }
}

} // verus!
