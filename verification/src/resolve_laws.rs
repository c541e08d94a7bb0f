use vstd::prelude::*;
use crate::types::{HulkType, TypeView};
use crate::inference::Unifier;
use crate::ast::{Expr, Program, types_mapped, expr_ty};
use crate::resolve::{
    resolved_slot, resolve_rel, normalized_slot, program_resolved, function_resolved, typedef_resolved,
    attribute_resolved, method_resolved, param_resolved, mparam_resolved,
};

verus! {

/// Two type slots record the same type (compared by view), or are both empty.
pub open spec fn same_view_rel() -> spec_fn(Option<HulkType>, Option<HulkType>) -> bool {
    |t1: Option<HulkType>, t2: Option<HulkType>| match (t1, t2) {
        (Some(a), Some(b)) => a@ == b@,
        (None, None) => true,
        _ => false,
    }
}

proof fn lemma_slot_again(u: Unifier, t1: Option<HulkType>, t2: Option<HulkType>, t3: Option<HulkType>)
    requires
        u.wf(),
        resolved_slot(u, t1, t2),
        resolved_slot(u, t2, t3),
    ensures
        (same_view_rel())(t2, t3),
{
    if let Some(t) = t1 {
        u.lemma_resolve_idempotent(t@);
    }
}

/// Resolving an expression a second time, with the same substitution, changes no recorded
/// type: resolution of the types of an expression is idempotent.
pub proof fn lemma_resolve_expr_idempotent(u: Unifier, a: Expr, b: Expr, c: Expr)
    requires
        u.wf(),
        types_mapped(a, b, resolve_rel(u)),
        types_mapped(b, c, resolve_rel(u)),
    ensures
        types_mapped(b, c, same_view_rel()),
    decreases a,
{
    lemma_slot_again(u, expr_ty(a), expr_ty(b), expr_ty(c));
    match a {
        Expr::Call(x) => {
            let y = b->Call_0;
            let z = c->Call_0;
            assert forall|i: int| 0 <= i < y.args@.len() implies types_mapped(*y.args@[i], *z.args@[i], same_view_rel()) by {
                lemma_resolve_expr_idempotent(u, *x.args@[i], *y.args@[i], *z.args@[i]);
            }
        },
        Expr::BinaryOp(x) => {
            let y = b->BinaryOp_0;
            let z = c->BinaryOp_0;
            lemma_resolve_expr_idempotent(u, *x.left, *y.left, *z.left);
            lemma_resolve_expr_idempotent(u, *x.right, *y.right, *z.right);
        },
        Expr::UnaryOp(x) => {
            let y = b->UnaryOp_0;
            let z = c->UnaryOp_0;
            lemma_resolve_expr_idempotent(u, *x.expr, *y.expr, *z.expr);
        },
        Expr::Let(x) => {
            let y = b->Let_0;
            let z = c->Let_0;
            assert forall|i: int| 0 <= i < y.bindings@.len() implies y.bindings@[i].0 == z.bindings@[i].0
                && y.bindings@[i].1 == z.bindings@[i].1 && types_mapped(*y.bindings@[i].2, *z.bindings@[i].2, same_view_rel()) by {
                lemma_resolve_expr_idempotent(u, *x.bindings@[i].2, *y.bindings@[i].2, *z.bindings@[i].2);
            }
            lemma_resolve_expr_idempotent(u, *x.body, *y.body, *z.body);
        },
        Expr::DestructiveAssign(x) => {
            let y = b->DestructiveAssign_0;
            let z = c->DestructiveAssign_0;
            lemma_resolve_expr_idempotent(u, *x.lhs, *y.lhs, *z.lhs);
            lemma_resolve_expr_idempotent(u, *x.value, *y.value, *z.value);
        },
        Expr::Block(x) => {
            let y = b->Block_0;
            let z = c->Block_0;
            assert forall|i: int| 0 <= i < y.expressions@.len() implies types_mapped(*y.expressions@[i], *z.expressions@[i], same_view_rel()) by {
                lemma_resolve_expr_idempotent(u, *x.expressions@[i], *y.expressions@[i], *z.expressions@[i]);
            }
        },
        Expr::If(x) => {
            let y = b->If_0;
            let z = c->If_0;
            lemma_resolve_expr_idempotent(u, *x.condition, *y.condition, *z.condition);
            lemma_resolve_expr_idempotent(u, *x.then_branch, *y.then_branch, *z.then_branch);
            lemma_resolve_expr_idempotent(u, *x.else_branch, *y.else_branch, *z.else_branch);
        },
        Expr::While(x) => {
            let y = b->While_0;
            let z = c->While_0;
            lemma_resolve_expr_idempotent(u, *x.condition, *y.condition, *z.condition);
            lemma_resolve_expr_idempotent(u, *x.body, *y.body, *z.body);
        },
        Expr::New(x) => {
            let y = b->New_0;
            let z = c->New_0;
            assert forall|i: int| 0 <= i < y.args@.len() implies types_mapped(*y.args@[i], *z.args@[i], same_view_rel()) by {
                lemma_resolve_expr_idempotent(u, *x.args@[i], *y.args@[i], *z.args@[i]);
            }
        },
        Expr::MethodCall(x) => {
            let y = b->MethodCall_0;
            let z = c->MethodCall_0;
            lemma_resolve_expr_idempotent(u, *x.object, *y.object, *z.object);
            assert forall|i: int| 0 <= i < y.args@.len() implies types_mapped(*y.args@[i], *z.args@[i], same_view_rel()) by {
                lemma_resolve_expr_idempotent(u, *x.args@[i], *y.args@[i], *z.args@[i]);
            }
        },
        Expr::AttributeAccess(x) => {
            let y = b->AttributeAccess_0;
            let z = c->AttributeAccess_0;
            lemma_resolve_expr_idempotent(u, *x.object, *y.object, *z.object);
        },
        _ => {},
    }
}

proof fn lemma_normalized_again(u: Unifier, t1: Option<HulkType>, t2: Option<HulkType>, t3: Option<HulkType>)
    requires
        u.wf(),
        normalized_slot(u, t1, t2),
        normalized_slot(u, t2, t3),
    ensures
        (same_view_rel())(t2, t3),
{
    if let Some(t) = t1 {
        let r = u.resolved(t@);
        u.lemma_resolve_idempotent(t@);
        if r is Object {
            u.lemma_resolved_non_var(TypeView::Class("Object"@));
        }
    }
}

/// Resolving a program a second time, with the same substitution, changes no recorded
/// type of the main expression, of the functions (their result, parameters and body) or of
/// the classes (their own type, each attribute's type, annotation and initializer, each
/// method's result, parameters and body): what `resolve_ast` records is already resolved.
pub proof fn lemma_resolve_program_idempotent(u: Unifier, a: Program, b: Program, c: Program)
    requires
        u.wf(),
        program_resolved(u, a, b),
        program_resolved(u, b, c),
    ensures
        types_mapped(*b.main_expr, *c.main_expr, same_view_rel()),
        forall|i: int|
            0 <= i < b.functions@.len() ==> (same_view_rel())(b.functions@[i].ty, c.functions@[i].ty)
                && types_mapped(*(#[trigger] b.functions@[i]).body, *c.functions@[i].body, same_view_rel()),
        forall|i: int|
            0 <= i < b.types@.len() ==> (same_view_rel())((#[trigger] b.types@[i]).ty, c.types@[i].ty),
        forall|i: int, k: int|
            0 <= i < b.types@.len() && 0 <= k < b.types@[i].attributes@.len() ==> (same_view_rel())(
                (#[trigger] b.types@[i].attributes@[k]).ty,
                c.types@[i].attributes@[k].ty,
            ) && types_mapped(*b.types@[i].attributes@[k].init_expr, *c.types@[i].attributes@[k].init_expr, same_view_rel()),
        forall|i: int, k: int|
            0 <= i < b.types@.len() && 0 <= k < b.types@[i].methods@.len() ==> (same_view_rel())(
                (#[trigger] b.types@[i].methods@[k]).ty,
                c.types@[i].methods@[k].ty,
            ) && types_mapped(*b.types@[i].methods@[k].body, *c.types@[i].methods@[k].body, same_view_rel()),
        forall|i: int, k: int|
            0 <= i < b.functions@.len() && 0 <= k < b.functions@[i].params@.len() ==> (same_view_rel())(
                (#[trigger] b.functions@[i].params@[k]).ty,
                c.functions@[i].params@[k].ty,
            ),
        forall|i: int, m: int, k: int|
            0 <= i < b.types@.len() && 0 <= m < b.types@[i].methods@.len() && 0 <= k
                < b.types@[i].methods@[m].params@.len() ==> (same_view_rel())(
                (#[trigger] b.types@[i].methods@[m].params@[k]).ty,
                c.types@[i].methods@[m].params@[k].ty,
            ) && (same_view_rel())(
                b.types@[i].methods@[m].params@[k].ty_annotation,
                c.types@[i].methods@[m].params@[k].ty_annotation,
            ),
        forall|i: int, k: int|
            0 <= i < b.types@.len() && 0 <= k < b.types@[i].attributes@.len() ==> (same_view_rel())(
                (#[trigger] b.types@[i].attributes@[k]).ty_annotation,
                c.types@[i].attributes@[k].ty_annotation,
            ),
{
    lemma_resolve_expr_idempotent(u, *a.main_expr, *b.main_expr, *c.main_expr);
    assert forall|i: int|
        0 <= i < b.functions@.len() implies (same_view_rel())(b.functions@[i].ty, c.functions@[i].ty)
            && types_mapped(*(#[trigger] b.functions@[i]).body, *c.functions@[i].body, same_view_rel()) by {
        assert(function_resolved(u, a.functions@[i], b.functions@[i]));
        assert(function_resolved(u, b.functions@[i], c.functions@[i]));
        lemma_normalized_again(u, a.functions@[i].ty, b.functions@[i].ty, c.functions@[i].ty);
        lemma_resolve_expr_idempotent(u, *a.functions@[i].body, *b.functions@[i].body, *c.functions@[i].body);
    }
    assert forall|i: int, k: int|
        0 <= i < b.functions@.len() && 0 <= k < b.functions@[i].params@.len() implies (same_view_rel())(
            (#[trigger] b.functions@[i].params@[k]).ty,
            c.functions@[i].params@[k].ty,
        ) by {
        assert(function_resolved(u, a.functions@[i], b.functions@[i]));
        assert(function_resolved(u, b.functions@[i], c.functions@[i]));
        assert(param_resolved(u, a.functions@[i].params@[k], b.functions@[i].params@[k]));
        assert(param_resolved(u, b.functions@[i].params@[k], c.functions@[i].params@[k]));
        lemma_normalized_again(u, a.functions@[i].params@[k].ty, b.functions@[i].params@[k].ty, c.functions@[i].params@[k].ty);
    }
    assert forall|i: int, m: int, k: int|
        0 <= i < b.types@.len() && 0 <= m < b.types@[i].methods@.len() && 0 <= k
            < b.types@[i].methods@[m].params@.len() implies (same_view_rel())(
            (#[trigger] b.types@[i].methods@[m].params@[k]).ty,
            c.types@[i].methods@[m].params@[k].ty,
        ) && (same_view_rel())(
            b.types@[i].methods@[m].params@[k].ty_annotation,
            c.types@[i].methods@[m].params@[k].ty_annotation,
        ) by {
        let ta = a.types@[i];
        let tb = b.types@[i];
        let tc = c.types@[i];
        assert(typedef_resolved(u, ta, tb));
        assert(typedef_resolved(u, tb, tc));
        assert(method_resolved(u, ta.methods@[m], tb.methods@[m]));
        assert(method_resolved(u, tb.methods@[m], tc.methods@[m]));
        let pa = ta.methods@[m].params@[k];
        let pb = tb.methods@[m].params@[k];
        let pc = tc.methods@[m].params@[k];
        assert(mparam_resolved(u, pa, pb));
        assert(mparam_resolved(u, pb, pc));
        lemma_normalized_again(u, pa.ty, pb.ty, pc.ty);
        lemma_slot_again(u, pa.ty_annotation, pb.ty_annotation, pc.ty_annotation);
    }
    assert forall|i: int, k: int|
        0 <= i < b.types@.len() && 0 <= k < b.types@[i].attributes@.len() implies (same_view_rel())(
            (#[trigger] b.types@[i].attributes@[k]).ty_annotation,
            c.types@[i].attributes@[k].ty_annotation,
        ) by {
        let ta = a.types@[i];
        let tb = b.types@[i];
        let tc = c.types@[i];
        assert(typedef_resolved(u, ta, tb));
        assert(typedef_resolved(u, tb, tc));
        assert(attribute_resolved(u, ta.attributes@[k], tb.attributes@[k]));
        assert(attribute_resolved(u, tb.attributes@[k], tc.attributes@[k]));
        lemma_slot_again(u, ta.attributes@[k].ty_annotation, tb.attributes@[k].ty_annotation, tc.attributes@[k].ty_annotation);
    }
    assert forall|i: int| 0 <= i < b.types@.len() implies (same_view_rel())((#[trigger] b.types@[i]).ty, c.types@[i].ty) by {
        assert(typedef_resolved(u, a.types@[i], b.types@[i]));
        assert(typedef_resolved(u, b.types@[i], c.types@[i]));
        lemma_normalized_again(u, a.types@[i].ty, b.types@[i].ty, c.types@[i].ty);
    }
    assert forall|i: int, k: int|
        0 <= i < b.types@.len() && 0 <= k < b.types@[i].attributes@.len() implies (same_view_rel())(
            (#[trigger] b.types@[i].attributes@[k]).ty,
            c.types@[i].attributes@[k].ty,
        ) && types_mapped(*b.types@[i].attributes@[k].init_expr, *c.types@[i].attributes@[k].init_expr, same_view_rel()) by {
        let ta = a.types@[i];
        let tb = b.types@[i];
        let tc = c.types@[i];
        assert(typedef_resolved(u, ta, tb));
        assert(typedef_resolved(u, tb, tc));
        assert(attribute_resolved(u, ta.attributes@[k], tb.attributes@[k]));
        assert(attribute_resolved(u, tb.attributes@[k], tc.attributes@[k]));
        lemma_normalized_again(u, ta.attributes@[k].ty, tb.attributes@[k].ty, tc.attributes@[k].ty);
        lemma_resolve_expr_idempotent(u, *ta.attributes@[k].init_expr, *tb.attributes@[k].init_expr, *tc.attributes@[k].init_expr);
    }
    assert forall|i: int, k: int|
        0 <= i < b.types@.len() && 0 <= k < b.types@[i].methods@.len() implies (same_view_rel())(
            (#[trigger] b.types@[i].methods@[k]).ty,
            c.types@[i].methods@[k].ty,
        ) && types_mapped(*b.types@[i].methods@[k].body, *c.types@[i].methods@[k].body, same_view_rel()) by {
        let ta = a.types@[i];
        let tb = b.types@[i];
        let tc = c.types@[i];
        assert(typedef_resolved(u, ta, tb));
        assert(typedef_resolved(u, tb, tc));
        assert(method_resolved(u, ta.methods@[k], tb.methods@[k]));
        assert(method_resolved(u, tb.methods@[k], tc.methods@[k]));
        lemma_normalized_again(u, ta.methods@[k].ty, tb.methods@[k].ty, tc.methods@[k].ty);
        lemma_resolve_expr_idempotent(u, *ta.methods@[k].body, *tb.methods@[k].body, *tc.methods@[k].body);
    }
}

} // verus!
