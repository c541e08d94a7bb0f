//! What a successful semantic analysis guarantees of the types recorded in a program.
use vstd::prelude::*;
use crate::types::{HulkType, TypeView};
use crate::ast::{Expr, TypeDef, expr_ty, types_mapped};
use crate::inference::Unifier;
use crate::resolve::resolve_rel;
use crate::visit::{well_typed, binop_ok, unop_ok, slot_type};

verus! {

/// The type that a slot records.
pub open spec fn recorded(t: Option<HulkType>) -> Option<TypeView> {
    match t {
        Some(x) => Some(x@),
        None => None,
    }
}

/// The recorded types of an expression are those its operators need and give: every
/// operand of an arithmetic or comparison operator is recorded as `Number`, of a logical
/// operator as `Boolean`, of `-` as `Number` and of `!` as `Boolean`; arithmetic and
/// `-` are recorded as `Number`, comparisons, equality, logic and `!` as `Boolean`,
/// concatenations as `String`; and so inside blocks, conditionals, loops, `let`,
/// assignments, function calls, method calls and attribute accesses.
pub open spec fn records_typed(e: Expr) -> bool
    decreases e,
{
    match e {
        Expr::Call(x) => forall|i: int| 0 <= i < x.args@.len() ==> records_typed(*x.args@[i]),
        Expr::BinaryOp(x) => binop_ok(x.op, recorded(expr_ty(*x.left)), recorded(expr_ty(*x.right)), recorded(x.ty))
            && records_typed(*x.left) && records_typed(*x.right),
        Expr::UnaryOp(x) => unop_ok(x.op, recorded(expr_ty(*x.expr)), recorded(x.ty)) && records_typed(*x.expr),
        Expr::Let(x) => (forall|i: int| 0 <= i < x.bindings@.len() ==> records_typed(*x.bindings@[i].2))
            && records_typed(*x.body),
        Expr::DestructiveAssign(x) => records_typed(*x.lhs) && records_typed(*x.value),
        Expr::Block(x) => forall|i: int| 0 <= i < x.expressions@.len() ==> records_typed(*x.expressions@[i]),
        Expr::If(x) => records_typed(*x.condition) && records_typed(*x.then_branch) && records_typed(*x.else_branch),
        Expr::While(x) => records_typed(*x.condition) && records_typed(*x.body),
        Expr::MethodCall(x) => records_typed(*x.object) && forall|i: int|
            0 <= i < x.args@.len() ==> records_typed(*x.args@[i]),
        Expr::AttributeAccess(x) => records_typed(*x.object),
        _ => true,
    }
}

/// The recorded types of a class's attribute initializers and method bodies are those
/// their operators need and give.
pub open spec fn typedef_records_typed(td: TypeDef) -> bool {
    &&& forall|j: int| 0 <= j < td.attributes@.len() ==> records_typed(*(#[trigger] td.attributes@[j]).init_expr)
    &&& forall|j: int| 0 <= j < td.methods@.len() ==> records_typed(*(#[trigger] td.methods@[j]).body)
}

proof fn lemma_slot(u: Unifier, a: Option<HulkType>, b: Option<HulkType>)
    requires
        u.wf(),
        resolve_rel(u)(a, b),
    ensures
        recorded(b) == slot_type(u, a),
{
}

/// Resolving the recorded types of a well-typed expression by the substitution under
/// which it is well typed gives recorded types that are exactly what the operators need
/// and give.
pub proof fn lemma_resolved_records_typed(a: Expr, b: Expr, u: Unifier)
    requires
        u.wf(),
        well_typed(a, u),
        types_mapped(a, b, resolve_rel(u)),
    ensures
        records_typed(b),
    decreases a,
{
    match a {
        Expr::BinaryOp(x) => {
            let y = b->BinaryOp_0;
            assert(types_mapped(*x.left, *y.left, resolve_rel(u)));
            assert(types_mapped(*x.right, *y.right, resolve_rel(u)));
            lemma_slot(u, expr_ty(*x.left), expr_ty(*y.left));
            lemma_slot(u, expr_ty(*x.right), expr_ty(*y.right));
            lemma_slot(u, x.ty, y.ty);
            lemma_resolved_records_typed(*x.left, *y.left, u);
            lemma_resolved_records_typed(*x.right, *y.right, u);
        },
        Expr::UnaryOp(x) => {
            let y = b->UnaryOp_0;
            assert(types_mapped(*x.expr, *y.expr, resolve_rel(u)));
            lemma_slot(u, expr_ty(*x.expr), expr_ty(*y.expr));
            lemma_slot(u, x.ty, y.ty);
            lemma_resolved_records_typed(*x.expr, *y.expr, u);
        },
        Expr::Let(x) => {
            let y = b->Let_0;
            assert forall|i: int| 0 <= i < y.bindings@.len() implies records_typed(*y.bindings@[i].2) by {
                lemma_resolved_records_typed(*x.bindings@[i].2, *y.bindings@[i].2, u);
            }
            lemma_resolved_records_typed(*x.body, *y.body, u);
        },
        Expr::DestructiveAssign(x) => {
            let y = b->DestructiveAssign_0;
            lemma_resolved_records_typed(*x.lhs, *y.lhs, u);
            lemma_resolved_records_typed(*x.value, *y.value, u);
        },
        Expr::Block(x) => {
            let y = b->Block_0;
            assert forall|i: int| 0 <= i < y.expressions@.len() implies records_typed(*y.expressions@[i]) by {
                lemma_resolved_records_typed(*x.expressions@[i], *y.expressions@[i], u);
            }
        },
        Expr::If(x) => {
            let y = b->If_0;
            lemma_resolved_records_typed(*x.condition, *y.condition, u);
            lemma_resolved_records_typed(*x.then_branch, *y.then_branch, u);
            lemma_resolved_records_typed(*x.else_branch, *y.else_branch, u);
        },
        Expr::While(x) => {
            let y = b->While_0;
            lemma_resolved_records_typed(*x.condition, *y.condition, u);
            lemma_resolved_records_typed(*x.body, *y.body, u);
        },
        Expr::MethodCall(x) => {
            let y = b->MethodCall_0;
            lemma_resolved_records_typed(*x.object, *y.object, u);
            assert forall|i: int| 0 <= i < y.args@.len() implies records_typed(*y.args@[i]) by {
                lemma_resolved_records_typed(*x.args@[i], *y.args@[i], u);
            }
        },
        Expr::AttributeAccess(x) => {
            let y = b->AttributeAccess_0;
            lemma_resolved_records_typed(*x.object, *y.object, u);
        },
        Expr::Call(x) => {
            let y = b->Call_0;
            assert forall|i: int| 0 <= i < y.args@.len() implies records_typed(*y.args@[i]) by {
                lemma_resolved_records_typed(*x.args@[i], *y.args@[i], u);
            }
        },
        _ => {},
    }
}

} // verus!
