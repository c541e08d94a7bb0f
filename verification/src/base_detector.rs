use vstd::prelude::*;
use crate::ast::Expr;

verus! {

/// Whether `base` occurs anywhere in an expression.
pub open spec fn contains_base(e: Expr) -> bool
    decreases e,
{
    match e {
        Expr::Base(_) => true,
        Expr::BinaryOp(x) => contains_base(*x.left) || contains_base(*x.right),
        Expr::Call(x) => exists|i: int| 0 <= i < x.args@.len() && contains_base(*x.args@[i]),
        Expr::UnaryOp(x) => contains_base(*x.expr),
        Expr::Let(x) => (exists|i: int| 0 <= i < x.bindings@.len() && contains_base(*x.bindings@[i].2))
            || contains_base(*x.body),
        Expr::DestructiveAssign(x) => contains_base(*x.lhs) || contains_base(*x.value),
        Expr::Block(x) => exists|i: int|
            0 <= i < x.expressions@.len() && contains_base(*x.expressions@[i]),
        Expr::If(x) => contains_base(*x.condition) || contains_base(*x.then_branch) || contains_base(
            *x.else_branch,
        ),
        Expr::While(x) => contains_base(*x.condition) || contains_base(*x.body),
        Expr::New(x) => exists|i: int| 0 <= i < x.args@.len() && contains_base(*x.args@[i]),
        Expr::MethodCall(x) => contains_base(*x.object) || exists|i: int|
            0 <= i < x.args@.len() && contains_base(*x.args@[i]),
        Expr::AttributeAccess(x) => contains_base(*x.object),
        _ => false,
    }
}

/// Whether `base` occurs in one of the expressions.
pub open spec fn any_contains_base(v: Seq<Box<Expr>>) -> bool {
    exists|i: int| 0 <= i < v.len() && contains_base(*v[i])
}

/// Finds out whether an expression uses `base` somewhere.
pub struct BaseDetector {
    pub found: bool,
}

impl BaseDetector {
    /// A detector that has found nothing yet.
    pub fn new() -> (res: Self)
        ensures
            !res.found,
    {
        BaseDetector { found: false }
    }

    /// Forgets what was found.
    pub fn reset(&mut self)
        ensures
            !final(self).found,
    {
        self.found = false;
    }

    fn visit_list(&mut self, v: &Vec<Box<Expr>>)
        ensures
            final(self).found == (old(self).found || any_contains_base(v@)),
        decreases v, 0int,
    {
        let mut i: usize = 0;
        let ghost start = self.found;
        while i < v.len()
            invariant
                i <= v@.len(),
                self.found == (start || exists|j: int| 0 <= j < i && contains_base(*v@[j])),
            decreases v@.len() - i,
        {
            self.visit_expr(&v[i]);
            i = i + 1;
        }
    }

    fn visit_bindings(&mut self, v: &Vec<(String, Option<crate::types::HulkType>, Box<Expr>)>)
        ensures
            final(self).found == (old(self).found || exists|j: int|
                0 <= j < v@.len() && contains_base(*v@[j].2)),
        decreases v, 0int,
    {
        let mut i: usize = 0;
        let ghost start = self.found;
        while i < v.len()
            invariant
                i <= v@.len(),
                self.found == (start || exists|j: int| 0 <= j < i && contains_base(*v@[j].2)),
            decreases v@.len() - i,
        {
            self.visit_expr(&v[i].2);
            i = i + 1;
        }
    }

    /// Visits an expression: afterwards `found` tells whether `base` was found, here or
    /// before.
    pub fn visit_expr(&mut self, e: &Expr)
        ensures
            final(self).found == (old(self).found || contains_base(*e)),
        decreases e, 1int,
    {
        match e {
            Expr::Base(_) => {
                self.found = true;
            },
            Expr::BinaryOp(x) => {
                self.visit_expr(&x.left);
                self.visit_expr(&x.right);
            },
            Expr::Call(x) => {
                self.visit_list(&x.args);
            },
            Expr::UnaryOp(x) => {
                self.visit_expr(&x.expr);
            },
            Expr::Let(x) => {
                self.visit_bindings(&x.bindings);
                self.visit_expr(&x.body);
            },
            Expr::DestructiveAssign(x) => {
                self.visit_expr(&x.lhs);
                self.visit_expr(&x.value);
            },
            Expr::Block(x) => {
                self.visit_list(&x.expressions);
            },
            Expr::If(x) => {
                self.visit_expr(&x.condition);
                self.visit_expr(&x.then_branch);
                self.visit_expr(&x.else_branch);
            },
            Expr::While(x) => {
                self.visit_expr(&x.condition);
                self.visit_expr(&x.body);
            },
            Expr::New(x) => {
                self.visit_list(&x.args);
            },
            Expr::MethodCall(x) => {
                if let Expr::Base(_) = &*x.object {
                    self.found = true;
                    assert(contains_base(*x.object));
                }
                self.visit_expr(&x.object);
                self.visit_list(&x.args);
            },
            Expr::AttributeAccess(x) => {
                self.visit_expr(&x.object);
            },
            _ => {},
        }
    }
}

} // verus!
