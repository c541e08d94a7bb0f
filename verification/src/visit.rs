use vstd::prelude::*;
use crate::types::{HulkType, TypeView, debug_string, type_debug};
use crate::span::Span;
use crate::error::CompilerError;
use crate::ast::{
    Expr, same_shape, expr_ty, NumberExpr, StringExpr, BoolExpr, ConstExpr, VariableExpr, SelfExpr,
    BinaryOpExpr, UnaryOpExpr, BinOp, UnaryOp, BlockExpr, IfExpr, WhileExpr, LetExpr,
    DestructiveAssignExpr, CallExpr, NewExpr, MethodCallExpr, AttributeAccessExpr, BaseExpr,
};
use crate::assoc::{lookup, assoc_get, assoc_has};
use crate::type_checker::MethodInfo;
use crate::text::{str_eq, push_decimal};
use crate::inference::{Constraint, Unifier, unifiable, unify_failure};
use crate::ast::expr_span;
use crate::scope::scope_lookup;
use crate::type_checker::{TypeChecker, annotation_meaning};
use crate::inferred::error_list;

verus! {

pub(crate) proof fn lemma_prefix_trans<T>(a: Seq<T>, b: Seq<T>, c: Seq<T>)
    requires
        a.is_prefix_of(b),
        b.is_prefix_of(c),
    ensures
        a.is_prefix_of(c),
{
    assert forall|i: int| 0 <= i < a.len() implies a[i] == c[i] by {
        assert(a[i] == b[i]);
    }
    assert(a =~= c.subrange(0, a.len() as int));
}

pub(crate) proof fn lemma_prefix_push<T>(a: Seq<T>, x: T)
    ensures
        a.is_prefix_of(a.push(x)),
{
    assert(a =~= a.push(x).subrange(0, a.len() as int));
}

pub(crate) proof fn lemma_prefix_refl<T>(a: Seq<T>)
    ensures
        a.is_prefix_of(a),
{
    assert(a =~= a.subrange(0, a.len() as int));
}

/// Joins two pieces of text.
pub(crate) fn cat(a: &str, b: &str) -> (res: String)
    ensures
        res@ == a@ + b@,
{
    let mut s = String::from_str(a);
    s.append(b);
    s
}

/// After the checker reached `m` by visiting the argument `arg`, unifying the argument's
/// type with `want` took it to `b`: no error when they unify, otherwise one error at the
/// argument's span.
pub(crate) open spec fn arg_unified(m: TypeChecker, b: TypeChecker, arg: Expr, want: TypeView) -> bool {
    exists|t: HulkType|
        #![trigger unify_reported(m, b, t@, want, expr_span(arg))]
        (expr_ty(arg) == Some(t) || t is Error) && unify_reported(m, b, t@, want, expr_span(arg))
}

/// The type that checking a plain expression gives under the declarations `env`.
pub open spec fn plain_type_in(env: spec_fn(Seq<char>) -> Option<TypeView>, e: Expr) -> TypeView
    decreases e, 0int,
{
    match e {
        Expr::Number(_) | Expr::Const(_) => TypeView::Number,
        Expr::String(_) => TypeView::String,
        Expr::Bool(_) => TypeView::Boolean,
        Expr::Variable(x) => match env(x.name@) {
            Some(t) => t,
            None => TypeView::Error,
        },
        Expr::Block(x) => if x.expressions@.len() == 0 {
            TypeView::Number
        } else {
            plain_type_in(env, *x.expressions@[x.expressions@.len() - 1])
        },
        Expr::BinaryOp(x) => binop_result(x.op),
        Expr::UnaryOp(x) => unop_result(x.op),
        Expr::If(x) => plain_type_in(env, *x.then_branch),
        Expr::While(x) => plain_type_in(env, *x.body),
        Expr::Let(x) => plain_type_in(let_env(env, x, x.bindings@.len() as int), *x.body),
        Expr::DestructiveAssign(x) => plain_type_in(env, *x.value),
        Expr::Call(x) => {
            let f = x.func@;
            let n = x.args@.len();
            if crate::visit_call::math_function(f) && n == 1 {
                TypeView::Number
            } else if f == "rand"@ && n == 0 {
                TypeView::Number
            } else if f == "log"@ && n == 2 {
                TypeView::Number
            } else if f == "range"@ && n == 2 {
                TypeView::Class("_Range"@)
            } else if f == "print"@ && n == 1 {
                plain_type_in(env, *x.args@[0])
            } else {
                TypeView::Error
            }
        },
        _ => TypeView::Error,
    }
}

/// The declarations under which the `k`-th initializer of a `let` is checked: `env` with
/// the first `k` bindings declared, each of the type its initializer gives.
pub open spec fn let_env(env: spec_fn(Seq<char>) -> Option<TypeView>, x: LetExpr, k: int) -> spec_fn(
    Seq<char>,
) -> Option<TypeView>
    decreases x, k,
{
    if k <= 0 || k > x.bindings@.len() {
        env
    } else {
        let prev = let_env(env, x, k - 1);
        env_with(prev, x.bindings@[k - 1].0@, plain_type_in(prev, *x.bindings@[k - 1].2))
    }
}

/// `Number`, `String` or `Boolean`.
pub open spec fn base_type(t: TypeView) -> bool {
    t is Number || t is String || t is Boolean
}

/// `env` with `name` declared of type `t`.
pub open spec fn env_with(env: spec_fn(Seq<char>) -> Option<TypeView>, name: Seq<char>, t: TypeView) -> spec_fn(
    Seq<char>,
) -> Option<TypeView> {
    |n: Seq<char>|
        if n == name {
            Some(t)
        } else {
            env(n)
        }
}

/// An expression made of literals, constants, variables, blocks, unary operations,
/// arithmetic, comparison and logical operations, calls of the built-in functions, loops,
/// conditionals whose two branches have the same type, `let`s without type annotations
/// (each variable takes the type of its initializer, which the later initializers and the
/// body see), and assignments to a variable of a `Number`, `String` or `Boolean` of one of
/// these types, in which no operand's, argument's, condition's or initializer's type is a
/// type variable.
pub open spec fn plain_in(env: spec_fn(Seq<char>) -> Option<TypeView>, e: Expr) -> bool
    decreases e,
{
    match e {
        Expr::Number(_) | Expr::String(_) | Expr::Bool(_) | Expr::Const(_) | Expr::Variable(_) => true,
        Expr::Block(x) => forall|i: int| 0 <= i < x.expressions@.len() ==> plain_in(env, #[trigger] *x.expressions@[i]),
        Expr::BinaryOp(x) => typed_operands(x.op) && plain_in(env, *x.left) && plain_in(env, *x.right) && !(plain_type_in(
            env,
            *x.left,
        ) is Var) && !(plain_type_in(env, *x.right) is Var),
        Expr::UnaryOp(x) => plain_in(env, *x.expr) && !(plain_type_in(env, *x.expr) is Var),
        Expr::If(x) => plain_in(env, *x.condition) && plain_in(env, *x.then_branch) && plain_in(env, *x.else_branch)
            && !(plain_type_in(env, *x.condition) is Var) && plain_type_in(env, *x.then_branch) == plain_type_in(
            env,
            *x.else_branch,
        ),
        Expr::DestructiveAssign(x) => *x.lhs matches Expr::Variable(v) && v.name@ != "self"@ && base_type(
            plain_type_in(env, *x.lhs),
        ) && plain_in(env, *x.value) && base_type(plain_type_in(env, *x.value)),
        Expr::Let(x) => (forall|i: int|
            0 <= i < x.bindings@.len() ==> (#[trigger] x.bindings@[i]).1 is None && plain_in(
                let_env(env, x, i),
                *x.bindings@[i].2,
            ) && !(plain_type_in(let_env(env, x, i), *x.bindings@[i].2) is Var)) && plain_in(
            let_env(env, x, x.bindings@.len() as int),
            *x.body,
        ),
        Expr::While(x) => plain_in(env, *x.condition) && plain_in(env, *x.body) && !(plain_type_in(
            env,
            *x.condition,
        ) is Var),
        Expr::Call(x) => crate::visit_call::builtin_function(x.func@) && forall|i: int|
            0 <= i < x.args@.len() ==> plain_in(env, #[trigger] *x.args@[i]) && !(plain_type_in(env, *x.args@[i]) is Var),
        _ => false,
    }
}

/// The error that unifying an operand of type `t` with `want` records at `span`: none when
/// they are the same base type, a mismatch otherwise.
pub open spec fn operand_error(t: TypeView, want: TypeView, span: Span) -> Seq<Option<(Seq<char>, Span)>> {
    if crate::inference::same_base(t, want) {
        Seq::empty()
    } else {
        seq![Some((crate::inference::unify_error(t, want), span))]
    }
}

/// The errors that checking a plain expression records, in order, under the declarations
/// `env`: one "Undefined variable" error, at the variable's span, for each use of
/// a variable that no scope declares; one mismatch error at each operand or argument whose
/// type is not the one its operator or built-in function needs; and one error at a call
/// of a built-in function with the wrong number of arguments (whose arguments are then
/// not checked).
pub open spec fn plain_errors_in(env: spec_fn(Seq<char>) -> Option<TypeView>, e: Expr) -> Seq<Option<(Seq<char>, Span)>>
    decreases e, 0int,
{
    match e {
        Expr::Variable(x) => if env(x.name@) is Some {
            Seq::empty()
        } else {
            seq![Some(("Undefined variable '"@ + x.name@ + "'"@, x.span))]
        },
        Expr::Block(x) => plain_errors_upto_in(env, x, x.expressions@.len() as int),
        Expr::DestructiveAssign(x) => plain_errors_in(env, *x.value) + (if plain_type_in(env, *x.value)
            == plain_type_in(env, *x.lhs) {
            Seq::empty()
        } else {
            seq![
                Some(
                    (
                        "Cannot assign "@ + type_debug(plain_type_in(env, *x.value)) + " to expression of type "@
                            + type_debug(plain_type_in(env, *x.lhs)),
                        x.span,
                    ),
                ),
            ]
        }),
        Expr::Let(x) => let_errors(env, x, x.bindings@.len() as int) + plain_errors_in(
            let_env(env, x, x.bindings@.len() as int),
            *x.body,
        ),
        Expr::BinaryOp(x) => plain_errors_in(env, *x.left) + plain_errors_in(env, *x.right) + operand_error(
            plain_type_in(env, *x.left),
            operand_type(x.op),
            expr_span(*x.left),
        ) + operand_error(plain_type_in(env, *x.right), operand_type(x.op), expr_span(*x.right)),
        Expr::UnaryOp(x) => plain_errors_in(env, *x.expr) + operand_error(
            plain_type_in(env, *x.expr),
            unop_result(x.op),
            expr_span(*x.expr),
        ),
        Expr::If(x) => plain_errors_in(env, *x.condition) + condition_error(
            plain_type_in(env, *x.condition),
            "If condition must be Boolean"@,
            expr_span(*x.condition),
        ) + plain_errors_in(env, *x.then_branch) + plain_errors_in(env, *x.else_branch),
        Expr::While(x) => plain_errors_in(env, *x.condition) + condition_error(
            plain_type_in(env, *x.condition),
            "While condition must be Boolean"@,
            expr_span(*x.condition),
        ) + plain_errors_in(env, *x.body),
        Expr::Call(x) => {
            let f = x.func@;
            let n = x.args@.len();
            if crate::visit_call::math_function(f) {
                if n == 1 {
                    plain_errors_in(env, *x.args@[0]) + operand_error(
                        plain_type_in(env, *x.args@[0]),
                        TypeView::Number,
                        expr_span(*x.args@[0]),
                    )
                } else {
                    seq![Some(("Function takes 1 argument"@, x.span))]
                }
            } else if f == "rand"@ {
                if n == 0 {
                    Seq::empty()
                } else {
                    seq![Some(("rand takes 0 arguments"@, x.span))]
                }
            } else if f == "log"@ || f == "range"@ {
                if n == 2 {
                    plain_errors_in(env, *x.args@[0]) + plain_errors_in(env, *x.args@[1]) + operand_error(
                        plain_type_in(env, *x.args@[0]),
                        TypeView::Number,
                        expr_span(*x.args@[0]),
                    ) + operand_error(plain_type_in(env, *x.args@[1]), TypeView::Number, expr_span(*x.args@[1]))
                } else if f == "log"@ {
                    seq![Some(("log expects 2 arguments"@, x.span))]
                } else {
                    seq![Some(("range expects 2 arguments"@, x.span))]
                }
            } else if f == "print"@ {
                if n == 1 {
                    plain_errors_in(env, *x.args@[0])
                } else {
                    seq![Some(("print expects 1 argument"@, x.span))]
                }
            } else {
                Seq::empty()
            }
        },
        _ => Seq::empty(),
    }
}

/// The errors that checking the first `k` initializers of a plain `let` records.
pub open spec fn let_errors(env: spec_fn(Seq<char>) -> Option<TypeView>, x: LetExpr, k: int) -> Seq<
    Option<(Seq<char>, Span)>,
>
    decreases x, k,
{
    if k <= 0 || k > x.bindings@.len() {
        Seq::empty()
    } else {
        let_errors(env, x, k - 1) + plain_errors_in(let_env(env, x, k - 1), *x.bindings@[k - 1].2)
    }
}

/// The errors that checking the first `n` expressions of a block records.
pub open spec fn plain_errors_upto_in(
    env: spec_fn(Seq<char>) -> Option<TypeView>,
    x: BlockExpr,
    n: int,
) -> Seq<Option<(Seq<char>, Span)>>
    decreases x, n,
{
    if n <= 0 || n > x.expressions@.len() {
        Seq::empty()
    } else {
        plain_errors_upto_in(env, x, n - 1) + plain_errors_in(env, *x.expressions@[n - 1])
    }
}

/// What the variable scopes `scopes` declare: the type of each name's innermost
/// declaration.
pub open spec fn env_of(scopes: Seq<Vec<(String, HulkType)>>) -> spec_fn(Seq<char>) -> Option<TypeView> {
    |n: Seq<char>|
        match scope_lookup(scopes, n) {
            Some(t) => Some(t@),
            None => None,
        }
}

/// A plain expression (see `plain_in`) under the variable scopes `scopes`.
pub open spec fn plain(scopes: Seq<Vec<(String, HulkType)>>, e: Expr) -> bool {
    plain_in(env_of(scopes), e)
}

/// The type that checking a plain expression gives under the variable scopes `scopes`.
pub open spec fn plain_type(scopes: Seq<Vec<(String, HulkType)>>, e: Expr) -> TypeView {
    plain_type_in(env_of(scopes), e)
}

/// The errors that checking a plain expression records under the variable scopes `scopes`.
pub open spec fn plain_errors(scopes: Seq<Vec<(String, HulkType)>>, e: Expr) -> Seq<Option<(Seq<char>, Span)>> {
    plain_errors_in(env_of(scopes), e)
}

/// The errors that checking the first `n` expressions of a plain block records under the
/// variable scopes `scopes`.
pub open spec fn plain_errors_upto(scopes: Seq<Vec<(String, HulkType)>>, x: BlockExpr, n: int) -> Seq<
    Option<(Seq<char>, Span)>,
> {
    plain_errors_upto_in(env_of(scopes), x, n)
}

/// The checker went from `a` to `b` by unifying `t1` with `t2`: when the resolved types
/// unify, no error is recorded and both now resolve alike; otherwise exactly one type error
/// is recorded, at `span`, with the unifier's message, and resolution is unchanged.
pub(crate) open spec fn unify_reported(a: TypeChecker, b: TypeChecker, t1: TypeView, t2: TypeView, span: Span) -> bool {
    let ra = a.unifier.resolved(t1);
    let rb = a.unifier.resolved(t2);
    if unifiable(a.unifier.constraint_map(), ra, rb) {
        &&& b.errors == a.errors
        &&& b.unifier.resolved(t1) == b.unifier.resolved(t2)
    } else {
        &&& b.errors@.len() == a.errors@.len() + 1
        &&& b.errors@.drop_last() == a.errors@
        &&& b.errors@.last() matches CompilerError::TypeError { msg, span: s } && s == span && msg@
            == unify_failure(ra, rb)
        &&& forall|x: TypeView| #[trigger] b.unifier.resolved(x) == a.unifier.resolved(x)
    }
}

/// Unifying an operand whose type is not a variable with a type that is not one either
/// records the operand's mismatch error, if any.
pub(crate) proof fn lemma_plain_operand(a: TypeChecker, b: TypeChecker, t: TypeView, want: TypeView, span: Span)
    requires
        a.unifier.wf(),
        !(t is Var),
        !(want is Var),
        unify_reported(a, b, t, want, span),
    ensures
        error_list(b.errors@) == error_list(a.errors@) + operand_error(t, want, span),
{
    a.unifier.lemma_resolved_non_var(t);
    a.unifier.lemma_resolved_non_var(want);
    assert(error_list(b.errors@) =~= error_list(a.errors@) + operand_error(t, want, span));
}

proof fn lemma_plain_binop(
    s0: TypeChecker,
    s1: TypeChecker,
    s2: TypeChecker,
    s3: TypeChecker,
    sl: TypeChecker,
    sr: TypeChecker,
    x0: BinaryOpExpr,
    tl: TypeView,
    tr: TypeView,
)
    requires
        plain(s0.scopes@, Expr::BinaryOp(x0)),
        error_list(s1.errors@) == error_list(s0.errors@) + plain_errors(s0.scopes@, *x0.left),
        error_list(s2.errors@) == error_list(s1.errors@) + plain_errors(s0.scopes@, *x0.right),
        s3.errors == s2.errors,
        tl == plain_type(s0.scopes@, *x0.left),
        tr == plain_type(s0.scopes@, *x0.right),
        s3.unifier.wf(),
        sl.unifier.wf(),
        unify_reported(s3, sl, tl, operand_type(x0.op), expr_span(*x0.left)),
        unify_reported(sl, sr, tr, operand_type(x0.op), expr_span(*x0.right)),
    ensures
        error_list(sr.errors@) == error_list(s0.errors@) + plain_errors(s0.scopes@, Expr::BinaryOp(x0)),
{
    let want = operand_type(x0.op);
    s3.unifier.lemma_resolved_non_var(tl);
    s3.unifier.lemma_resolved_non_var(want);
    sl.unifier.lemma_resolved_non_var(tr);
    sl.unifier.lemma_resolved_non_var(want);
    assert(error_list(sl.errors@) =~= error_list(s3.errors@) + operand_error(tl, want, expr_span(*x0.left)));
    assert(error_list(sr.errors@) =~= error_list(sl.errors@) + operand_error(tr, want, expr_span(*x0.right)));
    assert(error_list(sr.errors@) =~= error_list(s0.errors@) + plain_errors(s0.scopes@, Expr::BinaryOp(x0)));
}

impl TypeChecker {
    pub(crate) proof fn lemma_step_trans(a: TypeChecker, b: TypeChecker, c: TypeChecker)
        requires
            a.expr_step(&b),
            b.expr_step(&c),
        ensures
            a.expr_step(&c),
    {
        lemma_prefix_trans(a.errors@, b.errors@, c.errors@);
        crate::inference::Unifier::lemma_refines_trans(a.unifier, b.unifier, c.unifier);
    }

    pub(crate) proof fn lemma_step_refl(a: TypeChecker)
        requires
            a.wf(),
        ensures
            a.expr_step(&a),
    {
        lemma_prefix_refl(a.errors@);
        a.reveal_wf();
        a.unifier.lemma_refines_refl();
    }

    /// Unifies two types; a failure is recorded as a type error at `span`.
    pub(crate) fn unify_report(&mut self, a: &HulkType, b: &HulkType, span: Span) -> (ok: bool)
        requires
            old(self).wf(),
        ensures
            old(self).expr_step(&*final(self)),
            unify_reported(*old(self), *final(self), a@, b@, span),
            ok <==> unifiable(
                old(self).unifier.constraint_map(),
                old(self).unifier.resolved(a@),
                old(self).unifier.resolved(b@),
            ),
            ok ==> final(self).unifier.resolved(a@) == final(self).unifier.resolved(b@),
            ok ==> final(self).errors == old(self).errors,
            !ok ==> final(self).errors@.len() == old(self).errors@.len() + 1,
    {
        proof {
            old(self).reveal_wf();
        }
        let ghost u0 = self.unifier;
        let r = self.unifier.unify(a, b);
        proof {
            self.reveal_wf();
            lemma_prefix_refl(self.errors@);
            if r is Ok {
                u0.lemma_refines_update(self.unifier, u0.resolved(a@), u0.resolved(b@));
            } else {
                u0.lemma_refines_same(self.unifier);
            }
        }
        match r {
            Ok(()) => true,
            Err(msg) => {
                self.add_type_error(msg, span);
                proof {
                    lemma_prefix_push(old(self).errors@, self.errors@.last());
                    assert(self.errors@.drop_last() =~= old(self).errors@);
                }
                false
            },
        }
    }

    /// Records a type error (checking variant).
    pub(crate) fn report(&mut self, msg: String, span: Span)
        requires
            old(self).wf(),
        ensures
            old(self).expr_step(&*final(self)),
            final(self).errors@.len() == old(self).errors@.len() + 1,
            final(self).errors@ == old(self).errors@.push(CompilerError::TypeError { msg, span }),
            final(self).unifier == old(self).unifier,
    {
        self.add_type_error(msg, span);
        proof {
            lemma_prefix_push(old(self).errors@, CompilerError::TypeError { msg, span });
            old(self).reveal_wf();
            old(self).unifier.lemma_refines_refl();
        }
    }

    /// An operand of a concatenation: a type variable is constrained to `String` or
    /// `Number`; another type must be compatible with one of them.
    pub(crate) fn add_string_or_number_constraint(&mut self, ty: &HulkType, span: Span)
        requires
            old(self).wf(),
        ensures
            old(self).expr_step(&*final(self)),
    {
        proof {
            old(self).reveal_wf();
        }
        if let HulkType::Var(id) = ty {
            self.unifier.add_constraint(*id, Constraint::StringOrNumber);
            proof {
                self.reveal_wf();
                lemma_prefix_refl(self.errors@);
                old(self).unifier.lemma_refines_same(self.unifier);
            }
        } else {
            let ok = ty.is_compatible_with(&HulkType::String) || ty.is_compatible_with(&HulkType::Number);
            if !ok {
                self.report(String::from_str("Operand must be String or Number"), span);
            } else {
                proof {
                    lemma_prefix_refl(self.errors@);
                    old(self).unifier.lemma_refines_refl();
                }
            }
        }
    }

    /// An operand that must be `String` or `Number`: a type variable is unified with
    /// `String`, or else with `Number`; another type must be compatible with one of them.
    pub(crate) fn unify_string_or_number(&mut self, ty: &HulkType, span: Span)
        requires
            old(self).wf(),
        ensures
            old(self).expr_step(&*final(self)),
    {
        proof {
            old(self).reveal_wf();
        }
        if let HulkType::Var(_) = ty {
            let ghost u0 = self.unifier;
            let r1 = self.unifier.unify(ty, &HulkType::String);
            proof {
                if r1 is Ok {
                    u0.lemma_refines_update(self.unifier, u0.resolved(ty@), u0.resolved(TypeView::String));
                } else {
                    u0.lemma_refines_same(self.unifier);
                }
            }
            if r1.is_err() {
                let ghost u1 = self.unifier;
                let r2 = self.unifier.unify(ty, &HulkType::Number);
                proof {
                    if r2 is Ok {
                        u1.lemma_refines_update(self.unifier, u1.resolved(ty@), u1.resolved(TypeView::Number));
                    } else {
                        u1.lemma_refines_same(self.unifier);
                    }
                    crate::inference::Unifier::lemma_refines_trans(u0, u1, self.unifier);
                }
                if r2.is_err() {
                    proof {
                        self.reveal_wf();
                    }
                    let ghost s1 = *self;
                    self.report(String::from_str("Operand must be String or Number"), span);
                    proof {
                        crate::inference::Unifier::lemma_refines_trans(u0, s1.unifier, self.unifier);
                    }
                    return;
                }
            }
            proof {
                self.reveal_wf();
                lemma_prefix_refl(self.errors@);
            }
        } else {
            let ok = ty.is_compatible_with(&HulkType::String) || ty.is_compatible_with(&HulkType::Number);
            if !ok {
                self.report(String::from_str("Operand must be String or Number"), span);
            } else {
                proof {
                    lemma_prefix_refl(self.errors@);
                    old(self).unifier.lemma_refines_refl();
                }
            }
        }
    }
}

/// Result type of a binary operator: `Number` for arithmetic, `String` for the
/// concatenations, `Boolean` for comparisons and logic.
pub open spec fn binop_result(op: BinOp) -> TypeView {
    match op {
        BinOp::Add | BinOp::Sub | BinOp::Mul | BinOp::Div | BinOp::Pow | BinOp::Mod => TypeView::Number,
        BinOp::Concat | BinOp::ConcatSpace => TypeView::String,
        _ => TypeView::Boolean,
    }
}

/// The error that a condition of type `t` records at `span`: none for `Boolean`, the
/// message `msg` otherwise.
pub open spec fn condition_error(t: TypeView, msg: Seq<char>, span: Span) -> Seq<Option<(Seq<char>, Span)>> {
    if t is Boolean {
        Seq::empty()
    } else {
        seq![Some((msg, span))]
    }
}

/// The type that a unary operation needs and gives: `Boolean` for `!`, `Number` for `-`.
pub open spec fn unop_result(op: UnaryOp) -> TypeView {
    match op {
        UnaryOp::Not => TypeView::Boolean,
        UnaryOp::Neg => TypeView::Number,
    }
}

/// The type that both operands of an arithmetic, comparison or logical operator must have.
pub open spec fn operand_type(op: BinOp) -> TypeView {
    match op {
        BinOp::And | BinOp::Or => TypeView::Boolean,
        _ => TypeView::Number,
    }
}

/// Arithmetic, comparison and logical operators: both operands are unified with one type.
pub open spec fn typed_operands(op: BinOp) -> bool {
    !(op is Eq || op is Neq || op is Concat || op is ConcatSpace)
}

/// The meaning of a recorded type under a substitution.
pub open spec fn slot_type(u: Unifier, t: Option<HulkType>) -> Option<TypeView> {
    match t {
        Some(x) => Some(u.resolved(x@)),
        None => None,
    }
}

/// What a binary operation that was checked without error guarantees of the types of
/// its operands `l` and `r` and of its own type `res`: arithmetic needs and gives
/// numbers, comparisons need numbers and give a boolean, logic needs and gives booleans,
/// equality gives a boolean, concatenation a string.
pub open spec fn binop_ok(op: BinOp, l: Option<TypeView>, r: Option<TypeView>, res: Option<TypeView>) -> bool {
    match op {
        BinOp::Add | BinOp::Sub | BinOp::Mul | BinOp::Div | BinOp::Pow | BinOp::Mod => l == Some(TypeView::Number)
            && r == Some(TypeView::Number) && res == Some(TypeView::Number),
        BinOp::Lt | BinOp::Gt | BinOp::Leq | BinOp::Geq => l == Some(TypeView::Number) && r == Some(
            TypeView::Number,
        ) && res == Some(TypeView::Boolean),
        BinOp::And | BinOp::Or => l == Some(TypeView::Boolean) && r == Some(TypeView::Boolean) && res == Some(
            TypeView::Boolean,
        ),
        BinOp::Eq | BinOp::Neq => res == Some(TypeView::Boolean),
        BinOp::Concat | BinOp::ConcatSpace => res == Some(TypeView::String),
    }
}

/// What a unary operation that was checked without error guarantees: `!` needs and gives
/// a boolean, `-` a number.
pub open spec fn unop_ok(op: UnaryOp, operand: Option<TypeView>, res: Option<TypeView>) -> bool {
    match op {
        UnaryOp::Not => operand == Some(TypeView::Boolean) && res == Some(TypeView::Boolean),
        UnaryOp::Neg => operand == Some(TypeView::Number) && res == Some(TypeView::Number),
    }
}

/// The guarantees of a successful check for an expression, under the substitution `u`:
/// every operator inside it, through blocks, conditionals, loops, `let`, assignments,
/// function calls, method calls and attribute accesses, has operands and a result of the
/// types that the operator needs and gives.
pub open spec fn well_typed(e: Expr, u: Unifier) -> bool
    decreases e,
{
    match e {
        Expr::Call(x) => forall|i: int| 0 <= i < x.args@.len() ==> well_typed(*x.args@[i], u),
        Expr::BinaryOp(x) => binop_ok(
            x.op,
            slot_type(u, expr_ty(*x.left)),
            slot_type(u, expr_ty(*x.right)),
            slot_type(u, x.ty),
        ) && well_typed(*x.left, u) && well_typed(*x.right, u),
        Expr::UnaryOp(x) => unop_ok(x.op, slot_type(u, expr_ty(*x.expr)), slot_type(u, x.ty)) && well_typed(
            *x.expr,
            u,
        ),
        Expr::Let(x) => (forall|i: int| 0 <= i < x.bindings@.len() ==> well_typed(*x.bindings@[i].2, u))
            && well_typed(*x.body, u),
        Expr::DestructiveAssign(x) => well_typed(*x.lhs, u) && well_typed(*x.value, u),
        Expr::Block(x) => forall|i: int| 0 <= i < x.expressions@.len() ==> well_typed(*x.expressions@[i], u),
        Expr::If(x) => well_typed(*x.condition, u) && well_typed(*x.then_branch, u) && well_typed(
            *x.else_branch,
            u,
        ),
        Expr::While(x) => well_typed(*x.condition, u) && well_typed(*x.body, u),
        Expr::MethodCall(x) => well_typed(*x.object, u) && forall|i: int|
            0 <= i < x.args@.len() ==> well_typed(*x.args@[i], u),
        Expr::AttributeAccess(x) => well_typed(*x.object, u),
        _ => true,
    }
}

/// The guarantees stay under a refinement of the substitution.
pub proof fn lemma_well_typed_refines(e: Expr, a: Unifier, b: Unifier)
    requires
        well_typed(e, a),
        a.refined_by(b),
        b.wf(),
    ensures
        well_typed(e, b),
    decreases e,
{
    match e {
        Expr::BinaryOp(x) => {
            if let Some(t) = expr_ty(*x.left) {
                if !(a.resolved(t@) is Var) {
                    a.lemma_refines_keeps(b, t@);
                }
            }
            if let Some(t) = expr_ty(*x.right) {
                if !(a.resolved(t@) is Var) {
                    a.lemma_refines_keeps(b, t@);
                }
            }
            if let Some(t) = x.ty {
                a.lemma_refines_keeps(b, t@);
            }
            lemma_well_typed_refines(*x.left, a, b);
            lemma_well_typed_refines(*x.right, a, b);
        },
        Expr::UnaryOp(x) => {
            if let Some(t) = expr_ty(*x.expr) {
                a.lemma_refines_keeps(b, t@);
            }
            if let Some(t) = x.ty {
                a.lemma_refines_keeps(b, t@);
            }
            lemma_well_typed_refines(*x.expr, a, b);
        },
        Expr::Let(x) => {
            assert forall|i: int| 0 <= i < x.bindings@.len() implies well_typed(*x.bindings@[i].2, b) by {
                lemma_well_typed_refines(*x.bindings@[i].2, a, b);
            }
            lemma_well_typed_refines(*x.body, a, b);
        },
        Expr::DestructiveAssign(x) => {
            lemma_well_typed_refines(*x.lhs, a, b);
            lemma_well_typed_refines(*x.value, a, b);
        },
        Expr::Block(x) => {
            assert forall|i: int| 0 <= i < x.expressions@.len() implies well_typed(*x.expressions@[i], b) by {
                lemma_well_typed_refines(*x.expressions@[i], a, b);
            }
        },
        Expr::If(x) => {
            lemma_well_typed_refines(*x.condition, a, b);
            lemma_well_typed_refines(*x.then_branch, a, b);
            lemma_well_typed_refines(*x.else_branch, a, b);
        },
        Expr::While(x) => {
            lemma_well_typed_refines(*x.condition, a, b);
            lemma_well_typed_refines(*x.body, a, b);
        },
        Expr::MethodCall(x) => {
            lemma_well_typed_refines(*x.object, a, b);
            assert forall|i: int| 0 <= i < x.args@.len() implies well_typed(*x.args@[i], b) by {
                lemma_well_typed_refines(*x.args@[i], a, b);
            }
        },
        Expr::AttributeAccess(x) => {
            lemma_well_typed_refines(*x.object, a, b);
        },
        Expr::Call(x) => {
            assert forall|i: int| 0 <= i < x.args@.len() implies well_typed(*x.args@[i], b) by {
                lemma_well_typed_refines(*x.args@[i], a, b);
            }
        },
        _ => {},
    }
}

/// A guarantee made at checker state `a` still holds at a later state `b` in which no
/// error has been added since the guarantee's base.
pub(crate) proof fn lemma_lift(e: Expr, a: TypeChecker, b: TypeChecker, base: int)
    requires
        a.expr_step(&b),
        a.errors@.len() == base ==> well_typed(e, a.unifier),
        b.errors@.len() == base,
        a.errors@.len() >= base,
    ensures
        well_typed(e, b.unifier),
{
    b.reveal_wf();
    lemma_well_typed_refines(e, a.unifier, b.unifier);
}

/// An operand whose unification with `want` succeeded under `u_at` has type `want` under
/// every refinement of `u_at`.
proof fn lemma_operand(u_at: Unifier, u_fin: Unifier, t: HulkType, slot: Option<HulkType>, want: TypeView)
    requires
        u_at.wf(),
        u_fin.wf(),
        u_at.refined_by(u_fin),
        u_at.resolved(t@) == u_at.resolved(want),
        !(want is Var),
        !(want is Error),
        slot == Some(t) || t is Error,
    ensures
        slot_type(u_fin, slot) == Some(want),
{
    u_at.lemma_resolved_non_var(want);
    u_at.lemma_resolved_non_var(TypeView::Error);
    u_at.lemma_refines_keeps(u_fin, t@);
}

impl TypeChecker {
    /// Infers and checks the type of an expression and records it on the node.
    pub(crate) fn visit_expr(&mut self, e: &mut Expr) -> (res: HulkType)
        requires
            old(self).wf(),
        ensures
            old(self).expr_step(&*final(self)),
            same_shape(*old(e), *final(e)),
            expr_ty(*final(e)) == Some(res) || res is Error,
            *old(e) is Number ==> res is Number,
            *old(e) is String ==> res is String,
            *old(e) is Bool ==> res is Boolean,
            *old(e) is Const ==> res is Number,
            final(self).errors@.len() == old(self).errors@.len() ==> well_typed(*final(e), final(self).unifier),
            plain(old(self).scopes@, *old(e)) ==> res@ == plain_type(old(self).scopes@, *old(e)) && error_list(
                final(self).errors@,
            ) == error_list(old(self).errors@) + plain_errors(old(self).scopes@, *old(e)),
        decreases *old(e),
    {
        match e {
            Expr::Number(x) => self.visit_number(x),
            Expr::BinaryOp(x) => self.visit_binary_op(x),
            Expr::String(x) => self.visit_string(x),
            Expr::Call(x) => self.visit_call(x),
            Expr::Const(x) => self.visit_const(x),
            Expr::Bool(x) => self.visit_bool(x),
            Expr::UnaryOp(x) => self.visit_unary_op(x),
            Expr::Variable(x) => self.visit_variable(x),
            Expr::Let(x) => self.visit_let(x),
            Expr::DestructiveAssign(x) => self.visit_assign(x),
            Expr::Block(x) => self.visit_block(x),
            Expr::If(x) => self.visit_if(x),
            Expr::While(x) => self.visit_while(x),
            Expr::New(x) => self.visit_new(x),
            Expr::MethodCall(x) => self.visit_method_call(x),
            Expr::SelfExpr(x) => self.visit_self(x),
            Expr::Base(x) => self.visit_base(x),
            Expr::AttributeAccess(x) => self.visit_attribute_access(x),
        }
    }

    /// A number literal is a `Number`.
    pub(crate) fn visit_number(&mut self, x: &mut NumberExpr) -> (res: HulkType)
        requires
            old(self).wf(),
        ensures
            *final(self) == *old(self),
            old(self).expr_step(&*final(self)),
            final(x).value == old(x).value && final(x).span == old(x).span,
            final(x).ty == Some(res),
            res is Number,
        decreases *old(x),
    {
        proof {
            TypeChecker::lemma_step_refl(*self);
        }
        x.ty = Some(HulkType::Number);
        HulkType::Number
    }

    /// A string literal is a `String`.
    pub(crate) fn visit_string(&mut self, x: &mut StringExpr) -> (res: HulkType)
        requires
            old(self).wf(),
        ensures
            *final(self) == *old(self),
            old(self).expr_step(&*final(self)),
            final(x).value == old(x).value && final(x).span == old(x).span,
            final(x).ty == Some(res),
            res is String,
        decreases *old(x),
    {
        proof {
            TypeChecker::lemma_step_refl(*self);
        }
        x.ty = Some(HulkType::String);
        HulkType::String
    }

    /// A named constant is a `Number`.
    pub(crate) fn visit_const(&mut self, x: &mut ConstExpr) -> (res: HulkType)
        requires
            old(self).wf(),
        ensures
            *final(self) == *old(self),
            old(self).expr_step(&*final(self)),
            final(x).name == old(x).name && final(x).span == old(x).span,
            final(x).ty == Some(res),
            res is Number,
        decreases *old(x),
    {
        proof {
            TypeChecker::lemma_step_refl(*self);
        }
        x.ty = Some(HulkType::Number);
        HulkType::Number
    }

    /// A boolean literal is a `Boolean`.
    pub(crate) fn visit_bool(&mut self, x: &mut BoolExpr) -> (res: HulkType)
        requires
            old(self).wf(),
        ensures
            *final(self) == *old(self),
            old(self).expr_step(&*final(self)),
            final(x).value == old(x).value && final(x).span == old(x).span,
            final(x).ty == Some(res),
            res is Boolean,
        decreases *old(x),
    {
        proof {
            TypeChecker::lemma_step_refl(*self);
        }
        x.ty = Some(HulkType::Boolean);
        HulkType::Boolean
    }

    /// A variable has the type it was declared with in the nearest scope; an undeclared
    /// one is an error.
    pub(crate) fn visit_variable(&mut self, x: &mut VariableExpr) -> (res: HulkType)
        requires
            old(self).wf(),
        ensures
            old(self).expr_step(&*final(self)),
            final(x).name == old(x).name && final(x).span == old(x).span,
            final(x).ty == Some(res),
            match scope_lookup(old(self).scopes@, old(x).name@) {
                Some(t) => res == t && final(self).errors == old(self).errors,
                None => res is Error && final(self).errors@.len() == old(self).errors@.len() + 1
                    && final(self).errors@.drop_last() == old(self).errors@ && (final(self).errors@.last() matches CompilerError::TypeError { msg, span } && msg@
                    == "Undefined variable '"@ + old(x).name@ + "'"@ && span == old(x).span),
            },
        decreases *old(x),
    {
        match self.lookup_var(x.name.as_str()) {
            Some(ty) => {
                proof {
                    TypeChecker::lemma_step_refl(*self);
                }
                x.ty = Some(ty.clone());
                ty
            },
            None => {
                let mut msg = cat("Undefined variable '", x.name.as_str());
                msg.append("'");
                self.report(msg, x.span);
                x.ty = Some(HulkType::Error);
                HulkType::Error
            },
        }
    }

    /// `self` has the type of the enclosing method's class.
    pub(crate) fn visit_self(&mut self, x: &mut SelfExpr) -> (res: HulkType)
        requires
            old(self).wf(),
        ensures
            old(self).expr_step(&*final(self)),
            final(x).span == old(x).span,
            final(x).ty == Some(res) || res is Error,
            scope_lookup(old(self).scopes@, "self"@) matches Some(t) ==> res == t,
        decreases *old(x),
    {
        proof {
            reveal_strlit("self");
        }
        if let Some(ty) = self.lookup_var("self") {
            proof {
                TypeChecker::lemma_step_refl(*self);
            }
            x.ty = Some(ty.clone());
            ty
        } else if let Some(tn) = &self.current_type {
            let ty = HulkType::Class(tn.clone());
            proof {
                TypeChecker::lemma_step_refl(*self);
            }
            x.ty = Some(ty.clone());
            ty
        } else {
            self.report(String::from_str("'self' used outside of method"), x.span);
            HulkType::Error
        }
    }

    /// A binary operation: the operands are unified with what the operator needs (a failure
    /// is one error at the operand's span), and the result is always the operator's type.
    #[verifier::rlimit(40)]
    pub(crate) fn visit_binary_op(&mut self, x: &mut BinaryOpExpr) -> (res: HulkType)
        requires
            old(self).wf(),
        ensures
            old(self).expr_step(&*final(self)),
            same_shape(Expr::BinaryOp(*old(x)), Expr::BinaryOp(*final(x))),
            final(x).ty == Some(res),
            res@ == binop_result(old(x).op),
            typed_operands(old(x).op) ==> exists|m1: TypeChecker, m2: TypeChecker|
                #![trigger arg_unified(m1, m2, *final(x).left, operand_type(old(x).op)), arg_unified(m2, *final(self), *final(x).right, operand_type(old(x).op))]
                old(self).expr_step(&m1) && arg_unified(m1, m2, *final(x).left, operand_type(old(x).op))
                    && arg_unified(m2, *final(self), *final(x).right, operand_type(old(x).op)),
            final(self).errors@.len() == old(self).errors@.len() ==> well_typed(
                Expr::BinaryOp(*final(x)),
                final(self).unifier,
            ),
            plain(old(self).scopes@, Expr::BinaryOp(*old(x))) ==> error_list(final(self).errors@) == error_list(
                old(self).errors@,
            ) + plain_errors(old(self).scopes@, Expr::BinaryOp(*old(x))),
        decreases *old(x),
    {
        let ghost s0 = *self;
        let ghost x0 = *x;
        let left_ty = self.visit_expr(&mut x.left);
        let ghost s1 = *self;
        let right_ty = self.visit_expr(&mut x.right);
        let ghost s2 = *self;
        proof {
            TypeChecker::lemma_step_trans(s0, s1, s2);
        }
        // The result gets a fresh type variable, which nothing else refers to: the result
        // is the operator's type.
        let _result_var = self.fresh_var();
        let ghost s3 = *self;
        proof {
            lemma_prefix_refl(s2.errors@);
            TypeChecker::lemma_step_trans(s0, s2, s3);
            TypeChecker::lemma_step_trans(s1, s2, s3);
        }
        let ok;
        let ok_l: bool;
        let ok_r: bool;
        let ghost mut sl = s3;
        let ghost mut sr = s3;
        match x.op {
            BinOp::Add | BinOp::Sub | BinOp::Mul | BinOp::Div | BinOp::Pow | BinOp::Mod => {
                ok_l = self.unify_report(&left_ty, &HulkType::Number, x.left.span());
                proof {
                    sl = *self;
                }
                ok_r = self.unify_report(&right_ty, &HulkType::Number, x.right.span());
                proof {
                    sr = *self;
                }
                ok = true;
            },
            BinOp::Concat | BinOp::ConcatSpace => {
                self.add_string_or_number_constraint(&left_ty, x.left.span());
                proof {
                    sl = *self;
                }
                self.add_string_or_number_constraint(&right_ty, x.right.span());
                proof {
                    sr = *self;
                }
                ok_l = true;
                ok_r = true;
                ok = true;
            },
            BinOp::Eq | BinOp::Neq => {
                self.unify_report(&left_ty, &right_ty, x.span);
                proof {
                    sl = *self;
                    sr = *self;
                    TypeChecker::lemma_step_refl(*self);
                }
                ok_l = true;
                ok_r = true;
                ok = true;
            },
            BinOp::Lt | BinOp::Gt | BinOp::Leq | BinOp::Geq => {
                ok_l = self.unify_report(&left_ty, &HulkType::Number, x.left.span());
                proof {
                    sl = *self;
                }
                ok_r = self.unify_report(&right_ty, &HulkType::Number, x.right.span());
                proof {
                    sr = *self;
                }
                ok = true;
            },
            BinOp::And | BinOp::Or => {
                ok_l = self.unify_report(&left_ty, &HulkType::Boolean, x.left.span());
                proof {
                    sl = *self;
                }
                ok_r = self.unify_report(&right_ty, &HulkType::Boolean, x.right.span());
                proof {
                    sr = *self;
                }
                ok = true;
            },
        }
        proof {
            TypeChecker::lemma_step_refl(*self);
            TypeChecker::lemma_step_trans(s3, sl, sr);
            TypeChecker::lemma_step_trans(s3, sr, *self);
            TypeChecker::lemma_step_trans(sl, sr, *self);
            TypeChecker::lemma_step_trans(s0, s3, *self);
            TypeChecker::lemma_step_trans(s1, s3, *self);
            TypeChecker::lemma_step_trans(s2, s3, *self);
            self.reveal_wf();
            if plain(s0.scopes@, Expr::BinaryOp(x0)) {
                assert(s1.scopes@ == s0.scopes@);
                assert(s3.errors == s2.errors);
                assert(expr_span(*x.left) == expr_span(*x0.left));
                assert(expr_span(*x.right) == expr_span(*x0.right));
                s3.reveal_wf();
                sl.reveal_wf();
                lemma_plain_binop(s0, s1, s2, s3, sl, sr, x0, left_ty@, right_ty@);
            }
            if typed_operands(x.op) {
                assert(unify_reported(s3, sl, left_ty@, operand_type(x.op), expr_span(*x.left)));
                assert(arg_unified(s3, sl, *x.left, operand_type(x.op)));
                assert(unify_reported(sl, sr, right_ty@, operand_type(x.op), expr_span(*x.right)));
                assert(sr == *self);
                assert(arg_unified(sl, *self, *x.right, operand_type(x.op)));
            }
        }
        // The result variable is fresh, so it is bound to the operator's type.
        let final_ty = match x.op {
            BinOp::Add | BinOp::Sub | BinOp::Mul | BinOp::Div | BinOp::Pow | BinOp::Mod => HulkType::Number,
            BinOp::Concat | BinOp::ConcatSpace => HulkType::String,
            _ => HulkType::Boolean,
        };
        x.ty = Some(final_ty.clone());
        proof {
            if self.errors@.len() == s0.errors@.len() {
                let u = self.unifier;
                sl.reveal_wf();
                sr.reveal_wf();
                s1.reveal_wf();
                s2.reveal_wf();
                assert(ok && ok_l && ok_r);
                lemma_well_typed_refines(*x.left, s1.unifier, u);
                lemma_well_typed_refines(*x.right, s2.unifier, u);
                u.lemma_resolved_non_var(binop_result(x.op));
                match x.op {
                    BinOp::Add | BinOp::Sub | BinOp::Mul | BinOp::Div | BinOp::Pow | BinOp::Mod => {
                        lemma_operand(sl.unifier, u, left_ty, expr_ty(*x.left), TypeView::Number);
                        lemma_operand(sr.unifier, u, right_ty, expr_ty(*x.right), TypeView::Number);
                    },
                    BinOp::Lt | BinOp::Gt | BinOp::Leq | BinOp::Geq => {
                        lemma_operand(sl.unifier, u, left_ty, expr_ty(*x.left), TypeView::Number);
                        lemma_operand(sr.unifier, u, right_ty, expr_ty(*x.right), TypeView::Number);
                    },
                    BinOp::And | BinOp::Or => {
                        lemma_operand(sl.unifier, u, left_ty, expr_ty(*x.left), TypeView::Boolean);
                        lemma_operand(sr.unifier, u, right_ty, expr_ty(*x.right), TypeView::Boolean);
                    },
                    _ => {},
                }
            }
        }
        final_ty
    }

    /// A unary operation: `!` needs and gives a `Boolean`, `-` a `Number`.
    pub(crate) fn visit_unary_op(&mut self, x: &mut UnaryOpExpr) -> (res: HulkType)
        requires
            old(self).wf(),
        ensures
            old(self).expr_step(&*final(self)),
            same_shape(Expr::UnaryOp(*old(x)), Expr::UnaryOp(*final(x))),
            final(x).ty == Some(res),
            res@ == (if old(x).op == UnaryOp::Not {
                TypeView::Boolean
            } else {
                TypeView::Number
            }),
            exists|m1: TypeChecker|
                #![trigger arg_unified(m1, *final(self), *final(x).expr, res@)]
                old(self).expr_step(&m1) && arg_unified(m1, *final(self), *final(x).expr, res@),
            plain(old(self).scopes@, Expr::UnaryOp(*old(x))) ==> error_list(final(self).errors@) == error_list(
                old(self).errors@,
            ) + plain_errors(old(self).scopes@, Expr::UnaryOp(*old(x))),
            final(self).errors@.len() == old(self).errors@.len() ==> well_typed(
                Expr::UnaryOp(*final(x)),
                final(self).unifier,
            ),
        decreases *old(x),
    {
        let ghost s0 = *self;
        let ghost x0 = *x;
        let operand_ty = self.visit_expr(&mut x.expr);
        let ghost s1 = *self;
        // The result gets a fresh type variable, which nothing else refers to.
        let _result_var = self.fresh_var();
        let ghost s2 = *self;
        proof {
            lemma_prefix_refl(s1.errors@);
            TypeChecker::lemma_step_trans(s0, s1, s2);
        }
        let ok;
        let ok_o;
        let ghost mut s3 = s2;
        let ghost want = if x.op == UnaryOp::Not { TypeView::Boolean } else { TypeView::Number };
        match x.op {
            UnaryOp::Not => {
                ok_o = self.unify_report(&operand_ty, &HulkType::Boolean, x.expr.span());
                proof {
                    s3 = *self;
                }
                ok = true;
            },
            UnaryOp::Neg => {
                ok_o = self.unify_report(&operand_ty, &HulkType::Number, x.expr.span());
                proof {
                    s3 = *self;
                }
                ok = true;
            },
        }
        proof {
            TypeChecker::lemma_step_refl(*self);
            TypeChecker::lemma_step_trans(s2, s3, *self);
            TypeChecker::lemma_step_trans(s0, s2, *self);
            TypeChecker::lemma_step_trans(s1, s2, *self);
            self.reveal_wf();
            assert(unify_reported(s2, s3, operand_ty@, want, expr_span(*x.expr)));
            assert(s3 == *self);
            if plain(s0.scopes@, Expr::UnaryOp(x0)) {
                assert(want == unop_result(x.op));
                s2.reveal_wf();
                lemma_plain_operand(s2, s3, operand_ty@, want, expr_span(*x.expr));
                assert(error_list(self.errors@) =~= error_list(s0.errors@) + plain_errors(s0.scopes@, Expr::UnaryOp(x0)));
            }
            assert(arg_unified(s2, *self, *x.expr, want));
        }
        // The result variable is fresh, so it is bound to the operator's type.
        let final_ty = match x.op {
            UnaryOp::Not => HulkType::Boolean,
            UnaryOp::Neg => HulkType::Number,
        };
        x.ty = Some(final_ty.clone());
        proof {
            if self.errors@.len() == s0.errors@.len() {
                let u = self.unifier;
                s3.reveal_wf();
                assert(ok && ok_o);
                lemma_lift(*x.expr, s1, *self, s0.errors@.len() as int);
                u.lemma_resolved_non_var(want);
                lemma_operand(s3.unifier, u, operand_ty, expr_ty(*x.expr), want);
            }
        }
        final_ty
    }

    /// A block has the type of its last expression (`Number` when empty).
    pub(crate) fn visit_block(&mut self, x: &mut BlockExpr) -> (res: HulkType)
        requires
            old(self).wf(),
        ensures
            old(self).expr_step(&*final(self)),
            same_shape(Expr::Block(*old(x)), Expr::Block(*final(x))),
            final(x).ty == Some(res),
            old(x).expressions@.len() == 0 ==> res is Number,
            final(self).errors@.len() == old(self).errors@.len() ==> well_typed(
                Expr::Block(*final(x)),
                final(self).unifier,
            ),
            plain(old(self).scopes@, Expr::Block(*old(x))) ==> res@ == plain_type(
                old(self).scopes@,
                Expr::Block(*old(x)),
            ) && error_list(final(self).errors@) == error_list(old(self).errors@) + plain_errors(
                old(self).scopes@,
                Expr::Block(*old(x)),
            ),
        decreases *old(x),
    {
        let ghost s0 = *self;
        let ghost start = x.expressions@;
        let ghost x0 = *x;
        proof {
            TypeChecker::lemma_step_refl(*self);
        }
        let mut last_ty = HulkType::Number;
        let mut i: usize = 0;
        while i < x.expressions.len()
            invariant
                self.wf(),
                s0.expr_step(&*self),
                i <= x.expressions@.len(),
                x.expressions@.len() == start.len(),
                start == old(x).expressions@,
                x.span == x0.span,
                x0 == *old(x),
                start.len() == 0 ==> last_ty is Number,
                forall|j: int| 0 <= j < i ==> same_shape(*start[j], #[trigger] *x.expressions@[j]),
                forall|j: int| i <= j < x.expressions@.len() ==> #[trigger] x.expressions@[j] == start[j],
                self.errors@.len() == s0.errors@.len() ==> forall|j: int|
                    0 <= j < i ==> well_typed(#[trigger] *x.expressions@[j], self.unifier),
                plain(s0.scopes@, Expr::Block(x0)) ==> error_list(self.errors@) == error_list(s0.errors@)
                    + plain_errors_upto(s0.scopes@, x0, i as int) && (i > 0 ==> last_ty@ == plain_type(
                    s0.scopes@,
                    *x0.expressions@[i - 1],
                )),
            decreases x.expressions@.len() - i,
        {
            let ghost si = *self;
            assert(x.expressions@[i as int] == start[i as int]);
            last_ty = self.visit_expr(&mut x.expressions[i]);
            proof {
                if plain(s0.scopes@, Expr::Block(x0)) {
                    assert(plain(s0.scopes@, *x0.expressions@[i as int]));
                    assert(plain_errors_upto(s0.scopes@, x0, i + 1) == plain_errors_upto(s0.scopes@, x0, i as int)
                        + plain_errors(s0.scopes@, *x0.expressions@[i as int]));
                    assert(error_list(self.errors@) =~= error_list(s0.errors@) + plain_errors_upto(s0.scopes@, x0, i + 1));
                }
                TypeChecker::lemma_step_trans(s0, si, *self);
                if self.errors@.len() == s0.errors@.len() {
                    assert forall|j: int| 0 <= j < i + 1 implies well_typed(
                        #[trigger] *x.expressions@[j],
                        self.unifier,
                    ) by {
                        if j < i {
                            lemma_lift(*x.expressions@[j], si, *self, s0.errors@.len() as int);
                        }
                    }
                }
            }
            i = i + 1;
        }
        proof {
            if plain(s0.scopes@, Expr::Block(x0)) {
                assert(error_list(self.errors@) =~= error_list(s0.errors@) + plain_errors(
                    s0.scopes@,
                    Expr::Block(x0),
                ));
            }
        }
        x.ty = Some(last_ty.clone());
        last_ty
    }

    /// A conditional: the condition must conform to `Boolean`; the result is the join of the
    /// two branches' types.
    pub(crate) fn visit_if(&mut self, x: &mut IfExpr) -> (res: HulkType)
        requires
            old(self).wf(),
        ensures
            old(self).expr_step(&*final(self)),
            same_shape(Expr::If(*old(x)), Expr::If(*final(x))),
            final(x).ty == Some(res),
            final(self).errors@.len() == old(self).errors@.len() ==> well_typed(
                Expr::If(*final(x)),
                final(self).unifier,
            ),
            plain(old(self).scopes@, Expr::If(*old(x))) ==> res@ == plain_type(old(self).scopes@, Expr::If(*old(x)))
                && error_list(final(self).errors@) == error_list(old(self).errors@) + plain_errors(
                old(self).scopes@,
                Expr::If(*old(x)),
            ),
        decreases *old(x),
    {
        let ghost s0 = *self;
        let ghost x0 = *x;
        let cond_ty = self.visit_expr(&mut x.condition);
        let ghost s1 = *self;
        if !self.conforms_to(&cond_ty, &HulkType::Boolean) {
            self.report(String::from_str("If condition must be Boolean"), x.condition.span());
        } else {
            proof {
                TypeChecker::lemma_step_refl(*self);
            }
        }
        let ghost s2 = *self;
        proof {
            TypeChecker::lemma_step_trans(s0, s1, s2);
        }
        let then_ty = self.visit_expr(&mut x.then_branch);
        let ghost s3 = *self;
        let else_ty = self.visit_expr(&mut x.else_branch);
        proof {
            TypeChecker::lemma_step_trans(s2, s3, *self);
            TypeChecker::lemma_step_trans(s0, s2, *self);
            TypeChecker::lemma_step_trans(s1, s2, *self);
            if self.errors@.len() == s0.errors@.len() {
                lemma_lift(*x.condition, s1, *self, s0.errors@.len() as int);
                lemma_lift(*x.then_branch, s3, *self, s0.errors@.len() as int);
            }
        }
        let result_ty = match self.lowest_common_ancestor(&then_ty, &else_ty) {
            Some(ty) => ty,
            None => HulkType::Object,
        };
        proof {
            if plain(s0.scopes@, Expr::If(x0)) {
                let sc = s0.scopes@;
                let ct = plain_type(sc, *x0.condition);
                assert(cond_ty@ == ct);
                assert(s1.conforms_spec(ct, TypeView::Boolean) == (ct is Boolean));
                assert(error_list(s2.errors@) =~= error_list(s1.errors@) + condition_error(ct, "If condition must be Boolean"@, expr_span(*x0.condition)));
                assert(error_list(self.errors@) =~= error_list(s0.errors@) + plain_errors(sc, Expr::If(x0)));
            }
        }
        x.ty = Some(result_ty.clone());
        result_ty
    }

    /// A loop: the condition must conform to `Boolean`; the result is the body's type.
    pub(crate) fn visit_while(&mut self, x: &mut WhileExpr) -> (res: HulkType)
        requires
            old(self).wf(),
        ensures
            old(self).expr_step(&*final(self)),
            same_shape(Expr::While(*old(x)), Expr::While(*final(x))),
            final(x).ty == Some(res),
            expr_ty(*final(x).body) == Some(res) || res is Error,
            final(self).errors@.len() == old(self).errors@.len() ==> well_typed(
                Expr::While(*final(x)),
                final(self).unifier,
            ),
            plain(old(self).scopes@, Expr::While(*old(x))) ==> res@ == plain_type(old(self).scopes@, Expr::While(*old(x)))
                && error_list(final(self).errors@) == error_list(old(self).errors@) + plain_errors(
                old(self).scopes@,
                Expr::While(*old(x)),
            ),
        decreases *old(x),
    {
        let ghost s0 = *self;
        let ghost x0 = *x;
        let cond_ty = self.visit_expr(&mut x.condition);
        let ghost s1 = *self;
        if !self.conforms_to(&cond_ty, &HulkType::Boolean) {
            self.report(String::from_str("While condition must be Boolean"), x.condition.span());
        } else {
            proof {
                TypeChecker::lemma_step_refl(*self);
            }
        }
        let ghost s2 = *self;
        proof {
            TypeChecker::lemma_step_trans(s0, s1, s2);
        }
        let body_ty = self.visit_expr(&mut x.body);
        proof {
            TypeChecker::lemma_step_trans(s0, s2, *self);
            TypeChecker::lemma_step_trans(s1, s2, *self);
            if self.errors@.len() == s0.errors@.len() {
                lemma_lift(*x.condition, s1, *self, s0.errors@.len() as int);
            }
        }
        proof {
            if plain(s0.scopes@, Expr::While(x0)) {
                let sc = s0.scopes@;
                let ct = plain_type(sc, *x0.condition);
                assert(cond_ty@ == ct);
                assert(s1.conforms_spec(ct, TypeView::Boolean) == (ct is Boolean));
                assert(error_list(s2.errors@) =~= error_list(s1.errors@) + condition_error(ct, "While condition must be Boolean"@, expr_span(*x0.condition)));
                assert(error_list(self.errors@) =~= error_list(s0.errors@) + plain_errors(sc, Expr::While(x0)));
            }
        }
        x.ty = Some(body_ty.clone());
        body_ty
    }
}

/// Whether a list of names contains `name`.
pub(crate) fn has_name(v: &Vec<String>, name: &str) -> (res: bool)
    ensures
        res == exists|j: int| 0 <= j < v@.len() && v@[j]@ == name@,
{
    let mut k: usize = 0;
    while k < v.len()
        invariant
            k <= v@.len(),
            forall|j: int| 0 <= j < k ==> v@[j]@ != name@,
        decreases v@.len() - k,
    {
        if str_eq(v[k].as_str(), name) {
            return true;
        }
        k = k + 1;
    }
    false
}

/// The type a variable substitution gives a variable id, if it has one.
fn var_map_get(m: &Vec<(usize, HulkType)>, id: usize) -> (res: Option<HulkType>)
    ensures
        res matches Some(t) ==> exists|j: int| 0 <= j < m@.len() && m@[j].0 == id && m@[j].1 == t,
        res is None ==> forall|j: int| 0 <= j < m@.len() ==> m@[j].0 != id,
{
    let mut k: usize = 0;
    while k < m.len()
        invariant
            k <= m@.len(),
            forall|j: int| 0 <= j < k ==> m@[j].0 != id,
        decreases m@.len() - k,
    {
        if m[k].0 == id {
            return Some(m[k].1.clone());
        }
        k = k + 1;
    }
    None
}

impl TypeChecker {
    /// `let`: each initializer is checked in a new scope, against its annotation when
    /// there is one, and the variable is declared; the result is the body's type.
    pub(crate) fn visit_let(&mut self, x: &mut LetExpr) -> (res: HulkType)
        requires
            old(self).wf(),
        ensures
            old(self).expr_step(&*final(self)),
            same_shape(Expr::Let(*old(x)), Expr::Let(*final(x))),
            final(x).ty == Some(res),
            final(self).errors@.len() == old(self).errors@.len() ==> well_typed(
                Expr::Let(*final(x)),
                final(self).unifier,
            ),
            plain(old(self).scopes@, Expr::Let(*old(x))) ==> res@ == plain_type(old(self).scopes@, Expr::Let(*old(x)))
                && error_list(final(self).errors@) == error_list(old(self).errors@) + plain_errors(
                old(self).scopes@,
                Expr::Let(*old(x)),
            ),
        decreases *old(x),
    {
        let ghost s0 = *self;
        let ghost start = x.bindings@;
        let ghost x0 = *x;
        let ghost env0 = env_of(s0.scopes@);
        let ghost is_plain = plain(s0.scopes@, Expr::Let(x0));
        self.enter_scope();
        proof {
            lemma_prefix_refl(s0.errors@);
            s0.reveal_wf();
            s0.unifier.lemma_refines_refl();
            if is_plain {
                assert forall|n: Seq<char>| #[trigger] env_of(self.scopes@)(n) == env0(n) by {
                    crate::assoc::lemma_key_index(self.scopes@.last()@, n);
                    assert(scope_lookup(self.scopes@, n) == scope_lookup(s0.scopes@, n));
                }
                assert(env_of(self.scopes@) =~= let_env(env0, x0, 0));
                assert(error_list(self.errors@) =~= error_list(s0.errors@) + let_errors(env0, x0, 0));
            }
        }
        let mut i: usize = 0;
        while i < x.bindings.len()
            invariant
                self.wf(),
                self.same_tables(&s0),
                s0.errors@.is_prefix_of(self.errors@),
                s0.unifier.refined_by(self.unifier),
                self.errors@.len() == s0.errors@.len() ==> forall|j: int|
                    0 <= j < i ==> well_typed(#[trigger] *x.bindings@[j].2, self.unifier),
                self.scopes@.len() == s0.scopes@.len() + 1,
                self.scopes@.drop_last() == s0.scopes@,
                i <= x.bindings@.len(),
                x.bindings@.len() == start.len(),
                start == old(x).bindings@,
                x.span == x0.span,
                x.body == x0.body,
                x0 == *old(x),
                forall|j: int|
                    0 <= j < i ==> (#[trigger] x.bindings@[j]).0 == start[j].0 && same_shape(*start[j].2, *x.bindings@[j].2),
                forall|j: int| i <= j < x.bindings@.len() ==> #[trigger] x.bindings@[j] == start[j],
                env0 == env_of(s0.scopes@),
                is_plain == plain(s0.scopes@, Expr::Let(x0)),
                is_plain ==> env_of(self.scopes@) == let_env(env0, x0, i as int),
                is_plain ==> error_list(self.errors@) == error_list(s0.errors@) + let_errors(env0, x0, i as int),
            decreases x.bindings@.len() - i,
        {
            let ghost si = *self;
            assert(x.bindings@[i as int] == start[i as int]);
            proof {
                if is_plain {
                    assert(x0.bindings@[i as int] == start[i as int]);
                    assert(start[i as int].1 is None);
                    assert(plain(si.scopes@, *start[i as int].2));
                }
            }
            let init_ty = self.visit_expr(&mut x.bindings[i].2);
            let ghost sa = *self;
            proof {
                lemma_prefix_trans(s0.errors@, si.errors@, self.errors@);
                crate::inference::Unifier::lemma_refines_trans(s0.unifier, si.unifier, self.unifier);
                if self.errors@.len() == s0.errors@.len() {
                    self.reveal_wf();
                    assert forall|j: int| 0 <= j < i implies well_typed(#[trigger] *x.bindings@[j].2, self.unifier) by {
                        lemma_well_typed_refines(*x.bindings@[j].2, si.unifier, self.unifier);
                    }
                }
            }
            let mut var_ty = init_ty.clone();
            let mut new_ann: Option<HulkType> = None;
            let ghost sj = *self;
            match &x.bindings[i].1 {
                Some(ann_ty) => {
                    let resolved_ann = self.resolve_annotation(ann_ty);
                    if !self.conforms_to(&init_ty, &resolved_ann) {
                        let mut msg = cat("Cannot initialize variable of type ", debug_string(&resolved_ann).as_str());
                        msg.append(" with value of type ");
                        msg.append(debug_string(&init_ty).as_str());
                        self.report(msg, x.bindings[i].2.span());
                        var_ty = HulkType::Error;
                    } else {
                        match &resolved_ann {
                            HulkType::Protocol(proto_name) => match &init_ty {
                                HulkType::Class(class_name) => {
                                    if self.type_conforms_to_protocol(class_name.as_str(), proto_name.as_str()) {
                                        new_ann = Some(HulkType::Class(class_name.clone()));
                                        var_ty = init_ty.clone();
                                    } else {
                                        let mut msg = cat("Type '", class_name.as_str());
                                        msg.append("' does not implement protocol '");
                                        msg.append(proto_name.as_str());
                                        msg.append("'");
                                        self.report(msg, x.span);
                                        var_ty = HulkType::Error;
                                    }
                                },
                                _ => {
                                    var_ty = resolved_ann.clone();
                                },
                            },
                            _ => {
                                var_ty = resolved_ann.clone();
                            },
                        }
                    }
                },
                None => {
                    proof {
                        self.reveal_wf();
                        if is_plain {
                            self.unifier.lemma_resolved_non_var(init_ty@);
                        }
                    }
                    var_ty = self.unifier.resolve(&init_ty);
                },
            }
            proof {
                assert(sj.errors@.is_prefix_of(self.errors@)) by {
                    if self.errors@.len() > sj.errors@.len() {
                        lemma_prefix_push(sj.errors@, self.errors@.last());
                        assert(self.errors@ =~= sj.errors@.push(self.errors@.last()));
                    } else {
                        lemma_prefix_refl(sj.errors@);
                    }
                }
                lemma_prefix_trans(s0.errors@, sj.errors@, self.errors@);
            }
            if let Some(a) = new_ann {
                x.bindings[i].1 = Some(a);
            }
            let name = x.bindings[i].0.clone();
            let ghost before_scopes = self.scopes@;
            let ghost vt = var_ty;
            let ghost nm = name;
            self.declare_var(name, var_ty);
            proof {
                if is_plain {
                    assert(x.bindings@[i as int].1 is None);
                    assert(nm@ == x0.bindings@[i as int].0@);
                    assert(vt@ == plain_type_in(let_env(env0, x0, i as int), *x0.bindings@[i as int].2));
                    assert forall|n: Seq<char>| #[trigger] env_of(self.scopes@)(n) == env_with(
                        env_of(before_scopes),
                        nm@,
                        vt@,
                    )(n) by {
                        if n != nm@ {
                            assert(lookup(self.scopes@.last()@, n) == lookup(before_scopes.last()@, n));
                            assert(scope_lookup(self.scopes@, n) == scope_lookup(before_scopes, n));
                        } else {
                            assert(scope_lookup(self.scopes@, n) == Some(vt));
                        }
                    }
                    assert(env_of(self.scopes@) =~= let_env(env0, x0, i + 1));
                    assert(error_list(self.errors@) =~= error_list(s0.errors@) + let_errors(env0, x0, i + 1));
                }
                assert(self.scopes@.drop_last() == before_scopes.drop_last());
                if self.errors@.len() == s0.errors@.len() {
                    assert(sa.errors@.len() == s0.errors@.len());
                    assert(self.unifier == sa.unifier);
                    assert forall|j: int| 0 <= j < i + 1 implies well_typed(#[trigger] *x.bindings@[j].2, self.unifier) by {
                        if j == i {
                            assert(si.errors@.len() == s0.errors@.len());
                        }
                    }
                }
            }
            i = i + 1;
        }
        let ghost sb = *self;
        proof {
            if is_plain {
                assert(plain(sb.scopes@, *x.body));
            }
        }
        let body_ty = self.visit_expr(&mut x.body);
        proof {
            if is_plain {
                assert(body_ty@ == plain_type_in(env0, Expr::Let(x0)));
                assert(error_list(self.errors@) =~= error_list(s0.errors@) + plain_errors_in(env0, Expr::Let(x0)));
            }
            lemma_prefix_trans(s0.errors@, sb.errors@, self.errors@);
            crate::inference::Unifier::lemma_refines_trans(s0.unifier, sb.unifier, self.unifier);
            s0.reveal_wf();
            assert(self.scopes@.len() > 1);
            if self.errors@.len() == s0.errors@.len() {
                self.reveal_wf();
                assert forall|j: int| 0 <= j < x.bindings@.len() implies well_typed(
                    #[trigger] *x.bindings@[j].2,
                    self.unifier,
                ) by {
                    lemma_well_typed_refines(*x.bindings@[j].2, sb.unifier, self.unifier);
                }
            }
        }
        self.exit_scope();
        proof {
            assert(self.scopes@ == s0.scopes@);
        }
        x.ty = Some(body_ty.clone());
        body_ty
    }

    /// Destructive assignment: the value must conform to the target's type (to a protocol
    /// only by a class that implements it); the result is the value's type (the target's
    /// for a protocol target).
    pub(crate) fn visit_assign(&mut self, x: &mut DestructiveAssignExpr) -> (res: HulkType)
        requires
            old(self).wf(),
        ensures
            old(self).expr_step(&*final(self)),
            same_shape(Expr::DestructiveAssign(*old(x)), Expr::DestructiveAssign(*final(x))),
            final(x).ty == Some(res) || res is Error,
            (*old(x).lhs matches Expr::Variable(v) && v.name@ == "self"@) ==> res is Error
                && final(self).errors@.len() == old(self).errors@.len() + 1,
            final(self).errors@.len() == old(self).errors@.len() ==> well_typed(
                Expr::DestructiveAssign(*final(x)),
                final(self).unifier,
            ),
            plain(old(self).scopes@, Expr::DestructiveAssign(*old(x))) ==> res@ == plain_type(
                old(self).scopes@,
                Expr::DestructiveAssign(*old(x)),
            ) && error_list(final(self).errors@) == error_list(old(self).errors@) + plain_errors(
                old(self).scopes@,
                Expr::DestructiveAssign(*old(x)),
            ),
        decreases *old(x),
    {
        proof {
            reveal_strlit("self");
            crate::ast::lemma_same_shape_refl(Expr::DestructiveAssign(*x));
        }
        let ghost s0 = *self;
        let ghost x0 = *x;
        let ghost is_plain = plain(s0.scopes@, Expr::DestructiveAssign(x0));
        if let Expr::Variable(var) = &*x.lhs {
            if str_eq(var.name.as_str(), "self") {
                self.report(String::from_str("Cannot assign to 'self'"), x.span);
                return HulkType::Error;
            }
        }
        let lhs_ty = self.visit_expr(&mut x.lhs);
        let ghost s1 = *self;
        let value_ty = self.visit_expr(&mut x.value);
        let ghost s2 = *self;
        proof {
            if is_plain {
                assert(plain(s0.scopes@, *x0.lhs));
                assert(plain_errors(s0.scopes@, *x0.lhs) =~= Seq::empty());
                assert(s1.scopes@ == s0.scopes@);
                assert(lhs_ty@ == plain_type(s0.scopes@, *x0.lhs));
                assert(value_ty@ == plain_type(s0.scopes@, *x0.value));
                assert(error_list(s2.errors@) =~= error_list(s0.errors@) + plain_errors(s0.scopes@, *x0.value));
            }
            TypeChecker::lemma_step_trans(s0, s1, s2);
            if s2.errors@.len() == s0.errors@.len() {
                lemma_lift(*x.lhs, s1, s2, s0.errors@.len() as int);
                TypeChecker::lemma_step_refl(s2);
                lemma_lift(*x.value, s2, s2, s0.errors@.len() as int);
            }
        }
        if let HulkType::Protocol(proto_name) = &lhs_ty {
            if let HulkType::Class(class_name) = &value_ty {
                if !self.type_conforms_to_protocol(class_name.as_str(), proto_name.as_str()) {
                    let mut msg = cat("Type '", class_name.as_str());
                    msg.append("' does not conform to protocol '");
                    msg.append(proto_name.as_str());
                    msg.append("'");
                    self.report(msg, x.span);
                    proof {
                        TypeChecker::lemma_step_trans(s0, s2, *self);
                    }
                }
            } else {
                self.report(String::from_str("Cannot assign non\u{2011}class value to protocol variable"), x.span);
                proof {
                    TypeChecker::lemma_step_trans(s0, s2, *self);
                }
            }
            x.ty = Some(lhs_ty.clone());
            return lhs_ty;
        }
        let is_error = match &lhs_ty {
            HulkType::Error => true,
            _ => false,
        };
        if !is_error && !self.conforms_to(&value_ty, &lhs_ty) {
            let mut msg = cat("Cannot assign ", debug_string(&value_ty).as_str());
            msg.append(" to expression of type ");
            msg.append(debug_string(&lhs_ty).as_str());
            self.report(msg, x.span);
            proof {
                TypeChecker::lemma_step_trans(s0, s2, *self);
                if is_plain {
                    assert(value_ty@ != lhs_ty@);
                    assert(x.span == x0.span);
                    assert(msg@ == "Cannot assign "@ + type_debug(value_ty@) + " to expression of type "@ + type_debug(lhs_ty@));
                    assert(self.errors@ == s2.errors@.push(CompilerError::TypeError { msg, span: x0.span }));
                    assert(error_list(self.errors@) =~= error_list(s2.errors@).push(Some((msg@, x0.span))));
                    assert(error_list(self.errors@) =~= error_list(s0.errors@) + plain_errors(
                        s0.scopes@,
                        Expr::DestructiveAssign(x0),
                    ));
                }
            }
        } else {
            proof {
                if is_plain {
                    assert(value_ty@ == lhs_ty@);
                    assert(error_list(self.errors@) =~= error_list(s0.errors@) + plain_errors(
                        s0.scopes@,
                        Expr::DestructiveAssign(x0),
                    ));
                }
            }
        }
        x.ty = Some(value_ty.clone());
        value_ty
    }

    pub(crate) fn instantiate(&mut self, ty: &HulkType, var_map: &mut Vec<(usize, HulkType)>) -> (res: HulkType)
        requires
            old(self).wf(),
        ensures
            old(self).expr_step(&*final(self)),
            final(self).errors == old(self).errors,
    {
        proof {
            self.reveal_wf();
        }
        let applied = self.unifier.apply(ty);
        if let HulkType::Var(id) = applied {
            if let Some(new_ty) = var_map_get(var_map, id) {
                proof {
                    TypeChecker::lemma_step_refl(*self);
                }
                return new_ty;
            }
            let new_var = self.fresh_var();
            proof {
                self.reveal_wf();
            }
            let cs = match self.unifier.get_constraints(id) {
                Some(v) => crate::inference::clone_constraints(v),
                None => Vec::new(),
            };
            let ghost s1 = *self;
            if let Some(new_id) = new_var.get_var_id() {
                let mut k: usize = 0;
                while k < cs.len()
                    invariant
                        self.wf(),
                        self.same_tables(&s1),
                        self.errors == s1.errors,
                        self.scopes == s1.scopes,
                        forall|t: TypeView| #[trigger] self.unifier.resolved(t) == s1.unifier.resolved(t),
                        k <= cs@.len(),
                    decreases cs@.len() - k,
                {
                    proof {
                        self.reveal_wf();
                    }
                    self.unifier.add_constraint(new_id, cs[k].clone());
                    proof {
                        self.reveal_wf();
                    }
                    k = k + 1;
                }
            }
            var_map.push((id, new_var.clone()));
            proof {
                lemma_prefix_refl(self.errors@);
                s1.reveal_wf();
                s1.unifier.lemma_refines_same(self.unifier);
                crate::inference::Unifier::lemma_refines_trans(old(self).unifier, s1.unifier, self.unifier);
            }
            new_var
        } else {
            proof {
                TypeChecker::lemma_step_refl(*self);
            }
            applied
        }
    }
}

} // verus!
