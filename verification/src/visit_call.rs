use vstd::prelude::*;
use crate::types::{HulkType, TypeView, debug_string};
use crate::inference::{ConstraintView, unifiable, unify_update};
use crate::mono::views;
use crate::span::Span;
use crate::error::CompilerError;
use crate::ast::{
    Expr, same_shape, expr_ty, expr_span, CallExpr, NewExpr, MethodCallExpr, AttributeAccessExpr, BaseExpr,
};
use crate::assoc::{lookup, assoc_get, assoc_has};
use crate::visit::{well_typed, lemma_lift, lemma_well_typed_refines, unify_reported, arg_unified, plain, plain_type, plain_errors, lemma_plain_operand};
use crate::inferred::error_list;
use crate::type_checker::{TypeChecker, MethodInfo, FunctionInfo, TypeInfo};
use crate::text::{str_eq, push_decimal};
use crate::visit::{cat, has_name, lemma_prefix_trans, lemma_prefix_refl, lemma_prefix_push};

verus! {

/// A copy of a list of types.
fn clone_type_list(v: &Vec<HulkType>) -> (res: Vec<HulkType>)
    ensures
        res@ == v@,
{
    let mut out: Vec<HulkType> = Vec::new();
    let mut i: usize = 0;
    while i < v.len()
        invariant
            i <= v@.len(),
            out@ == v@.subrange(0, i as int),
        decreases v@.len() - i,
    {
        out.push(v[i].clone());
        i = i + 1;
        assert(out@ =~= v@.subrange(0, i as int));
    }
    assert(v@.subrange(0, i as int) =~= v@);
    out
}

/// A copy of a list of types, for the other checking passes.
pub(crate) fn clone_types_pub(v: &Vec<HulkType>) -> (res: Vec<HulkType>)
    ensures
        res@ == v@,
{
    clone_type_list(v)
}

/// `text` followed by a number and `suffix`.
fn with_number(text: &str, n: usize, suffix: &str) -> (res: String)
    ensures
        res@ == text@ + crate::text::decimal(n as nat) + suffix@,
{
    let mut s = String::from_str(text);
    push_decimal(&mut s, n);
    s.append(suffix);
    s
}

/// A call that is refused as written: the result is `Error`, one type error at the
/// call's span is recorded, and the call (its arguments included) is left as it was.
pub(crate) open spec fn call_refused(a: TypeChecker, b: TypeChecker, x: CallExpr, y: CallExpr, res: HulkType) -> bool {
    &&& res is Error
    &&& b.errors@.len() == a.errors@.len() + 1
    &&& b.errors@.drop_last() == a.errors@
    &&& b.errors@.last() matches CompilerError::TypeError { span, .. } && span == x.span
    &&& y == x
}

/// Each argument has a recorded type that conforms to its parameter's type and resolves
/// as that type does.
pub(crate) open spec fn args_fit(s: TypeChecker, args: Seq<Box<Expr>>, params: Seq<HulkType>) -> bool {
    forall|i: int|
        0 <= i < args.len() ==> (expr_ty(*#[trigger] args[i]) matches Some(t) && s.conforms_spec(t@, params[i]@)
            && s.unifier.resolved(t@) == s.unifier.resolved(params[i]@))
}

/// The parent of the class being checked.
pub(crate) open spec fn base_parent(s: TypeChecker) -> Option<String> {
    match s.current_type {
        Some(c) => match lookup(s.types@, c@) {
            Some(info) => info.parent,
            None => None,
        },
        None => None,
    }
}

/// The parent's method of the same name as the method being checked.
pub(crate) open spec fn base_method(s: TypeChecker) -> Option<MethodInfo> {
    match (base_parent(s), s.current_method) {
        (Some(p), Some(m)) => match lookup(s.types@, p@) {
            Some(pi) => lookup(pi.methods@, m@),
            None => None,
        },
        _ => None,
    }
}

/// `base` names a method: inside a method of a class whose parent has a method of that
/// name with as many parameters.
pub(crate) open spec fn base_ready(s: TypeChecker) -> bool {
    &&& base_method(s) is Some
    &&& s.current_method_params is Some
    &&& base_method(s)->Some_0.param_types@.len() == s.current_method_params->Some_0@.len()
}

/// Whether the parameter types `ps` unify, pair by pair and in order, with `cs`, starting
/// from the resolution `r` under the constraints `cm`; each success changes the resolution
/// as unification does.
pub open spec fn params_unify(
    cm: Map<usize, Seq<ConstraintView>>,
    r: spec_fn(TypeView) -> TypeView,
    ps: Seq<TypeView>,
    cs: Seq<TypeView>,
) -> bool
    decreases ps.len(),
{
    if ps.len() == 0 || cs.len() == 0 {
        true
    } else {
        let ra = r(ps[0]);
        let rb = r(cs[0]);
        unifiable(cm, ra, rb) && params_unify(
            cm,
            |x: TypeView| unify_update(r(x), ra, rb),
            ps.drop_first(),
            cs.drop_first(),
        )
    }
}

/// The parent's method's parameters unify, in order, with those of the method being
/// checked.
pub(crate) open spec fn base_params_unify(s: TypeChecker) -> bool {
    params_unify(
        s.unifier.constraint_map(),
        |x: TypeView| s.unifier.resolved(x),
        views(base_method(s)->Some_0.param_types@),
        views(s.current_method_params->Some_0@),
    )
}

/// `base` is refused: the result is `Error`, recorded on the node, and one type error at
/// its span is recorded.
pub(crate) open spec fn base_refused(a: TypeChecker, b: TypeChecker, x: BaseExpr, res: HulkType) -> bool {
    &&& res is Error
    &&& b.errors@.len() == a.errors@.len() + 1
    &&& b.errors@.drop_last() == a.errors@
    &&& b.errors@.last() matches CompilerError::TypeError { span, .. } && span == x.span
}

/// The built-in functions with one numeric argument.
pub open spec fn math_function(name: Seq<char>) -> bool {
    name == "sin"@ || name == "cos"@ || name == "sqrt"@ || name == "exp"@
}

/// The functions that every program has.
pub open spec fn builtin_function(name: Seq<char>) -> bool {
    math_function(name) || name == "rand"@ || name == "log"@ || name == "range"@ || name == "print"@
}

impl TypeChecker {
    fn visit_args(&mut self, args: &mut Vec<Box<Expr>>) -> (res: Vec<HulkType>)
        requires
            old(self).wf(),
        ensures
            old(self).expr_step(&*final(self)),
            final(args)@.len() == old(args)@.len(),
            res@.len() == old(args)@.len(),
            forall|i: int| 0 <= i < old(args)@.len() ==> same_shape(*old(args)@[i], #[trigger] *final(args)@[i]),
            final(self).errors@.len() == old(self).errors@.len() ==> forall|i: int|
                0 <= i < final(args)@.len() ==> well_typed(#[trigger] *final(args)@[i], final(self).unifier),
        decreases old(args)@,
    {
        let ghost s0 = *self;
        let ghost start = args@;
        proof {
            TypeChecker::lemma_step_refl(*self);
        }
        let mut tys: Vec<HulkType> = Vec::new();
        let mut i: usize = 0;
        while i < args.len()
            invariant
                self.wf(),
                s0.expr_step(&*self),
                i <= args@.len(),
                args@.len() == start.len(),
                start == old(args)@,
                tys@.len() == i,
                forall|j: int| 0 <= j < i ==> same_shape(*start[j], #[trigger] *args@[j]),
                forall|j: int| i <= j < args@.len() ==> #[trigger] args@[j] == start[j],
                self.errors@.len() == s0.errors@.len() ==> forall|j: int|
                    0 <= j < i ==> well_typed(#[trigger] *args@[j], self.unifier),
            decreases args@.len() - i,
        {
            let ghost si = *self;
            assert(args@[i as int] == start[i as int]);
            let t = self.visit_expr(&mut args[i]);
            tys.push(t);
            proof {
                TypeChecker::lemma_step_trans(s0, si, *self);
                if self.errors@.len() == s0.errors@.len() {
                    assert forall|j: int| 0 <= j < i + 1 implies well_typed(#[trigger] *args@[j], self.unifier) by {
                        if j < i {
                            lemma_lift(*args@[j], si, *self, s0.errors@.len() as int);
                        }
                    }
                }
            }
            i = i + 1;
        }
        tys
    }

    /// A call: built-in functions have fixed signatures; a function of the program is
    /// checked against its parameters (fresh type variables for a generic one), argument by
    /// argument; the result is its return type after unification.
    pub(crate) fn visit_call(&mut self, x: &mut CallExpr) -> (res: HulkType)
        requires
            old(self).wf(),
        ensures
            old(self).expr_step(&*final(self)),
            same_shape(Expr::Call(*old(x)), Expr::Call(*final(x))),
            final(x).ty == Some(res) || res is Error,
            final(self).errors@.len() == old(self).errors@.len() ==> well_typed(Expr::Call(*final(x)), final(self).unifier),
            plain(old(self).scopes@, Expr::Call(*old(x))) ==> res@ == plain_type(old(self).scopes@, Expr::Call(*old(x)))
                && error_list(final(self).errors@) == error_list(old(self).errors@) + plain_errors(
                old(self).scopes@,
                Expr::Call(*old(x)),
            ),
            math_function(old(x).func@) ==> if old(x).args@.len() == 1 {
                &&& res is Number
                &&& final(x).ty == Some(res)
                &&& exists|m: TypeChecker|
                    #![trigger arg_unified(m, *final(self), *final(x).args@[0], TypeView::Number)]
                    old(self).expr_step(&m) && arg_unified(m, *final(self), *final(x).args@[0], TypeView::Number)
                &&& final(self).errors@.len() == old(self).errors@.len() ==> (expr_ty(*final(x).args@[0]) matches Some(
                    t,
                ) && final(self).unifier.resolved(t@) == TypeView::Number)
            } else {
                call_refused(*old(self), *final(self), *old(x), *final(x), res)
            },
            old(x).func@ == "rand"@ ==> if old(x).args@.len() == 0 {
                res is Number && final(x).ty == Some(res) && final(self).errors == old(self).errors
            } else {
                call_refused(*old(self), *final(self), *old(x), *final(x), res)
            },
            (old(x).func@ == "log"@ || old(x).func@ == "range"@) && old(x).args@.len() == 2 ==> exists|
                m1: TypeChecker,
                m2: TypeChecker,
            |
                #![trigger arg_unified(m1, m2, *final(x).args@[0], TypeView::Number), arg_unified(m2, *final(self), *final(x).args@[1], TypeView::Number)]
                old(self).expr_step(&m1) && arg_unified(m1, m2, *final(x).args@[0], TypeView::Number) && arg_unified(
                    m2,
                    *final(self),
                    *final(x).args@[1],
                    TypeView::Number,
                ),
            old(x).func@ == "log"@ ==> if old(x).args@.len() == 2 {
                res is Number && final(x).ty == Some(res)
            } else {
                call_refused(*old(self), *final(self), *old(x), *final(x), res)
            },
            old(x).func@ == "range"@ ==> if old(x).args@.len() == 2 {
                res@ == TypeView::Class("_Range"@) && final(x).ty == Some(res)
            } else {
                call_refused(*old(self), *final(self), *old(x), *final(x), res)
            },
            old(x).func@ == "print"@ ==> if old(x).args@.len() == 1 {
                final(x).ty == Some(res) && (expr_ty(*final(x).args@[0]) == Some(res) || res is Error)
            } else {
                call_refused(*old(self), *final(self), *old(x), *final(x), res)
            },
            !builtin_function(old(x).func@) && lookup(old(self).functions@, old(x).func@) is None ==> call_refused(
                *old(self),
                *final(self),
                *old(x),
                *final(x),
                res,
            ),
            (!builtin_function(old(x).func@) && lookup(old(self).functions@, old(x).func@) is Some && old(x).args@.len()
                != lookup(old(self).functions@, old(x).func@)->Some_0.params_len) ==> call_refused(
                *old(self),
                *final(self),
                *old(x),
                *final(x),
                res,
            ),
            (!builtin_function(old(x).func@) && lookup(old(self).functions@, old(x).func@) is Some && old(x).args@.len()
                == lookup(old(self).functions@, old(x).func@)->Some_0.params_len && !lookup(
                old(self).functions@,
                old(x).func@,
            )->Some_0.is_generic && lookup(old(self).functions@, old(x).func@)->Some_0.param_types is Some) ==> (
            final(x).ty == Some(res) && res@ == final(self).unifier.resolved(
                match lookup(old(self).functions@, old(x).func@)->Some_0.return_type {
                    Some(t) => t@,
                    None => TypeView::Object,
                },
            ) && (final(self).errors@.len() == old(self).errors@.len() ==> args_fit(
                *final(self),
                final(x).args@,
                lookup(old(self).functions@, old(x).func@)->Some_0.param_types->Some_0@,
            ))),
        decreases *old(x),
    {
        let ghost s0 = *self;
        let ghost x0 = *x;
        proof {
            crate::ast::lemma_same_shape_refl(Expr::Call(*x));
            reveal_strlit("sin");
            reveal_strlit("cos");
            reveal_strlit("sqrt");
            reveal_strlit("exp");
            reveal_strlit("rand");
            reveal_strlit("log");
            reveal_strlit("range");
            reveal_strlit("print");
            assert("sin"@[0] == 's' && "sin"@[1] == 'i');
            assert("cos"@[0] == 'c');
            assert("sqrt"@[0] == 's' && "sqrt"@[1] == 'q');
            assert("exp"@[0] == 'e');
            assert("rand"@[0] == 'r' && "rand"@.len() == 4);
            assert("log"@[0] == 'l');
            assert("range"@[0] == 'r' && "range"@.len() == 5);
            assert("print"@[0] == 'p');
        }
        let f = x.func.as_str();
        if str_eq(f, "sin") || str_eq(f, "cos") || str_eq(f, "sqrt") || str_eq(f, "exp") {
            if x.args.len() != 1 {
                self.report(String::from_str("Function takes 1 argument"), x.span);
                proof {
                    assert(error_list(self.errors@) =~= error_list(s0.errors@).push(Some(("Function takes 1 argument"@, x0.span))));
                }
                return HulkType::Error;
            }
            let arg_ty = self.visit_expr(&mut x.args[0]);
            let ghost s1 = *self;
            let sp = x.args[0].span();
            self.unify_report(&arg_ty, &HulkType::Number, sp);
            proof {
                if plain(s0.scopes@, Expr::Call(x0)) {
                    assert(plain(s0.scopes@, *x0.args@[0]));
                    s1.reveal_wf();
                    lemma_plain_operand(s1, *self, arg_ty@, TypeView::Number, sp);
                    assert(error_list(self.errors@) =~= error_list(s0.errors@) + plain_errors(s0.scopes@, Expr::Call(x0)));
                }
                assert(unify_reported(s1, *self, arg_ty@, TypeView::Number, expr_span(*x.args@[0])));
                assert(arg_unified(s1, *self, *x.args@[0], TypeView::Number));
                s1.reveal_wf();
                self.reveal_wf();
                s1.unifier.lemma_resolved_non_var(TypeView::Number);
                s1.unifier.lemma_resolved_non_var(TypeView::Error);
                self.unifier.lemma_resolved_non_var(TypeView::Number);
                if self.errors@.len() == s0.errors@.len() {
                    assert(s1.errors@.len() == self.errors@.len());
                    assert(!(arg_ty is Error));
                }
                TypeChecker::lemma_step_trans(s0, s1, *self);
                assert(x.args@.len() == x0.args@.len());
                if self.errors@.len() == s0.errors@.len() {
                    crate::visit::lemma_lift(*x.args@[0], s1, *self, s0.errors@.len() as int);
                }
            }
            x.ty = Some(HulkType::Number);
            return HulkType::Number;
        }
        if str_eq(f, "rand") {
            if x.args.len() != 0 {
                self.report(String::from_str("rand takes 0 arguments"), x.span);
                proof {
                    assert(error_list(self.errors@) =~= error_list(s0.errors@).push(Some(("rand takes 0 arguments"@, x0.span))));
                }
                return HulkType::Error;
            }
            proof {
                TypeChecker::lemma_step_refl(*self);
                assert(error_list(self.errors@) =~= error_list(s0.errors@) + Seq::<Option<(Seq<char>, Span)>>::empty());
            }
            x.ty = Some(HulkType::Number);
            return HulkType::Number;
        }
        if str_eq(f, "log") || str_eq(f, "range") {
            let is_log = str_eq(f, "log");
            if x.args.len() != 2 {
                if is_log {
                    self.report(String::from_str("log expects 2 arguments"), x.span);
                    proof {
                        assert(error_list(self.errors@) =~= error_list(s0.errors@).push(Some(("log expects 2 arguments"@, x0.span))));
                    }
                } else {
                    self.report(String::from_str("range expects 2 arguments"), x.span);
                    proof {
                        assert(error_list(self.errors@) =~= error_list(s0.errors@).push(Some(("range expects 2 arguments"@, x0.span))));
                    }
                }
                return HulkType::Error;
            }
            let a_ty = self.visit_expr(&mut x.args[0]);
            let ghost s1 = *self;
            let b_ty = self.visit_expr(&mut x.args[1]);
            let ghost s2 = *self;
            let sp0 = x.args[0].span();
            let sp1 = x.args[1].span();
            self.unify_report(&a_ty, &HulkType::Number, sp0);
            let ghost s3 = *self;
            self.unify_report(&b_ty, &HulkType::Number, sp1);
            proof {
                assert(unify_reported(s2, s3, a_ty@, TypeView::Number, expr_span(*x.args@[0])));
                assert(arg_unified(s2, s3, *x.args@[0], TypeView::Number));
                assert(unify_reported(s3, *self, b_ty@, TypeView::Number, expr_span(*x.args@[1])));
                assert(arg_unified(s3, *self, *x.args@[1], TypeView::Number));
                if plain(s0.scopes@, Expr::Call(x0)) {
                    assert(plain(s0.scopes@, *x0.args@[0]));
                    assert(plain(s0.scopes@, *x0.args@[1]));
                    assert(s1.scopes@ == s0.scopes@);
                    s2.reveal_wf();
                    s3.reveal_wf();
                    lemma_plain_operand(s2, s3, a_ty@, TypeView::Number, sp0);
                    lemma_plain_operand(s3, *self, b_ty@, TypeView::Number, sp1);
                    assert(error_list(self.errors@) =~= error_list(s0.errors@) + plain_errors(s0.scopes@, Expr::Call(x0)));
                }
                TypeChecker::lemma_step_trans(s0, s1, s2);
                TypeChecker::lemma_step_trans(s2, s3, *self);
                TypeChecker::lemma_step_trans(s0, s2, *self);
                TypeChecker::lemma_step_trans(s1, s2, *self);
                if self.errors@.len() == s0.errors@.len() {
                    crate::visit::lemma_lift(*x.args@[0], s1, *self, s0.errors@.len() as int);
                    crate::visit::lemma_lift(*x.args@[1], s2, *self, s0.errors@.len() as int);
                    assert forall|i: int| 0 <= i < x.args@.len() implies well_typed(*x.args@[i], self.unifier) by {
                        assert(i == 0 || i == 1);
                    }
                }
            }
            let ret = if is_log {
                HulkType::Number
            } else {
                HulkType::Class(String::from_str("_Range"))
            };
            x.ty = Some(ret.clone());
            return ret;
        }
        if str_eq(f, "print") {
            if x.args.len() != 1 {
                self.report(String::from_str("print expects 1 argument"), x.span);
                proof {
                    assert(error_list(self.errors@) =~= error_list(s0.errors@).push(Some(("print expects 1 argument"@, x0.span))));
                }
                return HulkType::Error;
            }
            let arg_ty = self.visit_expr(&mut x.args[0]);
            proof {
                if plain(s0.scopes@, Expr::Call(x0)) {
                    assert(plain(s0.scopes@, *x0.args@[0]));
                }
            }
            x.ty = Some(arg_ty.clone());
            proof {
                if self.errors@.len() == s0.errors@.len() {
                    assert forall|i: int| 0 <= i < x.args@.len() implies well_typed(*x.args@[i], self.unifier) by {
                        assert(i == 0);
                    }
                }
            }
            return arg_ty;
        }
        proof {
            s0.reveal_wf();
            crate::type_checker::lemma_fit_lookup(s0.functions@, s0.param_vars@, x.func@);
        }
        // a function of the program
        let info = match assoc_get(&self.functions, x.func.as_str()) {
            Some(i) => i,
            None => {
                let mut msg = cat("Unknown function '", x.func.as_str());
                msg.append("'");
                self.report(msg, x.span);
                return HulkType::Error;
            },
        };
        let params_len = info.params_len;
        let is_generic = info.is_generic;
        let declared_params: Option<Vec<HulkType>> = match &info.param_types {
            Some(v) => Some(clone_type_list(v)),
            None => None,
        };
        let declared_ret: Option<HulkType> = match &info.return_type {
            Some(t) => Some(t.clone()),
            None => None,
        };
        if x.args.len() != params_len {
            let mut msg = cat("Function '", x.func.as_str());
            msg.append("' expects ");
            push_decimal(&mut msg, params_len);
            msg.append(" arguments");
            self.report(msg, x.span);
            return HulkType::Error;
        }
        let mut param_types: Vec<HulkType>;
        let ret_ty: HulkType;
        if is_generic {
            let mut var_map: Vec<(usize, HulkType)> = Vec::new();
            let orig_ret = match assoc_get(&self.return_var, x.func.as_str()) {
                Some(r) => r.clone(),
                None => {
                    let mut msg = cat("Function '", x.func.as_str());
                    msg.append("' has not been inferred yet");
                    self.report(msg, x.span);
                    return HulkType::Error;
                },
            };
            let orig_params = match assoc_get(&self.param_vars, x.func.as_str()) {
                Some(p) => clone_type_list(p),
                None => {
                    let mut msg = cat("Function '", x.func.as_str());
                    msg.append("' has not been inferred yet");
                    self.report(msg, x.span);
                    return HulkType::Error;
                },
            };
            param_types = Vec::new();
            let mut k: usize = 0;
            proof {
                TypeChecker::lemma_step_refl(*self);
            }
            while k < orig_params.len()
                invariant
                    self.wf(),
                    s0.expr_step(&*self),
                    k <= orig_params@.len(),
                    *x == x0,
                    param_types@.len() == k,
                decreases orig_params@.len() - k,
            {
                let ghost si = *self;
                let t = self.instantiate(&orig_params[k], &mut var_map);
                proof {
                    TypeChecker::lemma_step_trans(s0, si, *self);
                }
                param_types.push(t);
                k = k + 1;
            }
            let ghost si = *self;
            ret_ty = self.instantiate(&orig_ret, &mut var_map);
            proof {
                TypeChecker::lemma_step_trans(s0, si, *self);
            }
        } else {
            param_types = match declared_params {
                Some(pts) => pts,
                None => {
                    let mut msg = cat("Function '", x.func.as_str());
                    msg.append("' has not been inferred yet");
                    self.report(msg, x.span);
                    return HulkType::Error;
                },
            };
            ret_ty = match declared_ret {
                Some(t) => t,
                None => HulkType::Object,
            };
            proof {
                assert(param_types@ == lookup(s0.functions@, x.func@)->Some_0.param_types->Some_0@);
            }
            proof {
                TypeChecker::lemma_step_refl(*self);
            }
        }
        // arguments, one by one
        let ghost s1 = *self;
        let ghost start = x.args@;
        proof {
            assert(param_types@.len() == x.args@.len());
        }
        let mut i: usize = 0;
        while i < x.args.len() && i < param_types.len()
            invariant
                self.wf(),
                s0.expr_step(&*self),
                i <= x.args@.len(),
                x.args@.len() == start.len(),
                start == x0.args@,
                x.func == x0.func,
                x.span == x0.span,
                x0 == *old(x),
                param_types@.len() == x.args@.len(),
                forall|j: int| 0 <= j < i ==> same_shape(*start[j], #[trigger] *x.args@[j]),
                forall|j: int| i <= j < x.args@.len() ==> #[trigger] x.args@[j] == start[j],
                self.errors@.len() == s0.errors@.len() ==> forall|j: int|
                    0 <= j < i ==> well_typed(*x.args@[j], self.unifier),
                self.errors@.len() == s0.errors@.len() ==> args_fit(*self, x.args@.subrange(0, i as int), param_types@),
            decreases x.args@.len() - i,
        {
            let ghost si = *self;
            let ghost ai = x.args@;
            assert(x.args@[i as int] == start[i as int]);
            let arg_ty = self.visit_expr(&mut x.args[i]);
            let ghost sa = *self;
            let sp = x.args[i].span();
            if !self.conforms_to(&arg_ty, &param_types[i]) {
                let mut msg = cat("Argument type ", debug_string(&arg_ty).as_str());
                msg.append(" does not conform to parameter type ");
                msg.append(debug_string(&param_types[i]).as_str());
                self.report(msg, sp);
            } else {
                proof {
                    TypeChecker::lemma_step_refl(*self);
                }
            }
            let ghost sb = *self;
            self.unify_report(&arg_ty, &param_types[i], sp);
            proof {
                TypeChecker::lemma_step_trans(si, sa, sb);
                TypeChecker::lemma_step_trans(si, sb, *self);
                if self.errors@.len() == s0.errors@.len() {
                    assert(si.errors@.len() == self.errors@.len());
                    assert(sa.errors@.len() == self.errors@.len());
                    assert(sb.errors == sa.errors);
                    assert(sb.conforms_spec(arg_ty@, param_types@[i as int]@));
                    self.reveal_wf();
                    si.reveal_wf();
                    let pre = ai.subrange(0, i as int);
                    let now = x.args@.subrange(0, i + 1);
                    assert forall|j: int| 0 <= j < now.len() implies (expr_ty(*#[trigger] now[j]) matches Some(t)
                        && self.conforms_spec(t@, param_types@[j]@) && self.unifier.resolved(t@)
                        == self.unifier.resolved(param_types@[j]@)) by {
                        if j < i {
                            assert(now[j] == pre[j]);
                            let t = expr_ty(*pre[j])->Some_0;
                            assert(si.unifier.resolved(t@) == si.unifier.resolved(param_types@[j]@));
                            assert(si.conforms_spec(t@, param_types@[j]@));
                            self.reveal_views();
                            si.reveal_views();
                            assert(self.types_seq() == si.types_seq() && self.protos_seq() == si.protos_seq());
                            assert(self.depth() == si.depth());
                            assert(self.unifier.resolved(si.unifier.resolved(t@)) == self.unifier.resolved(t@));
                            assert(self.unifier.resolved(si.unifier.resolved(param_types@[j]@)) == self.unifier.resolved(param_types@[j]@));
                        } else {
                            assert(now[j] == x.args@[i as int]);
                            if arg_ty is Error {
                                assert(!sa.conforms_spec(arg_ty@, param_types@[i as int]@));
                            }
                            assert(expr_ty(*x.args@[i as int]) == Some(arg_ty));
                            self.reveal_views();
                            sb.reveal_views();
                            assert(self.types_seq() == sb.types_seq() && self.protos_seq() == sb.protos_seq());
                            assert(self.depth() == sb.depth());
                            assert(self.conforms_spec(arg_ty@, param_types@[i as int]@));
                            assert(self.unifier.resolved(arg_ty@) == self.unifier.resolved(param_types@[i as int]@));
                        }
                    }
                }
                TypeChecker::lemma_step_trans(si, sa, sb);
                TypeChecker::lemma_step_trans(si, sb, *self);
                TypeChecker::lemma_step_trans(s0, si, *self);
                TypeChecker::lemma_step_trans(sa, sb, *self);
                if self.errors@.len() == s0.errors@.len() {
                    assert forall|j: int| 0 <= j < i + 1 implies well_typed(*x.args@[j], self.unifier) by {
                        if j < i {
                            assert(x.args@[j] == ai[j]);
                            lemma_lift(*ai[j], si, *self, s0.errors@.len() as int);
                        } else {
                            lemma_lift(*x.args@[j], sa, *self, s0.errors@.len() as int);
                        }
                    }
                }
            }
            i = i + 1;
        }
        proof {
            self.reveal_wf();
            assert(x.args@.subrange(0, i as int) =~= x.args@);
            assert forall|j: int| 0 <= j < x.args@.len() implies same_shape(*start[j], #[trigger] *x.args@[j]) by {
                if j >= i {
                    crate::ast::lemma_same_shape_refl(*start[j]);
                }
            }
        }
        let applied = self.unifier.apply(&ret_ty);
        x.ty = Some(applied.clone());
        applied
    }
}

impl TypeChecker {
    /// `new T(args)`: `T` must be a registered class, with as many arguments as it has
    /// parameters; each argument is unified with its parameter; the result is the class.
    pub(crate) fn visit_new(&mut self, x: &mut NewExpr) -> (res: HulkType)
        requires
            old(self).wf(),
        ensures
            old(self).expr_step(&*final(self)),
            same_shape(Expr::New(*old(x)), Expr::New(*final(x))),
            final(x).ty == Some(res) || res is Error,
            lookup(old(self).types@, old(x).class_name@) is None ==> res is Error && final(self).errors
                == old(self).errors,
            !(res is Error) ==> res@ == TypeView::Class(old(x).class_name@),
        decreases *old(x),
    {
        let ghost s0 = *self;
        proof {
            crate::ast::lemma_same_shape_refl(Expr::New(*x));
            TypeChecker::lemma_step_refl(*self);
        }
        let param_vars = match assoc_get(&self.types, x.class_name.as_str()) {
            Some(info) => clone_type_list(&info.param_vars),
            None => {
                return HulkType::Error;
            },
        };
        if x.args.len() != param_vars.len() {
            let mut msg = cat("Type '", x.class_name.as_str());
            msg.append("' expects ");
            push_decimal(&mut msg, param_vars.len());
            msg.append(" arguments");
            self.report(msg, x.span);
            return HulkType::Error;
        }
        let arg_tys = self.visit_args(&mut x.args);
        let ghost s1 = *self;
        proof {
            TypeChecker::lemma_step_refl(*self);
        }
        let mut i: usize = 0;
        while i < arg_tys.len() && i < param_vars.len()
            invariant
                self.wf(),
                s1.expr_step(&*self),
                i <= arg_tys@.len(),
            decreases arg_tys@.len() - i,
        {
            let ghost si = *self;
            self.unify_report(&arg_tys[i], &param_vars[i], x.span);
            proof {
                TypeChecker::lemma_step_trans(s1, si, *self);
            }
            i = i + 1;
        }
        proof {
            TypeChecker::lemma_step_trans(s0, s1, *self);
        }
        let obj_ty = HulkType::Class(x.class_name.clone());
        x.ty = Some(obj_ty.clone());
        obj_ty
    }

    /// `object.method(args)`: the object must be of a class or protocol that has the
    /// method, with that many arguments; each argument must conform to its parameter and is
    /// unified with it; the result is the method's return type after unification.
    pub(crate) fn visit_method_call(&mut self, x: &mut MethodCallExpr) -> (res: HulkType)
        requires
            old(self).wf(),
        ensures
            old(self).expr_step(&*final(self)),
            same_shape(Expr::MethodCall(*old(x)), Expr::MethodCall(*final(x))),
            final(x).ty == Some(res) || res is Error,
            final(self).errors@.len() == old(self).errors@.len() ==> well_typed(
                Expr::MethodCall(*final(x)),
                final(self).unifier,
            ),
        decreases *old(x),
    {
        let ghost s0 = *self;
        let ghost x0 = *x;
        let obj_ty = self.visit_expr(&mut x.object);
        let ghost s1 = *self;
        proof {
            assert forall|i: int| 0 <= i < x.args@.len() implies same_shape(*x0.args@[i], *x.args@[i]) by {
                crate::ast::lemma_same_shape_refl(*x0.args@[i]);
            }
        }
        let type_name_str: String = match &obj_ty {
            HulkType::Class(n) => n.clone(),
            HulkType::Protocol(n) => n.clone(),
            _ => {
                let mut msg = cat("Method call on non\u{2011}class or non\u{2011}protocol object (type: ", debug_string(&obj_ty).as_str());
                msg.append(")");
                self.report(msg, x.span);
                proof {
                    TypeChecker::lemma_step_trans(s0, s1, *self);
                }
                return HulkType::Error;
            },
        };
        let found: Option<(Vec<HulkType>, HulkType)> = if let Some(proto_info) = assoc_get(&self.protocols, type_name_str.as_str()) {
            match assoc_get(&proto_info.methods, x.method.as_str()) {
                Some(m) => Some((clone_type_list(&m.param_types), m.return_type.clone())),
                None => {
                    let mut msg = cat("Method '", x.method.as_str());
                    msg.append("' not found in protocol '");
                    msg.append(type_name_str.as_str());
                    msg.append("'");
                    self.report(msg, x.span);
                    None
                },
            }
        } else if let Some(class_info) = assoc_get(&self.types, type_name_str.as_str()) {
            match assoc_get(&class_info.methods, x.method.as_str()) {
                Some(m) => Some((clone_type_list(&m.param_types), m.return_type.clone())),
                None => {
                    let mut msg = cat("Method '", x.method.as_str());
                    msg.append("' not found in type '");
                    msg.append(type_name_str.as_str());
                    msg.append("'");
                    self.report(msg, x.span);
                    None
                },
            }
        } else {
            let mut msg = cat("Type or protocol '", type_name_str.as_str());
            msg.append("' not found");
            self.report(msg, x.span);
            None
        };
        let (param_types, return_type) = match found {
            Some(f) => f,
            None => {
                proof {
                    TypeChecker::lemma_step_trans(s0, s1, *self);
                }
                return HulkType::Error;
            },
        };
        if x.args.len() != param_types.len() {
            let mut msg = cat("Method '", x.method.as_str());
            msg.append("' expects ");
            push_decimal(&mut msg, param_types.len());
            msg.append(" arguments");
            self.report(msg, x.span);
            proof {
                TypeChecker::lemma_step_trans(s0, s1, *self);
            }
            return HulkType::Error;
        }
        let arg_tys = self.visit_args(&mut x.args);
        let ghost s2 = *self;
        proof {
            TypeChecker::lemma_step_trans(s0, s1, s2);
            TypeChecker::lemma_step_refl(*self);
        }
        let mut i: usize = 0;
        while i < arg_tys.len() && i < param_types.len()
            invariant
                self.wf(),
                s2.expr_step(&*self),
                i <= arg_tys@.len(),
            decreases arg_tys@.len() - i,
        {
            let ghost si = *self;
            if !self.conforms_to(&arg_tys[i], &param_types[i]) {
                let mut msg = cat("Argument type ", debug_string(&arg_tys[i]).as_str());
                msg.append(" does not conform to parameter type ");
                msg.append(debug_string(&param_types[i]).as_str());
                self.report(msg, x.span);
            } else {
                proof {
                    TypeChecker::lemma_step_refl(*self);
                }
            }
            let ghost sb = *self;
            self.unify_report(&arg_tys[i], &param_types[i], x.span);
            proof {
                TypeChecker::lemma_step_trans(si, sb, *self);
                TypeChecker::lemma_step_trans(s2, si, *self);
            }
            i = i + 1;
        }
        proof {
            TypeChecker::lemma_step_trans(s0, s2, *self);
            TypeChecker::lemma_step_trans(s1, s2, *self);
            self.reveal_wf();
            if self.errors@.len() == s0.errors@.len() {
                lemma_lift(*x.object, s1, *self, s0.errors@.len() as int);
                assert forall|j: int| 0 <= j < x.args@.len() implies well_typed(*x.args@[j], self.unifier) by {
                    assert(well_typed(*x.args@[j], s2.unifier));
                    lemma_well_typed_refines(*x.args@[j], s2.unifier, self.unifier);
                }
            }
        }
        let applied = self.unifier.apply(&return_type);
        x.ty = Some(applied.clone());
        applied
    }

    /// `self.attribute` inside a class: the attribute must be one the class itself defines.
    pub(crate) fn visit_attribute_access(&mut self, x: &mut AttributeAccessExpr) -> (res: HulkType)
        requires
            old(self).wf(),
        ensures
            old(self).expr_step(&*final(self)),
            same_shape(Expr::AttributeAccess(*old(x)), Expr::AttributeAccess(*final(x))),
            final(x).ty == Some(res) || res is Error,
            !(*old(x).object is SelfExpr) ==> res is Error,
            final(self).errors@.len() == old(self).errors@.len() ==> well_typed(
                Expr::AttributeAccess(*final(x)),
                final(self).unifier,
            ),
        decreases *old(x),
    {
        let ghost s0 = *self;
        let obj_ty = self.visit_expr(&mut x.object);
        let ghost s1 = *self;
        proof {
            self.reveal_wf();
        }
        let _resolved = match &obj_ty {
            HulkType::Var(_) => self.unifier.resolve(&obj_ty),
            _ => obj_ty.clone(),
        };
        let is_self = match &*x.object {
            Expr::SelfExpr(_) => true,
            _ => false,
        };
        if !is_self {
            let mut msg = cat("Cannot access attribute '", x.attribute.as_str());
            msg.append("' on non-self object");
            self.report(msg, x.span);
            proof {
                TypeChecker::lemma_step_trans(s0, s1, *self);
            }
            return HulkType::Error;
        }
        let current = match &self.current_type {
            Some(n) => n.clone(),
            None => {
                self.report(String::from_str("Cannot use self outside a type definition"), x.span);
                proof {
                    TypeChecker::lemma_step_trans(s0, s1, *self);
                }
                return HulkType::Error;
            },
        };
        let info = match assoc_get(&self.types, current.as_str()) {
            Some(i) => i,
            None => {
                let mut msg = cat("Type '", current.as_str());
                msg.append("' not found");
                self.report(msg, x.span);
                proof {
                    TypeChecker::lemma_step_trans(s0, s1, *self);
                }
                return HulkType::Error;
            },
        };
        if !has_name(&info.own_attributes, x.attribute.as_str()) {
            let mut msg = cat("Attribute '", x.attribute.as_str());
            msg.append("' is not defined in this class (cannot access inherited private attributes)");
            self.report(msg, x.span);
            proof {
                TypeChecker::lemma_step_trans(s0, s1, *self);
            }
            return HulkType::Error;
        }
        match assoc_get(&info.attributes, x.attribute.as_str()) {
            Some(t) => {
                let ty = t.clone();
                x.ty = Some(ty.clone());
                proof {
                    TypeChecker::lemma_step_refl(*self);
                    if self.errors@.len() == s0.errors@.len() {
                        lemma_lift(*x.object, s1, *self, s0.errors@.len() as int);
                    }
                }
                return ty;
            },
            None => {},
        }
        let mut msg = cat("Attribute '", x.attribute.as_str());
        msg.append("' not found in type '");
        msg.append(current.as_str());
        msg.append("'");
        self.report(msg, x.span);
        proof {
            TypeChecker::lemma_step_trans(s0, s1, *self);
        }
        HulkType::Error
    }

    /// `base`: the parent's method of the same name as the current method, with as many
    /// parameters, each unified in order with the current method's; the result is its
    /// return type, and the node records the parent and the method. Where a pair does not
    /// unify, or there is no such method, `base` is refused with one error at its span.
    pub(crate) fn visit_base(&mut self, x: &mut BaseExpr) -> (res: HulkType)
        requires
            old(self).wf(),
        ensures
            old(self).expr_step(&*final(self)),
            final(x).span == old(x).span,
            final(x).ty == Some(res),
            old(self).current_type is None ==> res is Error && final(self).errors@.len() == old(self).errors@.len() + 1,
            !base_ready(*old(self)) ==> base_refused(*old(self), *final(self), *old(x), res),
            base_ready(*old(self)) && base_params_unify(*old(self)) ==> ({
                &&& final(self).errors == old(self).errors
                &&& res@ == final(self).unifier.resolved(base_method(*old(self))->Some_0.return_type@)
                &&& final(x).base_type == base_parent(*old(self))
                &&& final(x).method_name == old(self).current_method
            }),
            base_ready(*old(self)) && !base_params_unify(*old(self)) ==> base_refused(
                *old(self),
                *final(self),
                *old(x),
                res,
            ),
        decreases *old(x),
    {
        let ghost s0 = *self;
        let current = match &self.current_type {
            Some(n) => n.clone(),
            None => {
                self.report(String::from_str("'base' used outside of a type"), x.span);
                x.ty = Some(HulkType::Error);
                return HulkType::Error;
            },
        };
        let parent_name = match assoc_get(&self.types, current.as_str()) {
            Some(info) => match &info.parent {
                Some(p) => p.clone(),
                None => {
                    let mut msg = cat("Type '", current.as_str());
                    msg.append("' has no parent");
                    self.report(msg, x.span);
                    x.ty = Some(HulkType::Error);
                    return HulkType::Error;
                },
            },
            None => {
                let mut msg = cat("Type '", current.as_str());
                msg.append("' not found");
                self.report(msg, x.span);
                x.ty = Some(HulkType::Error);
                return HulkType::Error;
            },
        };
        let method_name = match &self.current_method {
            Some(m) => m.clone(),
            None => {
                self.report(String::from_str("base used outside method"), x.span);
                x.ty = Some(HulkType::Error);
                return HulkType::Error;
            },
        };
        let current_params = match &self.current_method_params {
            Some(p) => clone_type_list(p),
            None => {
                self.report(String::from_str("base used without method params"), x.span);
                x.ty = Some(HulkType::Error);
                return HulkType::Error;
            },
        };
        let parent_method: Option<(Vec<HulkType>, HulkType)> = match assoc_get(&self.types, parent_name.as_str()) {
            Some(pinfo) => match assoc_get(&pinfo.methods, method_name.as_str()) {
                Some(m) => Some((clone_type_list(&m.param_types), m.return_type.clone())),
                None => None,
            },
            None => {
                let mut msg = cat("Parent type '", parent_name.as_str());
                msg.append("' not found");
                self.report(msg, x.span);
                x.ty = Some(HulkType::Error);
                return HulkType::Error;
            },
        };
        match parent_method {
            Some((pparams, pret)) => {
                if pparams.len() != current_params.len() {
                    let mut msg = cat("Method '", method_name.as_str());
                    msg.append("' in parent '");
                    msg.append(parent_name.as_str());
                    msg.append("' has ");
                    push_decimal(&mut msg, pparams.len());
                    msg.append(" parameters, but current method has ");
                    push_decimal(&mut msg, current_params.len());
                    self.report(msg, x.span);
                    x.ty = Some(HulkType::Error);
                    return HulkType::Error;
                }
                proof {
                    TypeChecker::lemma_step_refl(*self);
                    assert(views(pparams@).skip(0) =~= views(pparams@));
                    assert(views(current_params@).skip(0) =~= views(current_params@));
                    assert(pparams@ == base_method(s0)->Some_0.param_types@);
                    assert(current_params@ == s0.current_method_params->Some_0@);
                    assert(base_params_unify(s0) == params_unify(
                        s0.unifier.constraint_map(),
                        |y: TypeView| s0.unifier.resolved(y),
                        views(pparams@),
                        views(current_params@),
                    ));
                }
                let mut i: usize = 0;
                while i < pparams.len()
                    invariant
                        self.wf(),
                        s0.expr_step(&*self),
                        i <= pparams@.len(),
                        pparams@.len() == current_params@.len(),
                        x.span == old(x).span,
                        s0.current_type is Some,
                        s0 == *old(self),
                        self.errors == s0.errors,
                        self.unifier.constraint_map() == s0.unifier.constraint_map(),
                        base_params_unify(s0) == params_unify(
                            s0.unifier.constraint_map(),
                            |y: TypeView| s0.unifier.resolved(y),
                            views(pparams@),
                            views(current_params@),
                        ),
                        params_unify(
                            s0.unifier.constraint_map(),
                            |y: TypeView| self.unifier.resolved(y),
                            views(pparams@).skip(i as int),
                            views(current_params@).skip(i as int),
                        ) == params_unify(
                            s0.unifier.constraint_map(),
                            |y: TypeView| s0.unifier.resolved(y),
                            views(pparams@),
                            views(current_params@),
                        ),
                    decreases pparams@.len() - i,
                {
                    proof {
                        self.reveal_wf();
                    }
                    let ghost si = *self;
                    let r = self.unifier.unify(&pparams[i], &current_params[i]);
                    let ghost su = *self;
                    proof {
                        let pv = views(pparams@);
                        let cv = views(current_params@);
                        let ra = si.unifier.resolved(pparams@[i as int]@);
                        let rb = si.unifier.resolved(current_params@[i as int]@);
                        assert(pv.skip(i as int)[0] == pparams@[i as int]@);
                        assert(cv.skip(i as int)[0] == current_params@[i as int]@);
                        assert(pv.skip(i as int).drop_first() =~= pv.skip(i + 1));
                        assert(cv.skip(i as int).drop_first() =~= cv.skip(i + 1));
                        if r is Ok {
                            assert((|y: TypeView| su.unifier.resolved(y)) =~= (|y: TypeView| unify_update(
                                (|z: TypeView| si.unifier.resolved(z))(y),
                                ra,
                                rb,
                            )));
                        }
                        self.reveal_wf();
                        lemma_prefix_refl(si.errors@);
                        si.reveal_wf();
                        if r is Ok {
                            si.unifier.lemma_refines_update(
                                su.unifier,
                                si.unifier.resolved(pparams@[i as int]@),
                                si.unifier.resolved(current_params@[i as int]@),
                            );
                        } else {
                            si.unifier.lemma_refines_same(su.unifier);
                            assert(!unifiable(s0.unifier.constraint_map(), ra, rb));
                            assert(!params_unify(
                                s0.unifier.constraint_map(),
                                |y: TypeView| si.unifier.resolved(y),
                                pv.skip(i as int),
                                cv.skip(i as int),
                            ));
                        }
                        assert(si.expr_step(&su));
                        TypeChecker::lemma_step_trans(s0, si, su);
                    }
                    if let Err(m) = r {
                        let mut msg = with_number("Parameter ", i + 1, " type mismatch with parent: ");
                        msg.append(m.as_str());
                        self.report(msg, x.span);
                        proof {
                            TypeChecker::lemma_step_trans(s0, su, *self);
                        }
                        x.ty = Some(HulkType::Error);
                        return HulkType::Error;
                    }
                    i = i + 1;
                }
                proof {
                    self.reveal_wf();
                }
                let ret_ty = self.unifier.resolve(&pret);
                x.ty = Some(ret_ty.clone());
                x.base_type = Some(parent_name);
                x.method_name = Some(method_name);
                ret_ty
            },
            None => {
                let mut msg = cat("Method '", method_name.as_str());
                msg.append("' not found in parent type '");
                msg.append(parent_name.as_str());
                msg.append("'");
                self.report(msg, x.span);
                x.ty = Some(HulkType::Error);
                HulkType::Error
            },
        }
    }
}

} // verus!
