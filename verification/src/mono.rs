//! Monomorphization: every call of a generic function is redirected to a concrete
//! specialization of it, made on demand, in which each type variable of the function's
//! parameters is replaced by the type of the corresponding argument.
use vstd::prelude::*;
use std::collections::HashMap;
use crate::types::{HulkType, TypeView};
use crate::ast::{Expr, CallExpr, types_mapped, expr_ty, same_rel, same_expr, FunctionDef, Params, Program, TypeDef};
use crate::assoc::{lookup, key_index, keys_unique, assoc_get, assoc_has, assoc_insert, lemma_key_index};
use crate::error::CompilerError;
use crate::span::Span;
use crate::text::{decimal, usize_to_string, str_eq};

verus! {

broadcast use vstd::std_specs::hash::group_hash_axioms;

/// The text by which a type appears in the name of a specialization.
pub open spec fn type_text(t: TypeView) -> Seq<char>
    decreases t,
{
    match t {
        TypeView::Number => "Number"@,
        TypeView::Boolean => "Bool"@,
        TypeView::String => "String"@,
        TypeView::Object => "Object"@,
        TypeView::Class(n) => n,
        TypeView::Protocol(n) => n,
        TypeView::UserDefined(n) => "UserDefined"@ + n,
        TypeView::Var(id) => "Var"@ + decimal(id as nat),
        TypeView::Error => "Error"@,
        TypeView::GenericPlaceholder => "GenericPlaceholder"@,
        TypeView::Iterable(inner) => "Iterable"@ + type_text(*inner),
    }
}

/// The built-in types `Number`, `Boolean`, `String` and `Object` are written differently in
/// specialization names, so specializations for different built-in argument types never
/// share a name part.
pub proof fn lemma_builtin_type_texts_distinct(t: TypeView, u: TypeView)
    requires
        t is Number || t is Boolean || t is String || t is Object,
        u is Number || u is Boolean || u is String || u is Object,
        t != u,
    ensures
        type_text(t) != type_text(u),
{
    reveal_strlit("Number");
    reveal_strlit("Bool");
    reveal_strlit("String");
    reveal_strlit("Object");
    if type_text(t) == type_text(u) {
        assert(type_text(t).len() == type_text(u).len());
        assert(type_text(t)[0] == type_text(u)[0]);
    }
}

/// The models of a list of types.
pub open spec fn views(s: Seq<HulkType>) -> Seq<TypeView> {
    s.map_values(|t: HulkType| t@)
}

/// The name of the specialization of `name` for the argument types `tys`: the name,
/// then each type's text, all separated by `$`.
pub open spec fn mangled(name: Seq<char>, tys: Seq<TypeView>) -> Seq<char>
    decreases tys.len(),
{
    if tys.len() == 0 {
        name
    } else {
        mangled(name, tys.drop_last()) + "$"@ + type_text(tys.last())
    }
}

/// `t` with a type variable that `s` maps replaced by its image.
pub open spec fn replaced(t: HulkType, s: Map<usize, HulkType>) -> HulkType {
    match t {
        HulkType::Var(id) => if s.contains_key(id) {
            s[id]
        } else {
            t
        },
        _ => t,
    }
}

/// A type slot after substitution.
pub open spec fn replaced_slot(t: Option<HulkType>, s: Map<usize, HulkType>) -> Option<HulkType> {
    match t {
        Some(x) => Some(replaced(x, s)),
        None => None,
    }
}

/// Substitution of type variables in type slots.
pub open spec fn subst_rel(s: Map<usize, HulkType>) -> spec_fn(Option<HulkType>, Option<HulkType>) -> bool {
    |t1: Option<HulkType>, t2: Option<HulkType>| t2 == replaced_slot(t1, s)
}

/// The text of a type in specialization names.
pub fn type_to_string(ty: &HulkType) -> (res: String)
    ensures
        res@ == type_text(ty@),
    decreases ty,
{
    match ty {
        HulkType::Number => String::from_str("Number"),
        HulkType::Boolean => String::from_str("Bool"),
        HulkType::String => String::from_str("String"),
        HulkType::Object => String::from_str("Object"),
        HulkType::Class(name) => name.clone(),
        HulkType::Protocol(name) => name.clone(),
        HulkType::UserDefined(name) => {
            let mut out = String::from_str("UserDefined");
            out.append(name.as_str());
            out
        },
        HulkType::Var(id) => {
            let mut out = String::from_str("Var");
            let digits = usize_to_string(*id);
            out.append(digits.as_str());
            out
        },
        HulkType::Error => String::from_str("Error"),
        HulkType::GenericPlaceholder => String::from_str("GenericPlaceholder"),
        HulkType::Iterable(inner) => {
            let mut out = String::from_str("Iterable");
            let rest = type_to_string(inner);
            out.append(rest.as_str());
            out
        },
    }
}

/// Name of the concrete specialization of `func_name` for the argument types `types`,
/// e.g. `foo$Number$Bool`.
pub fn mangle_specialization(func_name: &str, types: &[HulkType]) -> (res: String)
    ensures
        res@ == mangled(func_name@, views(types@)),
{
    let mut out = String::from_str(func_name);
    let mut i: usize = 0;
    while i < types.len()
        invariant
            i <= types@.len(),
            out@ == mangled(func_name@, views(types@.subrange(0, i as int))),
        decreases types@.len() - i,
    {
        out.append("$");
        let part = type_to_string(&types[i]);
        out.append(part.as_str());
        proof {
            let next = views(types@.subrange(0, i + 1));
            assert(next.drop_last() =~= views(types@.subrange(0, i as int)));
            assert(next.last() == types@[i as int]@);
        }
        i = i + 1;
    }
    assert(types@.subrange(0, i as int) =~= types@);
    out
}

/// Replaces a type variable by its image under `subst`; any other type is returned as is.
pub fn replace_type_var(ty: &HulkType, subst: &HashMap<usize, HulkType>) -> (res: HulkType)
    ensures
        res == replaced(*ty, subst@),
{
    match ty {
        HulkType::Var(id) => match subst.get(id) {
            Some(t) => t.clone(),
            None => ty.clone(),
        },
        _ => ty.clone(),
    }
}

fn substitute_slot(slot: &mut Option<HulkType>, subst: &HashMap<usize, HulkType>)
    ensures
        *final(slot) == replaced_slot(*old(slot), subst@),
{
    match slot {
        Some(t) => {
            let r = replace_type_var(t, subst);
            *slot = Some(r);
        },
        None => {},
    }
}

fn substitute_in_list(v: &mut Vec<Box<Expr>>, subst: &HashMap<usize, HulkType>)
    ensures
        final(v)@.len() == old(v)@.len(),
        forall|i: int|
            0 <= i < old(v)@.len() ==> types_mapped(*old(v)@[i], #[trigger] *final(v)@[i], subst_rel(subst@)),
    decreases old(v)@, 0int,
{
    let ghost start = v@;
    let mut i: usize = 0;
    while i < v.len()
        invariant
            i <= v@.len(),
            v@.len() == start.len(),
            start == old(v)@,
            forall|j: int| 0 <= j < i ==> types_mapped(*start[j], #[trigger] *v@[j], subst_rel(subst@)),
            forall|j: int| i <= j < v@.len() ==> #[trigger] v@[j] == start[j],
        decreases v@.len() - i,
    {
        assert(v@[i as int] == start[i as int]);
        substitute_in_expr(&mut v[i], subst);
        i = i + 1;
    }
}

fn substitute_in_bindings(
    v: &mut Vec<(String, Option<HulkType>, Box<Expr>)>,
    subst: &HashMap<usize, HulkType>,
)
    ensures
        final(v)@.len() == old(v)@.len(),
        forall|i: int|
            #![trigger final(v)@[i]]
            0 <= i < old(v)@.len() ==> final(v)@[i].0 == old(v)@[i].0 && final(v)@[i].1 == old(v)@[i].1
                && types_mapped(*old(v)@[i].2, *final(v)@[i].2, subst_rel(subst@)),
    decreases old(v)@, 0int,
{
    let ghost start = v@;
    let mut i: usize = 0;
    while i < v.len()
        invariant
            i <= v@.len(),
            v@.len() == start.len(),
            start == old(v)@,
            forall|j: int|
                #![trigger v@[j]]
                0 <= j < i ==> v@[j].0 == start[j].0 && v@[j].1 == start[j].1 && types_mapped(
                    *start[j].2,
                    *v@[j].2,
                    subst_rel(subst@),
                ),
            forall|j: int| i <= j < v@.len() ==> #[trigger] v@[j] == start[j],
        decreases v@.len() - i,
    {
        assert(v@[i as int] == start[i as int]);
        substitute_in_expr(&mut v[i].2, subst);
        i = i + 1;
    }
}

/// Replaces, in the type of every node of `expr`, a type variable that `subst` maps by
/// its image; the tree itself is unchanged.
pub fn substitute_in_expr(expr: &mut Expr, subst: &HashMap<usize, HulkType>)
    ensures
        types_mapped(*old(expr), *final(expr), subst_rel(subst@)),
    decreases *old(expr), 1int,
{
    substitute_slot(expr.ty_mut(), subst);
    match expr {
        Expr::BinaryOp(b) => {
            substitute_in_expr(&mut b.left, subst);
            substitute_in_expr(&mut b.right, subst);
        },
        Expr::Call(c) => {
            substitute_in_list(&mut c.args, subst);
        },
        Expr::UnaryOp(x) => {
            substitute_in_expr(&mut x.expr, subst);
        },
        Expr::Let(l) => {
            substitute_in_bindings(&mut l.bindings, subst);
            substitute_in_expr(&mut l.body, subst);
        },
        Expr::DestructiveAssign(a) => {
            substitute_in_expr(&mut a.lhs, subst);
            substitute_in_expr(&mut a.value, subst);
        },
        Expr::Block(b) => {
            substitute_in_list(&mut b.expressions, subst);
        },
        Expr::If(x) => {
            substitute_in_expr(&mut x.condition, subst);
            substitute_in_expr(&mut x.then_branch, subst);
            substitute_in_expr(&mut x.else_branch, subst);
        },
        Expr::While(w) => {
            substitute_in_expr(&mut w.condition, subst);
            substitute_in_expr(&mut w.body, subst);
        },
        Expr::New(n) => {
            substitute_in_list(&mut n.args, subst);
        },
        Expr::MethodCall(m) => {
            substitute_in_expr(&mut m.object, subst);
            substitute_in_list(&mut m.args, subst);
        },
        Expr::AttributeAccess(a) => {
            substitute_in_expr(&mut a.object, subst);
        },
        _ => {},
    }
}

/// `b` is the function `a` with type variables replaced by `s` in the types of its
/// parameters, its return type and its body.
pub open spec fn function_substituted(a: FunctionDef, b: FunctionDef, s: Map<usize, HulkType>) -> bool {
    &&& b.name == a.name
    &&& b.span == a.span
    &&& b.is_generic == a.is_generic
    &&& b.ty_annotation == a.ty_annotation
    &&& b.ty == replaced_slot(a.ty, s)
    &&& b.params@.len() == a.params@.len()
    &&& forall|i: int|
        0 <= i < a.params@.len() ==> {
            let (p, q) = (a.params@[i], #[trigger] b.params@[i]);
            q.name == p.name && q.span == p.span && q.ty_annotation == p.ty_annotation && q.ty
                == replaced_slot(p.ty, s)
        }
    &&& types_mapped(*a.body, *b.body, subst_rel(s))
}

/// Applies a type substitution to a function: its parameters' types, its return type
/// and every type in its body. Its name and generic flag are left as they are.
pub fn substitute_in_function(func: &mut FunctionDef, subst: &HashMap<usize, HulkType>)
    ensures
        function_substituted(*old(func), *final(func), subst@),
{
    let ghost start = func.params@;
    let mut i: usize = 0;
    while i < func.params.len()
        invariant
            i <= func.params@.len(),
            start == old(func).params@,
            func.params@.len() == start.len(),
            func.name == old(func).name,
            func.span == old(func).span,
            func.is_generic == old(func).is_generic,
            func.ty_annotation == old(func).ty_annotation,
            func.ty == old(func).ty,
            func.body == old(func).body,
            forall|j: int|
                0 <= j < i ==> {
                    let (p, q) = (start[j], #[trigger] func.params@[j]);
                    q.name == p.name && q.span == p.span && q.ty_annotation == p.ty_annotation
                        && q.ty == replaced_slot(p.ty, subst@)
                },
            forall|j: int| i <= j < func.params@.len() ==> #[trigger] func.params@[j] == start[j],
        decreases func.params@.len() - i,
    {
        assert(func.params@[i as int] == start[i as int]);
        substitute_slot(&mut func.params[i].ty, subst);
        i = i + 1;
    }
    substitute_slot(&mut func.ty, subst);
    substitute_in_expr(&mut func.body, subst);
}


/// Every call in the expression has a type recorded for each of its arguments.
pub open spec fn calls_typed(e: Expr) -> bool
    decreases e,
{
    match e {
        Expr::Call(x) => (forall|i: int| 0 <= i < x.args@.len() ==> (#[trigger] expr_ty(*x.args@[i])) is Some)
            && forall|i: int| 0 <= i < x.args@.len() ==> calls_typed(*x.args@[i]),
        Expr::BinaryOp(x) => calls_typed(*x.left) && calls_typed(*x.right),
        Expr::UnaryOp(x) => calls_typed(*x.expr),
        Expr::Let(x) => (forall|i: int| 0 <= i < x.bindings@.len() ==> calls_typed(*x.bindings@[i].2))
            && calls_typed(*x.body),
        Expr::DestructiveAssign(x) => calls_typed(*x.lhs) && calls_typed(*x.value),
        Expr::Block(x) => forall|i: int| 0 <= i < x.expressions@.len() ==> calls_typed(*x.expressions@[i]),
        Expr::If(x) => calls_typed(*x.condition) && calls_typed(*x.then_branch) && calls_typed(*x.else_branch),
        Expr::While(x) => calls_typed(*x.condition) && calls_typed(*x.body),
        Expr::New(x) => forall|i: int| 0 <= i < x.args@.len() ==> calls_typed(*x.args@[i]),
        Expr::MethodCall(x) => calls_typed(*x.object) && forall|i: int|
            0 <= i < x.args@.len() ==> calls_typed(*x.args@[i]),
        Expr::AttributeAccess(x) => calls_typed(*x.object),
        _ => true,
    }
}

/// The recorded types of a list of arguments.
pub open spec fn arg_types(args: Seq<Box<Expr>>) -> Seq<TypeView> {
    Seq::new(
        args.len(),
        |i: int|
            match expr_ty(*args[i]) {
                Some(t) => t@,
                None => TypeView::Error,
            },
    )
}

/// What calls need of a function: whether it is generic, and its parameters.
pub open spec fn signatures(t: Seq<(String, FunctionDef)>) -> spec_fn(Seq<char>) -> Option<(bool, Seq<Params>)> {
    |k: Seq<char>|
        match lookup(t, k) {
            Some(f) => Some((f.is_generic, f.params@)),
            None => None,
        }
}

/// The function called `k` is generic.
pub open spec fn generic_callee(sig: spec_fn(Seq<char>) -> Option<(bool, Seq<Params>)>, k: Seq<char>) -> bool {
    sig(k) matches Some(s) && s.0
}

/// No recorded function is generic.
pub open spec fn no_generic(sig: spec_fn(Seq<char>) -> Option<(bool, Seq<Params>)>) -> bool {
    forall|k: Seq<char>| !#[trigger] generic_callee(sig, k)
}

proof fn lemma_last_named_in(fs: Seq<FunctionDef>, k: Seq<char>)
    ensures
        last_named(fs, k) matches Some(f) ==> exists|j: int| 0 <= j < fs.len() && fs[j] == f,
    decreases fs.len(),
{
    if fs.len() > 0 && fs.last().name@ != k {
        lemma_last_named_in(fs.drop_last(), k);
        if let Some(f) = last_named(fs.drop_last(), k) {
            let j = choose|j: int| 0 <= j < fs.drop_last().len() && fs.drop_last()[j] == f;
            assert(fs[j] == f);
        }
    } else if fs.len() > 0 {
        assert(fs[fs.len() - 1] == fs.last());
    }
}

/// A program without generic functions records none.
proof fn lemma_no_generic_program(fs: Seq<FunctionDef>)
    requires
        forall|j: int| 0 <= j < fs.len() ==> !(#[trigger] fs[j]).is_generic,
    ensures
        no_generic(program_signatures(fs)),
{
    assert forall|k: Seq<char>| !#[trigger] generic_callee(program_signatures(fs), k) by {
        lemma_last_named_in(fs, k);
    }
}

/// The error of the recursion guard: a specialization was needed again while it was
/// being made (or specializations nested beyond the depth bound).
pub open spec fn recursion_error(e: CompilerError) -> bool {
    e matches CompilerError::MonomorphizationError { msg, .. } && "infinite recursion detected while instantiating `"@.is_prefix_of(
        msg@,
    )
}

/// The function that a call is redirected to: the specialization for the argument
/// types when the callee is generic, the callee itself otherwise.
pub open spec fn call_target(sig: spec_fn(Seq<char>) -> Option<(bool, Seq<Params>)>, x: CallExpr) -> Seq<char> {
    if generic_callee(sig, x.func@) {
        mangled(x.func@, arg_types(x.args@))
    } else {
        x.func@
    }
}

/// `n` is the specialization that some call of a generic function in `e` needs: the
/// target of such a call, at any depth.
pub open spec fn call_in(sig: spec_fn(Seq<char>) -> Option<(bool, Seq<Params>)>, e: Expr, n: Seq<char>) -> bool
    decreases e,
{
    match e {
        Expr::Call(x) => (generic_callee(sig, x.func@) && call_target(sig, x) == n) || exists|i: int|
            0 <= i < x.args@.len() && call_in(sig, *x.args@[i], n),
        Expr::BinaryOp(x) => call_in(sig, *x.left, n) || call_in(sig, *x.right, n),
        Expr::UnaryOp(x) => call_in(sig, *x.expr, n),
        Expr::Let(x) => (exists|i: int| 0 <= i < x.bindings@.len() && call_in(sig, *x.bindings@[i].2, n)) || call_in(
            sig,
            *x.body,
            n,
        ),
        Expr::DestructiveAssign(x) => call_in(sig, *x.lhs, n) || call_in(sig, *x.value, n),
        Expr::Block(x) => exists|i: int| 0 <= i < x.expressions@.len() && call_in(sig, *x.expressions@[i], n),
        Expr::If(x) => call_in(sig, *x.condition, n) || call_in(sig, *x.then_branch, n) || call_in(
            sig,
            *x.else_branch,
            n,
        ),
        Expr::While(x) => call_in(sig, *x.condition, n) || call_in(sig, *x.body, n),
        Expr::New(x) => exists|i: int| 0 <= i < x.args@.len() && call_in(sig, *x.args@[i], n),
        Expr::MethodCall(x) => call_in(sig, *x.object, n) || exists|i: int|
            0 <= i < x.args@.len() && call_in(sig, *x.args@[i], n),
        Expr::AttributeAccess(x) => call_in(sig, *x.object, n),
        _ => false,
    }
}

/// The substitution that specializing a function with parameters `ps` for the argument
/// types `ts` applies, after its first `k` parameters: each parameter whose type is a
/// variable maps that variable to its argument's type.
pub open spec fn param_subst(ps: Seq<Params>, ts: Seq<HulkType>, k: int) -> Map<usize, HulkType>
    decreases k,
{
    if k <= 0 {
        Map::empty()
    } else {
        let prev = param_subst(ps, ts, k - 1);
        match ps[k - 1].ty {
            Some(HulkType::Var(id)) => if k - 1 < ts.len() {
                prev.insert(id, ts[k - 1])
            } else {
                prev
            },
            _ => prev,
        }
    }
}

/// `b` is the body of the specialization of the generic function `f` of `orig` for the
/// argument types `ts`: `f`'s body with its parameters' type variables replaced.
pub open spec fn made_from(orig: Seq<(String, FunctionDef)>, f: Seq<char>, ts: Seq<HulkType>, b: Expr) -> bool {
    match lookup(orig, f) {
        Some(fd) => fd.is_generic && exists|b0: Expr|
            #![trigger same_expr(*fd.body, b0)]
            same_expr(*fd.body, b0) && types_mapped(
                b0,
                b,
                subst_rel(param_subst(fd.params@, ts, fd.params@.len() as int)),
            ),
        None => false,
    }
}

/// Making the specialization named `n1` needs the specialization named `n2`: a call in
/// its body targets `n2`.
pub open spec fn needs(orig: Seq<(String, FunctionDef)>, n1: Seq<char>, n2: Seq<char>) -> bool {
    exists|f: Seq<char>, ts: Seq<HulkType>, b: Expr|
        #![trigger made_from(orig, f, ts, b), call_in(signatures(orig), b, n2)]
        mangled(f, views(ts)) == n1 && made_from(orig, f, ts, b) && call_in(signatures(orig), b, n2)
}

/// Each specialization of `s` needs the next one.
pub open spec fn needs_chain(orig: Seq<(String, FunctionDef)>, s: Seq<Seq<char>>) -> bool {
    forall|i: int, j: int| #![trigger needs(orig, s[i], s[j])] 0 <= i && j == i + 1 && j < s.len() ==> needs(orig, s[i], s[j])
}

/// Some specialization needs itself, through a chain of specializations: making it
/// would need it again while it is being made.
pub open spec fn specialization_cycle(orig: Seq<(String, FunctionDef)>) -> bool {
    exists|s: Seq<Seq<char>>| #![trigger needs_chain(orig, s)] s.len() >= 2 && s[0] == s[s.len() - 1] && needs_chain(orig, s)
}

/// Some chain of specializations, each needing the next, is longer than `d`.
pub open spec fn chain_longer_than(orig: Seq<(String, FunctionDef)>, d: int) -> bool {
    exists|s: Seq<Seq<char>>| #![trigger needs_chain(orig, s)] s.len() > d && needs_chain(orig, s)
}

/// `fd` is the specialization of the generic function `f` of `orig` for the argument
/// types `ts`: it bears the mangled name and is not generic; its parameters and return
/// type have the parameters' type variables replaced by `ts`; its body is `f`'s body
/// instantiated the same way, with its own calls redirected to specializations that
/// `present` admits.
pub open spec fn specialization_of(
    orig: Seq<(String, FunctionDef)>,
    f: Seq<char>,
    ts: Seq<HulkType>,
    fd: FunctionDef,
    present: spec_fn(Seq<char>) -> bool,
) -> bool {
    match lookup(orig, f) {
        Some(g) => {
            let s = param_subst(g.params@, ts, g.params@.len() as int);
            &&& g.is_generic
            &&& fd.name@ == mangled(f, views(ts))
            &&& !fd.is_generic
            &&& fd.ty == replaced_slot(g.ty, s)
            &&& fd.params@.len() == g.params@.len()
            &&& forall|i: int|
                0 <= i < g.params@.len() ==> (#[trigger] fd.params@[i]).name == g.params@[i].name
                    && fd.params@[i].ty == replaced_slot(g.params@[i].ty, s)
            &&& exists|b: Expr|
                #![trigger made_from(orig, f, ts, b)]
                made_from(orig, f, ts, b) && redirected(signatures(orig), present, b, *fd.body)
        },
        None => false,
    }
}

/// Each recorded specialization is the specialization of a generic function of `orig`
/// for some argument types, with calls redirected to recorded specializations.
#[verifier::opaque]
pub open spec fn specializations_made(orig: Seq<(String, FunctionDef)>, spec: Seq<(String, FunctionDef)>) -> bool {
    forall|i: int| 0 <= i < spec.len() ==> #[trigger] is_specialization(orig, spec[i].1, present_in(spec))
}

/// `fd` is the specialization of some generic function of `orig` for some argument types.
pub open spec fn is_specialization(
    orig: Seq<(String, FunctionDef)>,
    fd: FunctionDef,
    present: spec_fn(Seq<char>) -> bool,
) -> bool {
    exists|f: Seq<char>, ts: Seq<HulkType>| #[trigger] specialization_of(orig, f, ts, fd, present)
}

/// `fd` is, by name, one of the non-generic functions of `fs`, or the specialization
/// of a generic function of `orig` for some argument types.
pub open spec fn output_function(
    orig: Seq<(String, FunctionDef)>,
    fs: Seq<FunctionDef>,
    fd: FunctionDef,
    present: spec_fn(Seq<char>) -> bool,
) -> bool {
    (exists|k: int| 0 <= k < fs.len() && !fs[k].is_generic && #[trigger] fs[k].name == fd.name) || is_specialization(
        orig,
        fd,
        present,
    )
}

/// Recording the specialization `fd` of `f` for `ts` beside specializations already
/// made keeps every recorded one a specialization.
proof fn lemma_made_insert(
    orig: Seq<(String, FunctionDef)>,
    sp_old: Seq<(String, FunctionDef)>,
    sp_new: Seq<(String, FunctionDef)>,
    f: Seq<char>,
    ts: Seq<HulkType>,
    fd: FunctionDef,
)
    requires
        specializations_made(orig, sp_old),
        specialization_of(orig, f, ts, fd, present_in(sp_old)),
        forall|k: Seq<char>| #[trigger] present_in(sp_old)(k) ==> present_in(sp_new)(k),
        forall|i: int|
            #![trigger sp_new[i]]
            0 <= i < sp_new.len() ==> (i < sp_old.len() && sp_new[i] == sp_old[i]) || sp_new[i].1 == fd,
    ensures
        specializations_made(orig, sp_new),
{
    reveal(specializations_made);
    lemma_specialization_weaken(orig, f, ts, fd, present_in(sp_old), present_in(sp_new));
    assert forall|i: int| 0 <= i < sp_new.len() implies #[trigger] is_specialization(orig, sp_new[i].1, present_in(sp_new)) by {
        if sp_new[i].1 != fd {
            assert(sp_new[i] == sp_old[i]);
            assert(is_specialization(orig, sp_old[i].1, present_in(sp_old)));
            let (f1, ts1) = choose|f1: Seq<char>, ts1: Seq<HulkType>|
                #[trigger] specialization_of(orig, f1, ts1, sp_old[i].1, present_in(sp_old));
            lemma_specialization_weaken(orig, f1, ts1, sp_old[i].1, present_in(sp_old), present_in(sp_new));
        } else {
            assert(specialization_of(orig, f, ts, sp_new[i].1, present_in(sp_new)));
        }
    }
}

/// A specialization for `present` is one for any `present2` that admits at least as much.
pub proof fn lemma_specialization_weaken(
    orig: Seq<(String, FunctionDef)>,
    f: Seq<char>,
    ts: Seq<HulkType>,
    fd: FunctionDef,
    p1: spec_fn(Seq<char>) -> bool,
    p2: spec_fn(Seq<char>) -> bool,
)
    requires
        specialization_of(orig, f, ts, fd, p1),
        forall|k: Seq<char>| #[trigger] p1(k) ==> p2(k),
    ensures
        specialization_of(orig, f, ts, fd, p2),
{
    let b = choose|b: Expr| #[trigger] made_from(orig, f, ts, b) && redirected(signatures(orig), p1, b, *fd.body);
    lemma_redirected_weaken(signatures(orig), p1, p2, b, *fd.body);
}

/// `b` is `a` with each call redirected to its target, and each specialization that a
/// call now names is one of those that `present` admits.
pub open spec fn redirected(
    sig: spec_fn(Seq<char>) -> Option<(bool, Seq<Params>)>,
    present: spec_fn(Seq<char>) -> bool,
    a: Expr,
    b: Expr,
) -> bool
    decreases a,
{
    match a {
        Expr::Call(x) => b matches Expr::Call(y) && y.func@ == call_target(sig, x) && (generic_callee(
            sig,
            x.func@,
        ) ==> present(y.func@)) && x.span == y.span && x.ty == y.ty && x.args@.len() == y.args@.len()
            && forall|i: int| 0 <= i < x.args@.len() ==> redirected(sig, present, *x.args@[i], *y.args@[i]),
        Expr::BinaryOp(x) => b matches Expr::BinaryOp(y) && x.op == y.op && x.span == y.span && x.ty == y.ty
            && redirected(sig, present, *x.left, *y.left) && redirected(sig, present, *x.right, *y.right),
        Expr::UnaryOp(x) => b matches Expr::UnaryOp(y) && x.op == y.op && x.span == y.span && x.ty == y.ty
            && redirected(sig, present, *x.expr, *y.expr),
        Expr::Let(x) => b matches Expr::Let(y) && x.span == y.span && x.ty == y.ty && x.bindings@.len()
            == y.bindings@.len() && (forall|i: int|
            0 <= i < x.bindings@.len() ==> x.bindings@[i].0 == y.bindings@[i].0 && x.bindings@[i].1
                == y.bindings@[i].1 && redirected(sig, present, *x.bindings@[i].2, *y.bindings@[i].2))
            && redirected(sig, present, *x.body, *y.body),
        Expr::DestructiveAssign(x) => b matches Expr::DestructiveAssign(y) && x.span == y.span && x.ty == y.ty
            && redirected(sig, present, *x.lhs, *y.lhs) && redirected(sig, present, *x.value, *y.value),
        Expr::Block(x) => b matches Expr::Block(y) && x.span == y.span && x.ty == y.ty && x.expressions@.len()
            == y.expressions@.len() && forall|i: int|
            0 <= i < x.expressions@.len() ==> redirected(sig, present, *x.expressions@[i], *y.expressions@[i]),
        Expr::If(x) => b matches Expr::If(y) && x.span == y.span && x.ty == y.ty && redirected(
            sig,
            present,
            *x.condition,
            *y.condition,
        ) && redirected(sig, present, *x.then_branch, *y.then_branch) && redirected(
            sig,
            present,
            *x.else_branch,
            *y.else_branch,
        ),
        Expr::While(x) => b matches Expr::While(y) && x.span == y.span && x.ty == y.ty && redirected(
            sig,
            present,
            *x.condition,
            *y.condition,
        ) && redirected(sig, present, *x.body, *y.body),
        Expr::New(x) => b matches Expr::New(y) && x.class_name == y.class_name && x.span == y.span && x.ty
            == y.ty && x.args@.len() == y.args@.len() && forall|i: int|
            0 <= i < x.args@.len() ==> redirected(sig, present, *x.args@[i], *y.args@[i]),
        Expr::MethodCall(x) => b matches Expr::MethodCall(y) && x.method == y.method && x.span == y.span
            && x.ty == y.ty && redirected(sig, present, *x.object, *y.object) && x.args@.len() == y.args@.len()
            && forall|i: int| 0 <= i < x.args@.len() ==> redirected(sig, present, *x.args@[i], *y.args@[i]),
        Expr::AttributeAccess(x) => b matches Expr::AttributeAccess(y) && x.attribute == y.attribute && x.span
            == y.span && x.ty == y.ty && redirected(sig, present, *x.object, *y.object),
        _ => b == a,
    }
}

/// A redirection stays one when more specializations are admitted.
pub proof fn lemma_redirected_weaken(
    sig: spec_fn(Seq<char>) -> Option<(bool, Seq<Params>)>,
    p1: spec_fn(Seq<char>) -> bool,
    p2: spec_fn(Seq<char>) -> bool,
    a: Expr,
    b: Expr,
)
    requires
        redirected(sig, p1, a, b),
        forall|k: Seq<char>| #[trigger] p1(k) ==> p2(k),
    ensures
        redirected(sig, p2, a, b),
    decreases a,
{
    match a {
        Expr::Call(x) => {
            let y = b->Call_0;
            assert forall|i: int| 0 <= i < x.args@.len() implies redirected(sig, p2, *x.args@[i], *y.args@[i]) by {
                lemma_redirected_weaken(sig, p1, p2, *x.args@[i], *y.args@[i]);
            }
        },
        Expr::BinaryOp(x) => {
            let y = b->BinaryOp_0;
            lemma_redirected_weaken(sig, p1, p2, *x.left, *y.left);
            lemma_redirected_weaken(sig, p1, p2, *x.right, *y.right);
        },
        Expr::UnaryOp(x) => {
            let y = b->UnaryOp_0;
            lemma_redirected_weaken(sig, p1, p2, *x.expr, *y.expr);
        },
        Expr::Let(x) => {
            let y = b->Let_0;
            assert forall|i: int| 0 <= i < x.bindings@.len() implies redirected(
                sig,
                p2,
                *x.bindings@[i].2,
                *y.bindings@[i].2,
            ) by {
                lemma_redirected_weaken(sig, p1, p2, *x.bindings@[i].2, *y.bindings@[i].2);
            }
            lemma_redirected_weaken(sig, p1, p2, *x.body, *y.body);
        },
        Expr::DestructiveAssign(x) => {
            let y = b->DestructiveAssign_0;
            lemma_redirected_weaken(sig, p1, p2, *x.lhs, *y.lhs);
            lemma_redirected_weaken(sig, p1, p2, *x.value, *y.value);
        },
        Expr::Block(x) => {
            let y = b->Block_0;
            assert forall|i: int| 0 <= i < x.expressions@.len() implies redirected(
                sig,
                p2,
                *x.expressions@[i],
                *y.expressions@[i],
            ) by {
                lemma_redirected_weaken(sig, p1, p2, *x.expressions@[i], *y.expressions@[i]);
            }
        },
        Expr::If(x) => {
            let y = b->If_0;
            lemma_redirected_weaken(sig, p1, p2, *x.condition, *y.condition);
            lemma_redirected_weaken(sig, p1, p2, *x.then_branch, *y.then_branch);
            lemma_redirected_weaken(sig, p1, p2, *x.else_branch, *y.else_branch);
        },
        Expr::While(x) => {
            let y = b->While_0;
            lemma_redirected_weaken(sig, p1, p2, *x.condition, *y.condition);
            lemma_redirected_weaken(sig, p1, p2, *x.body, *y.body);
        },
        Expr::New(x) => {
            let y = b->New_0;
            assert forall|i: int| 0 <= i < x.args@.len() implies redirected(sig, p2, *x.args@[i], *y.args@[i]) by {
                lemma_redirected_weaken(sig, p1, p2, *x.args@[i], *y.args@[i]);
            }
        },
        Expr::MethodCall(x) => {
            let y = b->MethodCall_0;
            lemma_redirected_weaken(sig, p1, p2, *x.object, *y.object);
            assert forall|i: int| 0 <= i < x.args@.len() implies redirected(sig, p2, *x.args@[i], *y.args@[i]) by {
                lemma_redirected_weaken(sig, p1, p2, *x.args@[i], *y.args@[i]);
            }
        },
        Expr::AttributeAccess(x) => {
            let y = b->AttributeAccess_0;
            lemma_redirected_weaken(sig, p1, p2, *x.object, *y.object);
        },
        _ => {},
    }
}

/// Type slots related by `rel` keep being filled.
pub open spec fn keeps_filled(rel: spec_fn(Option<HulkType>, Option<HulkType>) -> bool) -> bool {
    forall|t1: Option<HulkType>, t2: Option<HulkType>| #[trigger] rel(t1, t2) && t1 is Some ==> t2 is Some
}

/// Calls keep typed arguments under a mapping of types that keeps slots filled.
pub proof fn lemma_typed_mapped(a: Expr, b: Expr, rel: spec_fn(Option<HulkType>, Option<HulkType>) -> bool)
    requires
        calls_typed(a),
        types_mapped(a, b, rel),
        keeps_filled(rel),
    ensures
        calls_typed(b),
    decreases a,
{
    match a {
        Expr::Call(x) => {
            let y = b->Call_0;
            assert forall|i: int| 0 <= i < y.args@.len() implies (#[trigger] expr_ty(*y.args@[i])) is Some by {
                assert(types_mapped(*x.args@[i], *y.args@[i], rel));
                assert(rel(expr_ty(*x.args@[i]), expr_ty(*y.args@[i])));
            }
            assert forall|i: int| 0 <= i < y.args@.len() implies calls_typed(*y.args@[i]) by {
                lemma_typed_mapped(*x.args@[i], *y.args@[i], rel);
            }
        },
        Expr::BinaryOp(x) => {
            let y = b->BinaryOp_0;
            lemma_typed_mapped(*x.left, *y.left, rel);
            lemma_typed_mapped(*x.right, *y.right, rel);
        },
        Expr::UnaryOp(x) => {
            let y = b->UnaryOp_0;
            lemma_typed_mapped(*x.expr, *y.expr, rel);
        },
        Expr::Let(x) => {
            let y = b->Let_0;
            assert forall|i: int| 0 <= i < y.bindings@.len() implies calls_typed(*y.bindings@[i].2) by {
                lemma_typed_mapped(*x.bindings@[i].2, *y.bindings@[i].2, rel);
            }
            lemma_typed_mapped(*x.body, *y.body, rel);
        },
        Expr::DestructiveAssign(x) => {
            let y = b->DestructiveAssign_0;
            lemma_typed_mapped(*x.lhs, *y.lhs, rel);
            lemma_typed_mapped(*x.value, *y.value, rel);
        },
        Expr::Block(x) => {
            let y = b->Block_0;
            assert forall|i: int| 0 <= i < y.expressions@.len() implies calls_typed(*y.expressions@[i]) by {
                lemma_typed_mapped(*x.expressions@[i], *y.expressions@[i], rel);
            }
        },
        Expr::If(x) => {
            let y = b->If_0;
            lemma_typed_mapped(*x.condition, *y.condition, rel);
            lemma_typed_mapped(*x.then_branch, *y.then_branch, rel);
            lemma_typed_mapped(*x.else_branch, *y.else_branch, rel);
        },
        Expr::While(x) => {
            let y = b->While_0;
            lemma_typed_mapped(*x.condition, *y.condition, rel);
            lemma_typed_mapped(*x.body, *y.body, rel);
        },
        Expr::New(x) => {
            let y = b->New_0;
            assert forall|i: int| 0 <= i < y.args@.len() implies calls_typed(*y.args@[i]) by {
                lemma_typed_mapped(*x.args@[i], *y.args@[i], rel);
            }
        },
        Expr::MethodCall(x) => {
            let y = b->MethodCall_0;
            lemma_typed_mapped(*x.object, *y.object, rel);
            assert forall|i: int| 0 <= i < y.args@.len() implies calls_typed(*y.args@[i]) by {
                lemma_typed_mapped(*x.args@[i], *y.args@[i], rel);
            }
        },
        Expr::AttributeAccess(x) => {
            let y = b->AttributeAccess_0;
            lemma_typed_mapped(*x.object, *y.object, rel);
        },
        _ => {},
    }
}

/// A redirected expression keeps its type.
pub proof fn lemma_redirected_ty(
    sig: spec_fn(Seq<char>) -> Option<(bool, Seq<Params>)>,
    present: spec_fn(Seq<char>) -> bool,
    a: Expr,
    b: Expr,
)
    requires
        redirected(sig, present, a, b),
    ensures
        expr_ty(a) == expr_ty(b),
{
}

/// Redirected calls keep typed arguments.
pub proof fn lemma_typed_redirected(
    sig: spec_fn(Seq<char>) -> Option<(bool, Seq<Params>)>,
    present: spec_fn(Seq<char>) -> bool,
    a: Expr,
    b: Expr,
)
    requires
        calls_typed(a),
        redirected(sig, present, a, b),
    ensures
        calls_typed(b),
    decreases a,
{
    match a {
        Expr::Call(x) => {
            let y = b->Call_0;
            assert forall|i: int| 0 <= i < y.args@.len() implies (#[trigger] expr_ty(*y.args@[i])) is Some by {
                lemma_redirected_ty(sig, present, *x.args@[i], *y.args@[i]);
            }
            assert forall|i: int| 0 <= i < y.args@.len() implies calls_typed(*y.args@[i]) by {
                lemma_typed_redirected(sig, present, *x.args@[i], *y.args@[i]);
            }
        },
        Expr::BinaryOp(x) => {
            let y = b->BinaryOp_0;
            lemma_typed_redirected(sig, present, *x.left, *y.left);
            lemma_typed_redirected(sig, present, *x.right, *y.right);
        },
        Expr::UnaryOp(x) => {
            let y = b->UnaryOp_0;
            lemma_typed_redirected(sig, present, *x.expr, *y.expr);
        },
        Expr::Let(x) => {
            let y = b->Let_0;
            assert forall|i: int| 0 <= i < y.bindings@.len() implies calls_typed(*y.bindings@[i].2) by {
                lemma_typed_redirected(sig, present, *x.bindings@[i].2, *y.bindings@[i].2);
            }
            lemma_typed_redirected(sig, present, *x.body, *y.body);
        },
        Expr::DestructiveAssign(x) => {
            let y = b->DestructiveAssign_0;
            lemma_typed_redirected(sig, present, *x.lhs, *y.lhs);
            lemma_typed_redirected(sig, present, *x.value, *y.value);
        },
        Expr::Block(x) => {
            let y = b->Block_0;
            assert forall|i: int| 0 <= i < y.expressions@.len() implies calls_typed(*y.expressions@[i]) by {
                lemma_typed_redirected(sig, present, *x.expressions@[i], *y.expressions@[i]);
            }
        },
        Expr::If(x) => {
            let y = b->If_0;
            lemma_typed_redirected(sig, present, *x.condition, *y.condition);
            lemma_typed_redirected(sig, present, *x.then_branch, *y.then_branch);
            lemma_typed_redirected(sig, present, *x.else_branch, *y.else_branch);
        },
        Expr::While(x) => {
            let y = b->While_0;
            lemma_typed_redirected(sig, present, *x.condition, *y.condition);
            lemma_typed_redirected(sig, present, *x.body, *y.body);
        },
        Expr::New(x) => {
            let y = b->New_0;
            assert forall|i: int| 0 <= i < y.args@.len() implies calls_typed(*y.args@[i]) by {
                lemma_typed_redirected(sig, present, *x.args@[i], *y.args@[i]);
            }
        },
        Expr::MethodCall(x) => {
            let y = b->MethodCall_0;
            lemma_typed_redirected(sig, present, *x.object, *y.object);
            assert forall|i: int| 0 <= i < y.args@.len() implies calls_typed(*y.args@[i]) by {
                lemma_typed_redirected(sig, present, *x.args@[i], *y.args@[i]);
            }
        },
        Expr::AttributeAccess(x) => {
            let y = b->AttributeAccess_0;
            lemma_typed_redirected(sig, present, *x.object, *y.object);
        },
        _ => {},
    }
}

/// Every attribute initializer and method body of a type has typed call arguments.
pub open spec fn typedef_calls_typed(t: TypeDef) -> bool {
    &&& forall|i: int| 0 <= i < t.attributes@.len() ==> calls_typed(*(#[trigger] t.attributes@[i]).init_expr)
    &&& forall|i: int| 0 <= i < t.methods@.len() ==> calls_typed(*(#[trigger] t.methods@[i]).body)
}

/// Everything that the pass visits in a program has typed call arguments.
pub open spec fn program_calls_typed(p: Program) -> bool {
    &&& calls_typed(*p.main_expr)
    &&& forall|i: int| 0 <= i < p.functions@.len() ==> calls_typed(*(#[trigger] p.functions@[i]).body)
    &&& forall|i: int| 0 <= i < p.types@.len() ==> typedef_calls_typed(#[trigger] p.types@[i])
}

/// A specialization named `k` is among the functions `fs`.
pub open spec fn defined_in(fs: Seq<FunctionDef>) -> spec_fn(Seq<char>) -> bool {
    |k: Seq<char>| exists|j: int| 0 <= j < fs.len() && (#[trigger] fs[j]).name@ == k
}

/// The last function of `fs` called `k`.
pub open spec fn last_named(fs: Seq<FunctionDef>, k: Seq<char>) -> Option<FunctionDef>
    decreases fs.len(),
{
    if fs.len() == 0 {
        None
    } else if fs.last().name@ == k {
        Some(fs.last())
    } else {
        last_named(fs.drop_last(), k)
    }
}

/// `g` is a copy of the function of `fs` named `k` (the last one of that name): the same
/// parameters, the same genericity and the same body.
pub open spec fn copies_definition(fs: Seq<FunctionDef>, k: Seq<char>, g: FunctionDef) -> bool {
    last_named(fs, k) matches Some(f) && g.params@ == f.params@ && g.is_generic == f.is_generic && same_expr(
        *f.body,
        *g.body,
    )
}

/// What calls need of the functions of a program: a name denotes the last function
/// defined under it.
pub open spec fn program_signatures(fs: Seq<FunctionDef>) -> spec_fn(Seq<char>) -> Option<(bool, Seq<Params>)> {
    |k: Seq<char>|
        match last_named(fs, k) {
            Some(f) => Some((f.is_generic, f.params@)),
            None => None,
        }
}

/// Every specialization named in `s` is admitted.
pub open spec fn present_in(s: Seq<(String, FunctionDef)>) -> spec_fn(Seq<char>) -> bool {
    |k: Seq<char>| lookup(s, k) is Some
}

/// The attribute initializers and method bodies of `b` are those of `a` with their calls
/// redirected.
pub open spec fn typedef_redirected(
    sig: spec_fn(Seq<char>) -> Option<(bool, Seq<Params>)>,
    present: spec_fn(Seq<char>) -> bool,
    a: TypeDef,
    b: TypeDef,
) -> bool {
    &&& b.name == a.name
    &&& b.attributes@.len() == a.attributes@.len()
    &&& b.methods@.len() == a.methods@.len()
    &&& forall|i: int|
        0 <= i < a.attributes@.len() ==> redirected(
            sig,
            present,
            *a.attributes@[i].init_expr,
            *(#[trigger] b.attributes@[i]).init_expr,
        )
    &&& forall|i: int|
        0 <= i < a.methods@.len() ==> redirected(sig, present, *a.methods@[i].body, *(#[trigger] b.methods@[i]).body)
}

proof fn lemma_typedef_redirected_weaken(
    sig: spec_fn(Seq<char>) -> Option<(bool, Seq<Params>)>,
    p1: spec_fn(Seq<char>) -> bool,
    p2: spec_fn(Seq<char>) -> bool,
    a: TypeDef,
    b: TypeDef,
)
    requires
        typedef_redirected(sig, p1, a, b),
        forall|k: Seq<char>| #[trigger] p1(k) ==> p2(k),
    ensures
        typedef_redirected(sig, p2, a, b),
{
    assert forall|i: int| 0 <= i < a.attributes@.len() implies redirected(
        sig,
        p2,
        *a.attributes@[i].init_expr,
        *(#[trigger] b.attributes@[i]).init_expr,
    ) by {
        lemma_redirected_weaken(sig, p1, p2, *a.attributes@[i].init_expr, *b.attributes@[i].init_expr);
    }
    assert forall|i: int| 0 <= i < a.methods@.len() implies redirected(
        sig,
        p2,
        *a.methods@[i].body,
        *(#[trigger] b.methods@[i]).body,
    ) by {
        lemma_redirected_weaken(sig, p1, p2, *a.methods@[i].body, *b.methods@[i].body);
    }
}

/// No two functions share a name.
pub open spec fn names_unique(fs: Seq<FunctionDef>) -> bool {
    forall|a: int, b: int| 0 <= a < b < fs.len() ==> (#[trigger] fs[a]).name@ != (#[trigger] fs[b]).name@
}

/// Entries of `s1` stay in `s2`, unchanged.
pub open spec fn grows(s1: Seq<(String, FunctionDef)>, s2: Seq<(String, FunctionDef)>) -> bool {
    forall|k: Seq<char>| #[trigger] lookup(s1, k) is Some ==> lookup(s2, k) == lookup(s1, k)
}

proof fn lemma_grows_present(s1: Seq<(String, FunctionDef)>, s2: Seq<(String, FunctionDef)>)
    requires
        grows(s1, s2),
    ensures
        forall|k: Seq<char>| #[trigger] present_in(s1)(k) ==> present_in(s2)(k),
{
    assert forall|k: Seq<char>| #[trigger] present_in(s1)(k) implies present_in(s2)(k) by {
        assert(lookup(s1, k) is Some);
    }
}

/// The monomorphization pass: the generic definitions, the specializations made so far,
/// and those being made.
pub struct MonomorphizationPass {
    pub(crate) original_functions: Vec<(String, FunctionDef)>,
    pub(crate) specialized: Vec<(String, FunctionDef)>,
    pub(crate) instantiating: Vec<String>,
}


impl MonomorphizationPass {
    /// The recorded definitions, by name.
    pub closed spec fn originals(&self) -> Seq<(String, FunctionDef)> {
        self.original_functions@
    }

    /// The specializations made so far, by name.
    pub closed spec fn specializations(&self) -> Seq<(String, FunctionDef)> {
        self.specialized@
    }

    /// The specializations being made.
    pub closed spec fn in_progress(&self) -> Seq<String> {
        self.instantiating@
    }

    /// Specializations are recorded once each, under their own name, and are not generic;
    /// each is the specialization of a recorded generic function.
    pub closed spec fn wf(&self) -> bool {
        &&& keys_unique(self.specialized@)
        &&& forall|i: int|
            0 <= i < self.specialized@.len() ==> (#[trigger] self.specialized@[i]).1.name@
                == self.specialized@[i].0@ && !self.specialized@[i].1.is_generic
        &&& specializations_made(self.original_functions@, self.specialized@)
    }

    /// Each specialization is recorded once, under its own name, is not generic, and is
    /// the specialization of a recorded generic function for some argument types.
    pub proof fn lemma_specializations_named(&self)
        requires
            self.wf(),
        ensures
            keys_unique(self.specializations()),
            forall|i: int|
                0 <= i < self.specializations().len() ==> (#[trigger] self.specializations()[i]).1.name@
                    == self.specializations()[i].0@ && !self.specializations()[i].1.is_generic,
            forall|i: int|
                0 <= i < self.specializations().len() ==> is_specialization(
                    self.originals(),
                    (#[trigger] self.specializations()[i]).1,
                    self.present(),
                ),
    {
        reveal(specializations_made);
    }

    /// Every recorded definition has typed call arguments.
    pub closed spec fn originals_ok(&self) -> bool {
        forall|k: Seq<char>| #[trigger] lookup(self.original_functions@, k) matches Some(f) ==> calls_typed(*f.body)
    }

    /// What calls need of the recorded definitions.
    pub open spec fn sig(&self) -> spec_fn(Seq<char>) -> Option<(bool, Seq<Params>)> {
        signatures(self.originals())
    }

    /// The specializations made so far.
    pub open spec fn present(&self) -> spec_fn(Seq<char>) -> bool {
        present_in(self.specializations())
    }

    /// `b` is the pass `a` after more work: the definitions are the same and the
    /// specializations only grew.
    pub open spec fn keeps(a: MonomorphizationPass, b: MonomorphizationPass) -> bool {
        &&& b.wf()
        &&& b.originals_ok()
        &&& b.originals() == a.originals()
        &&& grows(a.specializations(), b.specializations())
    }

    /// The specializations being made form a chain, each needing the next.
    pub open spec fn stack_ok(&self) -> bool {
        needs_chain(self.originals(), crate::type_checker::names(self.in_progress()))
    }

    /// While a specialization is being made, every specialization that a call in `e`
    /// needs is one that it needs.
    pub open spec fn ctx_ok(&self, e: Expr) -> bool {
        self.in_progress().len() > 0 ==> forall|n: Seq<char>|
            #[trigger] call_in(self.sig(), e, n) ==> needs(self.originals(), self.in_progress().last()@, n)
    }

    /// Why a visit with `fuel` levels of nesting left can fail: some specialization needs
    /// itself, or a chain of specializations is longer than the nesting allows.
    pub open spec fn failure_explained(&self, fuel: int) -> bool {
        specialization_cycle(self.originals()) || chain_longer_than(
            self.originals(),
            self.in_progress().len() + fuel,
        )
    }

    proof fn lemma_ctx_same(&self, other: Self)
        requires
            self.originals() == other.originals(),
            self.in_progress() == other.in_progress(),
        ensures
            forall|e: Expr| #[trigger] self.ctx_ok(e) ==> other.ctx_ok(e),
            self.stack_ok() == other.stack_ok(),
            forall|f: int| #[trigger] self.failure_explained(f) == other.failure_explained(f),
    {
        assert(self.sig() == other.sig());
        assert forall|e: Expr| #[trigger] self.ctx_ok(e) implies other.ctx_ok(e) by {
            if other.in_progress().len() > 0 {
                assert forall|n: Seq<char>| #[trigger] call_in(other.sig(), e, n) implies needs(
                    other.originals(),
                    other.in_progress().last()@,
                    n,
                ) by {
                    assert(call_in(self.sig(), e, n));
                }
            }
        }
    }

    proof fn lemma_empty_stack(&self)
        requires
            self.in_progress().len() == 0,
        ensures
            self.stack_ok(),
            forall|e: Expr| #[trigger] self.ctx_ok(e),
    {
        assert(crate::type_checker::names(self.in_progress()).len() == 0);
    }

    proof fn lemma_ctx_sub(&self, parent: Expr, child: Expr)
        requires
            self.ctx_ok(parent),
            forall|n: Seq<char>| #[trigger] call_in(self.sig(), child, n) ==> call_in(self.sig(), parent, n),
        ensures
            self.ctx_ok(child),
    {
    }

    /// A pass with nothing recorded.
    pub fn new() -> (res: Self)
        ensures
            res.wf(),
            res.originals() == Seq::<(String, FunctionDef)>::empty(),
            res.specializations() == Seq::<(String, FunctionDef)>::empty(),
            res.in_progress() == Seq::<String>::empty(),
    {
        let res = MonomorphizationPass { original_functions: Vec::new(), specialized: Vec::new(), instantiating: Vec::new() };
        proof {
            reveal(specializations_made);
        }
        res
    }

    fn in_progress_contains(&self, name: &String) -> (res: bool)
        ensures
            res == exists|j: int| 0 <= j < self.instantiating@.len() && (#[trigger] self.instantiating@[j])@ == name@,
    {
        let mut i: usize = 0;
        while i < self.instantiating.len()
            invariant
                i <= self.instantiating@.len(),
                forall|j: int| 0 <= j < i ==> (#[trigger] self.instantiating@[j])@ != name@,
            decreases self.instantiating@.len() - i,
        {
            if str_eq(self.instantiating[i].as_str(), name.as_str()) {
                return true;
            }
            i = i + 1;
        }
        false
    }

    fn visit_list(&mut self, v: &mut Vec<Box<Expr>>, fuel: usize) -> (r: Result<(), CompilerError>)
        requires
            old(self).stack_ok(),
            forall|i: int| 0 <= i < old(v)@.len() ==> old(self).ctx_ok(#[trigger] *old(v)@[i]),
            old(self).wf(),
            old(self).originals_ok(),
            forall|i: int| 0 <= i < old(v)@.len() ==> calls_typed(#[trigger] *old(v)@[i]),
        ensures
            r is Err ==> old(self).failure_explained(fuel as int),
            Self::keeps(*old(self), *final(self)),
            r is Ok ==> final(self).in_progress() == old(self).in_progress(),
            r is Ok ==> final(v)@.len() == old(v)@.len(),
            r is Ok ==> forall|i: int|
                0 <= i < old(v)@.len() ==> redirected(
                    final(self).sig(),
                    final(self).present(),
                    *old(v)@[i],
                    #[trigger] *final(v)@[i],
                ),
            r matches Err(e) ==> recursion_error(e),
            no_generic(old(self).sig()) ==> r is Ok,
        decreases fuel, *old(v), 1int,
    {
        let ghost start = v@;
        let ghost first = *self;
        let mut i: usize = 0;
        while i < v.len()
            invariant
                i <= v@.len(),
                v@.len() == start.len(),
                start == old(v)@,
                first == *old(self),
                Self::keeps(first, *self),
                self.in_progress() == first.in_progress(),
                self.stack_ok(),
                forall|j: int| 0 <= j < start.len() ==> self.ctx_ok(#[trigger] *start[j]),
                self.failure_explained(fuel as int) == first.failure_explained(fuel as int),
                forall|j: int| 0 <= j < start.len() ==> calls_typed(#[trigger] *start[j]),
                forall|j: int|
                    0 <= j < i ==> redirected(self.sig(), self.present(), *start[j], #[trigger] *v@[j]),
                forall|j: int| i <= j < v@.len() ==> #[trigger] v@[j] == start[j],
            decreases v@.len() - i,
        {
            assert(v@[i as int] == start[i as int]);
            let ghost before = *self;
            let r = self.visit_expr(&mut v[i], fuel);
            if r.is_err() {
                return r;
            }
            proof {
                before.lemma_ctx_same(*self);
            }
            proof {
                lemma_grows_present(before.specializations(), self.specializations());
                assert forall|j: int| 0 <= j < i implies redirected(
                    self.sig(),
                    self.present(),
                    *start[j],
                    #[trigger] *v@[j],
                ) by {
                    lemma_redirected_weaken(self.sig(), before.present(), self.present(), *start[j], *v@[j]);
                }
            }
            i = i + 1;
        }
        Ok(())
    }

    fn visit_bindings(&mut self, v: &mut Vec<(String, Option<HulkType>, Box<Expr>)>, fuel: usize) -> (r: Result<
        (),
        CompilerError,
    >)
        requires
            old(self).stack_ok(),
            forall|i: int| 0 <= i < old(v)@.len() ==> old(self).ctx_ok(#[trigger] *old(v)@[i].2),
            old(self).wf(),
            old(self).originals_ok(),
            forall|i: int| 0 <= i < old(v)@.len() ==> calls_typed(#[trigger] *old(v)@[i].2),
        ensures
            r is Err ==> old(self).failure_explained(fuel as int),
            Self::keeps(*old(self), *final(self)),
            r is Ok ==> final(self).in_progress() == old(self).in_progress(),
            r is Ok ==> final(v)@.len() == old(v)@.len(),
            r is Ok ==> forall|i: int|
                #![trigger final(v)@[i]]
                0 <= i < old(v)@.len() ==> final(v)@[i].0 == old(v)@[i].0 && final(v)@[i].1 == old(v)@[i].1
                    && redirected(final(self).sig(), final(self).present(), *old(v)@[i].2, *final(v)@[i].2),
            r matches Err(e) ==> recursion_error(e),
            no_generic(old(self).sig()) ==> r is Ok,
        decreases fuel, *old(v), 1int,
    {
        let ghost start = v@;
        let ghost first = *self;
        let mut i: usize = 0;
        while i < v.len()
            invariant
                i <= v@.len(),
                v@.len() == start.len(),
                start == old(v)@,
                first == *old(self),
                Self::keeps(first, *self),
                self.in_progress() == first.in_progress(),
                self.stack_ok(),
                forall|j: int| 0 <= j < start.len() ==> self.ctx_ok(#[trigger] *start[j].2),
                self.failure_explained(fuel as int) == first.failure_explained(fuel as int),
                forall|j: int| 0 <= j < start.len() ==> calls_typed(#[trigger] *start[j].2),
                forall|j: int|
                    #![trigger v@[j]]
                    0 <= j < i ==> v@[j].0 == start[j].0 && v@[j].1 == start[j].1 && redirected(
                        self.sig(),
                        self.present(),
                        *start[j].2,
                        *v@[j].2,
                    ),
                forall|j: int| i <= j < v@.len() ==> #[trigger] v@[j] == start[j],
            decreases v@.len() - i,
        {
            assert(v@[i as int] == start[i as int]);
            let ghost before = *self;
            let r = self.visit_expr(&mut v[i].2, fuel);
            if r.is_err() {
                return r;
            }
            proof {
                before.lemma_ctx_same(*self);
            }
            proof {
                lemma_grows_present(before.specializations(), self.specializations());
                assert forall|j: int| 0 <= j < i implies #[trigger] v@[j].0 == start[j].0 && v@[j].1 == start[j].1
                    && redirected(self.sig(), self.present(), *start[j].2, *v@[j].2) by {
                    lemma_redirected_weaken(self.sig(), before.present(), self.present(), *start[j].2, *v@[j].2);
                }
            }
            i = i + 1;
        }
        Ok(())
    }

    /// Visits a function's body.
    pub(crate) fn visit_function(&mut self, func: &mut FunctionDef, fuel: usize) -> (r: Result<(), CompilerError>)
        requires
            old(self).stack_ok(),
            old(self).ctx_ok(*old(func).body),
            old(self).wf(),
            old(self).originals_ok(),
            calls_typed(*old(func).body),
        ensures
            r is Err ==> old(self).failure_explained(fuel as int),
            Self::keeps(*old(self), *final(self)),
            r is Ok ==> final(self).in_progress() == old(self).in_progress(),
            final(func).name == old(func).name,
            final(func).is_generic == old(func).is_generic,
            final(func).params == old(func).params,
            final(func).span == old(func).span,
            final(func).ty == old(func).ty,
            final(func).ty_annotation == old(func).ty_annotation,
            r is Ok ==> redirected(final(self).sig(), final(self).present(), *old(func).body, *final(func).body),
            r matches Err(e) ==> recursion_error(e),
            no_generic(old(self).sig()) ==> r is Ok,
        decreases fuel, *old(func).body, 3int,
    {
        self.visit_expr(&mut func.body, fuel)
    }

    /// Visits an expression, redirecting each call of a generic function to its
    /// specialization; `fuel` bounds how deeply specializations are made within one
    /// another.
    pub(crate) fn visit_expr(&mut self, e: &mut Expr, fuel: usize) -> (r: Result<(), CompilerError>)
        requires
            old(self).stack_ok(),
            old(self).ctx_ok(*old(e)),
            old(self).wf(),
            old(self).originals_ok(),
            calls_typed(*old(e)),
        ensures
            r is Err ==> old(self).failure_explained(fuel as int),
            Self::keeps(*old(self), *final(self)),
            r is Ok ==> final(self).in_progress() == old(self).in_progress(),
            r is Ok ==> redirected(final(self).sig(), final(self).present(), *old(e), *final(e)),
            r matches Err(e) ==> recursion_error(e),
            no_generic(old(self).sig()) ==> r is Ok,
        decreases fuel, *old(e), 2int,
    {
        let ghost e0 = *e;
        let ghost s0 = *self;
        proof {
            match e0 {
                Expr::BinaryOp(x) => {
                    s0.lemma_ctx_sub(e0, *x.left);
                    s0.lemma_ctx_sub(e0, *x.right);
                },
                Expr::UnaryOp(x) => {
                    s0.lemma_ctx_sub(e0, *x.expr);
                },
                Expr::Let(x) => {
                    assert forall|i: int| 0 <= i < x.bindings@.len() implies s0.ctx_ok(#[trigger] *x.bindings@[i].2) by {
                        s0.lemma_ctx_sub(e0, *x.bindings@[i].2);
                    }
                    s0.lemma_ctx_sub(e0, *x.body);
                },
                Expr::DestructiveAssign(x) => {
                    s0.lemma_ctx_sub(e0, *x.lhs);
                    s0.lemma_ctx_sub(e0, *x.value);
                },
                Expr::Block(x) => {
                    assert forall|i: int| 0 <= i < x.expressions@.len() implies s0.ctx_ok(#[trigger] *x.expressions@[i]) by {
                        s0.lemma_ctx_sub(e0, *x.expressions@[i]);
                    }
                },
                Expr::If(x) => {
                    s0.lemma_ctx_sub(e0, *x.condition);
                    s0.lemma_ctx_sub(e0, *x.then_branch);
                    s0.lemma_ctx_sub(e0, *x.else_branch);
                },
                Expr::While(x) => {
                    s0.lemma_ctx_sub(e0, *x.condition);
                    s0.lemma_ctx_sub(e0, *x.body);
                },
                Expr::New(x) => {
                    assert forall|i: int| 0 <= i < x.args@.len() implies s0.ctx_ok(#[trigger] *x.args@[i]) by {
                        s0.lemma_ctx_sub(e0, *x.args@[i]);
                    }
                },
                Expr::MethodCall(x) => {
                    s0.lemma_ctx_sub(e0, *x.object);
                    assert forall|i: int| 0 <= i < x.args@.len() implies s0.ctx_ok(#[trigger] *x.args@[i]) by {
                        s0.lemma_ctx_sub(e0, *x.args@[i]);
                    }
                },
                Expr::AttributeAccess(x) => {
                    s0.lemma_ctx_sub(e0, *x.object);
                },
                _ => {},
            }
        }
        match e {
            Expr::Call(c) => {
                let r = self.visit_call(c, fuel);
                r
            },
            Expr::BinaryOp(b) => {
                let r = self.visit_expr(&mut b.left, fuel);
                if r.is_err() {
                    return r;
                }
                let ghost s1 = *self;
                proof {
                    s0.lemma_ctx_same(*self);
                }
                let r = self.visit_expr(&mut b.right, fuel);
                if r.is_err() {
                    return r;
                }
                proof {
                    lemma_grows_present(s1.specializations(), self.specializations());
                    lemma_redirected_weaken(self.sig(), s1.present(), self.present(), *e0->BinaryOp_0.left, *b.left);
                }
                Ok(())
            },
            Expr::UnaryOp(x) => self.visit_expr(&mut x.expr, fuel),
            Expr::Let(l) => {
                let r = self.visit_bindings(&mut l.bindings, fuel);
                if r.is_err() {
                    return r;
                }
                let ghost s1 = *self;
                proof {
                    s0.lemma_ctx_same(*self);
                }
                let r = self.visit_expr(&mut l.body, fuel);
                if r.is_err() {
                    return r;
                }
                proof {
                    lemma_grows_present(s1.specializations(), self.specializations());
                    let xb = e0->Let_0.bindings@;
                    assert forall|i: int| 0 <= i < xb.len() implies redirected(
                        self.sig(),
                        self.present(),
                        *xb[i].2,
                        *l.bindings@[i].2,
                    ) by {
                        assert(redirected(s1.sig(), s1.present(), *xb[i].2, *l.bindings@[i].2));
                        lemma_redirected_weaken(self.sig(), s1.present(), self.present(), *xb[i].2, *l.bindings@[i].2);
                    }
                }
                Ok(())
            },
            Expr::DestructiveAssign(a) => {
                let r = self.visit_expr(&mut a.lhs, fuel);
                if r.is_err() {
                    return r;
                }
                let ghost s1 = *self;
                proof {
                    s0.lemma_ctx_same(*self);
                }
                let r = self.visit_expr(&mut a.value, fuel);
                if r.is_err() {
                    return r;
                }
                proof {
                    lemma_grows_present(s1.specializations(), self.specializations());
                    lemma_redirected_weaken(self.sig(), s1.present(), self.present(), *e0->DestructiveAssign_0.lhs, *a.lhs);
                }
                Ok(())
            },
            Expr::Block(b) => self.visit_list(&mut b.expressions, fuel),
            Expr::If(x) => {
                let r = self.visit_expr(&mut x.condition, fuel);
                if r.is_err() {
                    return r;
                }
                let ghost s1 = *self;
                proof {
                    s0.lemma_ctx_same(*self);
                }
                let r = self.visit_expr(&mut x.then_branch, fuel);
                if r.is_err() {
                    return r;
                }
                let ghost s2 = *self;
                proof {
                    s0.lemma_ctx_same(*self);
                }
                let r = self.visit_expr(&mut x.else_branch, fuel);
                if r.is_err() {
                    return r;
                }
                proof {
                    lemma_grows_present(s1.specializations(), self.specializations());
                    lemma_grows_present(s2.specializations(), self.specializations());
                    lemma_redirected_weaken(self.sig(), s1.present(), self.present(), *e0->If_0.condition, *x.condition);
                    lemma_redirected_weaken(self.sig(), s2.present(), self.present(), *e0->If_0.then_branch, *x.then_branch);
                }
                Ok(())
            },
            Expr::While(w) => {
                let r = self.visit_expr(&mut w.condition, fuel);
                if r.is_err() {
                    return r;
                }
                let ghost s1 = *self;
                proof {
                    s0.lemma_ctx_same(*self);
                }
                let r = self.visit_expr(&mut w.body, fuel);
                if r.is_err() {
                    return r;
                }
                proof {
                    lemma_grows_present(s1.specializations(), self.specializations());
                    lemma_redirected_weaken(self.sig(), s1.present(), self.present(), *e0->While_0.condition, *w.condition);
                }
                Ok(())
            },
            Expr::New(n) => self.visit_list(&mut n.args, fuel),
            Expr::MethodCall(m) => {
                let r = self.visit_expr(&mut m.object, fuel);
                if r.is_err() {
                    return r;
                }
                let ghost s1 = *self;
                proof {
                    s0.lemma_ctx_same(*self);
                }
                let r = self.visit_list(&mut m.args, fuel);
                if r.is_err() {
                    return r;
                }
                proof {
                    lemma_grows_present(s1.specializations(), self.specializations());
                    lemma_redirected_weaken(self.sig(), s1.present(), self.present(), *e0->MethodCall_0.object, *m.object);
                }
                Ok(())
            },
            Expr::AttributeAccess(a) => self.visit_expr(&mut a.object, fuel),
            _ => Ok(()),
        }
    }

    /// Redirects a call of a generic function to its specialization for the types of
    /// the arguments, making the specialization first if it does not exist yet. The
    /// specializations being made form a chain, each needed by the one before; a call
    /// that needs one of them again is refused, and so is one that would nest more than
    /// `fuel` further levels.
    pub(crate) fn visit_call(&mut self, call: &mut CallExpr, fuel: usize) -> (r: Result<(), CompilerError>)
        requires
            old(self).stack_ok(),
            old(self).ctx_ok(Expr::Call(*old(call))),
            old(self).wf(),
            old(self).originals_ok(),
            calls_typed(Expr::Call(*old(call))),
        ensures
            r is Err ==> old(self).failure_explained(fuel as int),
            Self::keeps(*old(self), *final(self)),
            r is Ok ==> final(self).in_progress() == old(self).in_progress(),
            r is Ok ==> redirected(
                final(self).sig(),
                final(self).present(),
                Expr::Call(*old(call)),
                Expr::Call(*final(call)),
            ),
            r matches Err(e) ==> recursion_error(e),
            no_generic(old(self).sig()) ==> r is Ok,
        decreases fuel, *old(call), 2int,
    {
        let ghost c0 = *call;
        let ghost s0 = *self;
        proof {
            assert forall|i: int| 0 <= i < c0.args@.len() implies s0.ctx_ok(#[trigger] *c0.args@[i]) by {
                s0.lemma_ctx_sub(Expr::Call(c0), *c0.args@[i]);
            }
        }
        // Inner calls are specialized first.
        let r = self.visit_list(&mut call.args, fuel);
        if r.is_err() {
            return r;
        }
        proof {
            s0.lemma_ctx_same(*self);
            assert forall|i: int| 0 <= i < c0.args@.len() implies expr_ty(*call.args@[i]) == expr_ty(
                *c0.args@[i],
            ) by {
                lemma_redirected_ty(self.sig(), self.present(), *c0.args@[i], *call.args@[i]);
            }
            assert(arg_types(call.args@) =~= arg_types(c0.args@));
        }
        let func_def = match assoc_get(&self.original_functions, call.func.as_str()) {
            Some(f) => {
                if f.is_generic {
                    f.clone()
                } else {
                    return Ok(());
                }
            },
            None => {
                return Ok(());
            },
        };
        let ghost s1 = *self;
        proof {
            assert(generic_callee(self.sig(), call.func@));
        }
        // The concrete argument types.
        let mut tys: Vec<HulkType> = Vec::new();
        let mut i: usize = 0;
        while i < call.args.len()
            invariant
                i <= call.args@.len(),
                call.args@.len() == c0.args@.len(),
                tys@.len() == i,
                forall|j: int| 0 <= j < call.args@.len() ==> (#[trigger] expr_ty(*call.args@[j])) is Some,
                forall|j: int| 0 <= j < i ==> #[trigger] tys@[j]@ == arg_types(call.args@)[j],
            decreases call.args@.len() - i,
        {
            match call.args[i].get_type() {
                Some(t) => {
                    tys.push(t.clone());
                },
                None => {
                    assert(false);
                    return Ok(());
                },
            }
            i = i + 1;
        }
        assert(views(tys@) =~= arg_types(call.args@));
        let mangled_name = mangle_specialization(call.func.as_str(), tys.as_slice());
        let ghost stack = crate::type_checker::names(self.in_progress());
        let ghost orig = self.originals();
        proof {
            // The call needs the specialization `mangled_name`.
            assert(call_target(s0.sig(), c0) == mangled_name@);
            assert(call_in(s0.sig(), Expr::Call(c0), mangled_name@));
            if stack.len() > 0 {
                assert(needs(orig, stack.last(), mangled_name@));
            }
        }
        if self.in_progress_contains(&mangled_name) {
            let mut msg = String::from_str("infinite recursion detected while instantiating `");
            msg.append(mangled_name.as_str());
            msg.append("`");
            proof {
                let pre = "infinite recursion detected while instantiating `"@;
                assert(msg@.subrange(0, pre.len() as int) =~= pre);
                let j = choose|j: int| 0 <= j < s1.instantiating@.len() && (#[trigger] s1.instantiating@[j])@ == mangled_name@;
                let cyc = stack.subrange(j, stack.len() as int).push(mangled_name@);
                assert(stack[j] == mangled_name@);
                assert forall|a: int, b: int| #![trigger needs(orig, cyc[a], cyc[b])] 0 <= a && b == a + 1 && b < cyc.len()
                    implies needs(orig, cyc[a], cyc[b]) by {
                    if b < cyc.len() - 1 {
                        assert(cyc[a] == stack[j + a] && cyc[b] == stack[j + b]);
                        assert(needs(orig, stack[j + a], stack[j + b]));
                    } else {
                        assert(cyc[a] == stack.last());
                    }
                }
                assert(needs_chain(orig, cyc));
                assert(cyc[0] == cyc[cyc.len() - 1]);
                assert(specialization_cycle(orig));
            }
            return Err(CompilerError::MonomorphizationError { msg, span: call.span });
        }
        if !assoc_has(&self.specialized, mangled_name.as_str()) {
            if fuel == 0 {
                let mut msg = String::from_str("infinite recursion detected while instantiating `");
                msg.append(mangled_name.as_str());
                msg.append("`");
                proof {
                    let pre = "infinite recursion detected while instantiating `"@;
                    assert(msg@.subrange(0, pre.len() as int) =~= pre);
                    let long = stack.push(mangled_name@);
                    assert forall|a: int, b: int| #![trigger needs(orig, long[a], long[b])] 0 <= a && b == a + 1 && b < long.len()
                        implies needs(orig, long[a], long[b]) by {
                        if b < long.len() - 1 {
                            assert(long[a] == stack[a] && long[b] == stack[b]);
                        } else {
                            assert(long[a] == stack.last());
                        }
                    }
                    assert(needs_chain(orig, long));
                    assert(chain_longer_than(orig, s1.in_progress().len() + fuel));
                }
                return Err(CompilerError::MonomorphizationError { msg, span: call.span });
            }
            let mut subst: HashMap<usize, HulkType> = HashMap::new();
            let mut k: usize = 0;
            while k < func_def.params.len()
                invariant
                    k <= func_def.params@.len(),
                    subst@ == param_subst(func_def.params@, tys@, k as int),
                decreases func_def.params@.len() - k,
            {
                if let Some(HulkType::Var(id)) = &func_def.params[k].ty {
                    if k < tys.len() {
                        subst.insert(*id, tys[k].clone());
                    }
                }
                k = k + 1;
            }
            self.instantiating.push(mangled_name.clone());
            let ghost fd_body = *func_def.body;
            let ghost fd_params = func_def.params@;
            let ghost fd_ty = func_def.ty;
            let mut concrete = func_def;
            concrete.name = mangled_name.clone();
            concrete.is_generic = false;
            let ghost body0 = *concrete.body;
            let ghost renamed = concrete;
            substitute_in_function(&mut concrete, &subst);
            let ghost made_body = *concrete.body;
            let ghost substituted = concrete;
            proof {
                let f = lookup(s1.originals(), call.func@).unwrap();
                assert(calls_typed(*f.body));
                assert(types_mapped(*f.body, fd_body, same_rel()));
                lemma_typed_mapped(*f.body, fd_body, same_rel());
                lemma_typed_mapped(body0, *concrete.body, subst_rel(subst@));
                // The body of the new specialization is the generic body instantiated.
                assert(body0 == fd_body);
                assert(fd_params == f.params@);
                assert(same_expr(*f.body, body0));
                assert(made_from(orig, call.func@, tys@, *concrete.body));
                assert(mangled(call.func@, views(tys@)) == mangled_name@);
                assert forall|m: Seq<char>| #[trigger] call_in(self.sig(), *concrete.body, m) implies needs(
                    self.originals(),
                    self.in_progress().last()@,
                    m,
                ) by {
                    assert(self.in_progress().last()@ == mangled_name@);
                    assert(call_in(signatures(orig), *concrete.body, m));
                }
                let st2 = crate::type_checker::names(self.in_progress());
                assert(st2 == stack.push(mangled_name@));
                assert forall|a: int, b: int| #![trigger needs(orig, st2[a], st2[b])] 0 <= a && b == a + 1 && b < st2.len()
                    implies needs(orig, st2[a], st2[b]) by {
                    if b < st2.len() - 1 {
                        assert(st2[a] == stack[a] && st2[b] == stack[b]);
                    } else {
                        assert(st2[a] == stack.last());
                    }
                }
                assert(self.stack_ok());
            }
            let ghost s2 = *self;
            let r = self.visit_function(&mut concrete, fuel - 1);
            if r.is_err() {
                return r;
            }
            proof {
                lemma_key_index(self.specialized@, mangled_name@);
            }
            let ghost s3 = *self;
            let ghost conc = concrete;
            assoc_insert(&mut self.specialized, mangled_name.clone(), concrete);
            proof {
                let orig = self.originals();
                let g = lookup(orig, call.func@).unwrap();
                let sp_old = s3.specialized@;
                let sp_new = self.specialized@;
                assert forall|i: int| #![trigger sp_new[i]] 0 <= i < sp_new.len() implies (i < sp_old.len()
                    && sp_new[i] == sp_old[i]) || sp_new[i].1 == conc by {
                    let idx = key_index(sp_old, mangled_name@);
                    if idx >= 0 {
                        if i != idx {
                            assert(sp_new[i] == sp_old[i]);
                        }
                    } else if i < sp_old.len() {
                        assert(sp_new[i] == sp_old[i]);
                    }
                }
                assert forall|k: Seq<char>| #[trigger] present_in(sp_old)(k) implies present_in(sp_new)(k) by {
                    if k != mangled_name@ {
                        assert(lookup(sp_new, k) == lookup(sp_old, k));
                    }
                }
                // The new entry.
                assert(fd_params == g.params@);
                assert(fd_ty == g.ty);
                assert(subst@ == param_subst(g.params@, tys@, g.params@.len() as int));
                assert forall|i: int| 0 <= i < g.params@.len() implies (#[trigger] conc.params@[i]).name == g.params@[i].name
                    && conc.params@[i].ty == replaced_slot(g.params@[i].ty, subst@) by {
                    assert(conc.params@[i] == substituted.params@[i]);
                    assert(renamed.params@[i] == g.params@[i]);
                }
                assert(made_from(orig, call.func@, tys@, made_body));
                assert(redirected(signatures(orig), present_in(sp_old), made_body, *conc.body));
                assert(specialization_of(orig, call.func@, tys@, conc, present_in(sp_old)));
                lemma_made_insert(orig, sp_old, sp_new, call.func@, tys@, conc);
            }
            self.instantiating.pop();
            proof {
                assert(self.instantiating@ =~= s1.instantiating@);
            }
        }
        call.func = mangled_name;
        proof {
            lemma_grows_present(s1.specializations(), self.specializations());
            assert forall|i: int| 0 <= i < c0.args@.len() implies redirected(
                self.sig(),
                self.present(),
                *c0.args@[i],
                *call.args@[i],
            ) by {
                lemma_redirected_weaken(self.sig(), s1.present(), self.present(), *c0.args@[i], *call.args@[i]);
            }
        }
        Ok(())
    }

    /// Visits the attribute initializers and method bodies of a type.
    pub(crate) fn visit_type_def(&mut self, td: &mut TypeDef, fuel: usize) -> (r: Result<(), CompilerError>)
        requires
            old(self).in_progress().len() == 0,
            old(self).wf(),
            old(self).originals_ok(),
            typedef_calls_typed(*old(td)),
        ensures
            r is Err ==> old(self).failure_explained(fuel as int),
            Self::keeps(*old(self), *final(self)),
            r is Ok ==> final(self).in_progress() == old(self).in_progress(),
            final(td).name == old(td).name,
            final(td).attributes@.len() == old(td).attributes@.len(),
            final(td).methods@.len() == old(td).methods@.len(),
            r is Ok ==> forall|i: int|
                0 <= i < old(td).attributes@.len() ==> redirected(
                    final(self).sig(),
                    final(self).present(),
                    *old(td).attributes@[i].init_expr,
                    *(#[trigger] final(td).attributes@[i]).init_expr,
                ),
            r is Ok ==> forall|i: int|
                0 <= i < old(td).methods@.len() ==> redirected(
                    final(self).sig(),
                    final(self).present(),
                    *old(td).methods@[i].body,
                    *(#[trigger] final(td).methods@[i]).body,
                ),
            r matches Err(e) ==> recursion_error(e),
            no_generic(old(self).sig()) ==> r is Ok,
    {
        let ghost first = *self;
        let ghost attrs = td.attributes@;
        let ghost methods = td.methods@;
        let mut i: usize = 0;
        while i < td.attributes.len()
            invariant
                i <= td.attributes@.len(),
                td.attributes@.len() == attrs.len(),
                td.methods@ == methods,
                td.name == old(td).name,
                attrs == old(td).attributes@,
                methods == old(td).methods@,
                first == *old(self),
                Self::keeps(first, *self),
                self.in_progress() == first.in_progress(),
                self.in_progress().len() == 0,
                forall|j: int| 0 <= j < attrs.len() ==> calls_typed(*(#[trigger] attrs[j]).init_expr),
                forall|j: int|
                    0 <= j < i ==> redirected(
                        self.sig(),
                        self.present(),
                        *attrs[j].init_expr,
                        *(#[trigger] td.attributes@[j]).init_expr,
                    ),
                forall|j: int| i <= j < td.attributes@.len() ==> #[trigger] td.attributes@[j] == attrs[j],
            decreases td.attributes@.len() - i,
        {
            assert(td.attributes@[i as int] == attrs[i as int]);
            let ghost before = *self;
            proof {
                self.lemma_empty_stack();
                first.lemma_ctx_same(*self);
            }
            let r = self.visit_expr(&mut td.attributes[i].init_expr, fuel);
            if r.is_err() {
                return r;
            }
            proof {
                lemma_grows_present(before.specializations(), self.specializations());
                assert forall|j: int| 0 <= j < i implies redirected(
                    self.sig(),
                    self.present(),
                    *attrs[j].init_expr,
                    *(#[trigger] td.attributes@[j]).init_expr,
                ) by {
                    lemma_redirected_weaken(
                        self.sig(),
                        before.present(),
                        self.present(),
                        *attrs[j].init_expr,
                        *td.attributes@[j].init_expr,
                    );
                }
            }
            i = i + 1;
        }
        let ghost mid = *self;
        let ghost attrs_done = td.attributes@;
        let mut k: usize = 0;
        while k < td.methods.len()
            invariant
                k <= td.methods@.len(),
                td.methods@.len() == methods.len(),
                td.attributes@ == attrs_done,
                td.name == old(td).name,
                attrs_done.len() == attrs.len(),
                methods == old(td).methods@,
                attrs == old(td).attributes@,
                first == *old(self),
                Self::keeps(first, *self),
                Self::keeps(mid, *self),
                self.in_progress() == first.in_progress(),
                self.in_progress().len() == 0,
                forall|j: int| 0 <= j < methods.len() ==> calls_typed(*(#[trigger] methods[j]).body),
                forall|j: int|
                    0 <= j < attrs.len() ==> redirected(
                        mid.sig(),
                        mid.present(),
                        *attrs[j].init_expr,
                        *(#[trigger] attrs_done[j]).init_expr,
                    ),
                forall|j: int|
                    0 <= j < k ==> redirected(
                        self.sig(),
                        self.present(),
                        *methods[j].body,
                        *(#[trigger] td.methods@[j]).body,
                    ),
                forall|j: int| k <= j < td.methods@.len() ==> #[trigger] td.methods@[j] == methods[j],
            decreases td.methods@.len() - k,
        {
            assert(td.methods@[k as int] == methods[k as int]);
            let ghost before = *self;
            proof {
                self.lemma_empty_stack();
                first.lemma_ctx_same(*self);
            }
            let r = self.visit_expr(&mut td.methods[k].body, fuel);
            if r.is_err() {
                return r;
            }
            proof {
                lemma_grows_present(before.specializations(), self.specializations());
                assert forall|j: int| 0 <= j < k implies redirected(
                    self.sig(),
                    self.present(),
                    *methods[j].body,
                    *(#[trigger] td.methods@[j]).body,
                ) by {
                    lemma_redirected_weaken(self.sig(), before.present(), self.present(), *methods[j].body, *td.methods@[j].body);
                }
            }
            k = k + 1;
        }
        proof {
            lemma_grows_present(mid.specializations(), self.specializations());
            assert forall|j: int| 0 <= j < attrs.len() implies redirected(
                self.sig(),
                self.present(),
                *attrs[j].init_expr,
                *(#[trigger] td.attributes@[j]).init_expr,
            ) by {
                lemma_redirected_weaken(self.sig(), mid.present(), self.present(), *attrs[j].init_expr, *td.attributes@[j].init_expr);
            }
        }
        Ok(())
    }

    /// Visits a whole program: the main expression, the non-generic functions and the
    /// types; then adds every specialization made to the program's functions and removes
    /// the generic ones.
    pub fn visit_program(&mut self, program: &mut Program, fuel: usize) -> (r: Result<(), CompilerError>)
        requires
            old(self).in_progress().len() == 0,
            old(self).wf(),
            old(self).originals_ok(),
            program_calls_typed(*old(program)),
        ensures
            r is Err ==> old(self).failure_explained(fuel as int),
            final(self).wf(),
            final(self).originals() == old(self).originals(),
            r is Ok ==> final(self).specializations() == Seq::<(String, FunctionDef)>::empty(),
            r is Ok ==> forall|j: int|
                0 <= j < final(program).functions@.len() ==> !(#[trigger] final(program).functions@[j]).is_generic,
            r is Ok ==> redirected(
                old(self).sig(),
                defined_in(final(program).functions@),
                *old(program).main_expr,
                *final(program).main_expr,
            ),
            r is Ok && names_unique(old(program).functions@) ==> forall|k: int|
                0 <= k < old(program).functions@.len() && !(#[trigger] old(program).functions@[k]).is_generic
                    ==> exists|m: int|
                    0 <= m < final(program).functions@.len() && final(program).functions@[m].name
                        == old(program).functions@[k].name && redirected(
                        old(self).sig(),
                        defined_in(final(program).functions@),
                        *old(program).functions@[k].body,
                        *final(program).functions@[m].body,
                    ),
            r is Ok ==> forall|m: int|
                0 <= m < final(program).functions@.len() ==> output_function(
                    old(self).originals(),
                    old(program).functions@,
                    #[trigger] final(program).functions@[m],
                    defined_in(final(program).functions@),
                ),
            r is Ok ==> final(program).types@.len() == old(program).types@.len(),
            r is Ok ==> forall|t: int|
                0 <= t < old(program).types@.len() ==> typedef_redirected(
                    old(self).sig(),
                    defined_in(final(program).functions@),
                    old(program).types@[t],
                    #[trigger] final(program).types@[t],
                ),
            r matches Err(e) ==> recursion_error(e),
            no_generic(old(self).sig()) ==> r is Ok,
    {
        let ghost s0 = *self;
        let ghost main0 = *program.main_expr;
        let ghost fs0 = program.functions@;
        let ghost types0 = program.types@;
        let r = self.visit_expr(&mut program.main_expr, fuel);
        if r.is_err() {
            return r;
        }
        // Bodies of the concrete functions may call generic ones.
        let n = program.functions.len();
        let mut i: usize = 0;
        while i < n
            invariant
                i <= n,
                n == program.functions@.len(),
                fs0.len() == n,
                program.types@ == types0,
                types0 == old(program).types@,
                fs0 == old(program).functions@,
                main0 == *old(program).main_expr,
                s0 == *old(self),
                Self::keeps(s0, *self),
                self.in_progress() == s0.in_progress(),
                self.in_progress().len() == 0,
                forall|j: int| 0 <= j < n ==> calls_typed(*(#[trigger] program.functions@[j]).body),
                forall|j: int|
                    0 <= j < n ==> (#[trigger] program.functions@[j]).name == fs0[j].name
                        && program.functions@[j].is_generic == fs0[j].is_generic,
                forall|j: int| 0 <= j < types0.len() ==> typedef_calls_typed(#[trigger] types0[j]),
                redirected(self.sig(), self.present(), main0, *program.main_expr),
                forall|k: int| i <= k < n ==> #[trigger] program.functions@[k] == fs0[k],
                names_unique(fs0) ==> forall|k: int|
                    0 <= k < i && !fs0[k].is_generic ==> redirected(
                        self.sig(),
                        self.present(),
                        *fs0[k].body,
                        *(#[trigger] program.functions@[k]).body,
                    ),
            decreases n - i,
        {
            if !program.functions[i].is_generic {
                let mut j: usize = 0;
                while j < i && !str_eq(program.functions[j].name.as_str(), program.functions[i].name.as_str())
                    invariant
                        j <= i,
                        i < n,
                        n == program.functions@.len(),
                        fs0.len() == n,
                        forall|m: int| 0 <= m < n ==> (#[trigger] program.functions@[m]).name == fs0[m].name,
                        names_unique(fs0) ==> forall|m: int| 0 <= m < j ==> fs0[m].name@ != fs0[i as int].name@,
                    decreases i - j,
                {
                    proof {
                        if names_unique(fs0) {
                            assert(fs0[j as int].name@ != fs0[i as int].name@);
                        }
                    }
                    j = j + 1;
                }
                proof {
                    if names_unique(fs0) && j < i {
                        assert(program.functions@[j as int].name == fs0[j as int].name);
                        assert(program.functions@[i as int].name == fs0[i as int].name);
                        assert(fs0[j as int].name@ != fs0[i as int].name@);
                    }
                }
                let ghost before = *self;
                let ghost fb = program.functions@;
                proof {
                    self.lemma_empty_stack();
                    s0.lemma_ctx_same(*self);
                }
                let r = self.visit_function(&mut program.functions[j], fuel);
                if r.is_err() {
                    return r;
                }
                proof {
                    lemma_typed_redirected(self.sig(), self.present(), *fb[j as int].body, *program.functions@[j as int].body);
                    assert forall|m: int| 0 <= m < n implies calls_typed(*(#[trigger] program.functions@[m]).body) by {
                        if m != j {
                            assert(program.functions@[m] == fb[m]);
                        }
                    }
                    assert forall|m: int| 0 <= m < n implies (#[trigger] program.functions@[m]).name == fs0[m].name
                        && program.functions@[m].is_generic == fs0[m].is_generic by {
                        if m != j {
                            assert(program.functions@[m] == fb[m]);
                        }
                    }
                    lemma_grows_present(before.specializations(), self.specializations());
                    lemma_redirected_weaken(self.sig(), before.present(), self.present(), main0, *program.main_expr);
                    assert forall|k: int| i < k < n implies #[trigger] program.functions@[k] == fs0[k] by {
                        assert(program.functions@[k] == fb[k]);
                    }
                    if names_unique(fs0) {
                        assert(j == i);
                        assert forall|k: int| 0 <= k < i + 1 && !fs0[k].is_generic implies redirected(
                            self.sig(),
                            self.present(),
                            *fs0[k].body,
                            *(#[trigger] program.functions@[k]).body,
                        ) by {
                            if k < i {
                                assert(program.functions@[k] == fb[k]);
                                lemma_redirected_weaken(self.sig(), before.present(), self.present(), *fs0[k].body, *fb[k].body);
                            }
                        }
                    }
                }
            }
            i = i + 1;
        }
        let ghost s_fn = *self;
        let ghost fns_mid = program.functions@;
        // Attribute initializers and method bodies may call generic functions too.
        let nt = program.types.len();
        let mut t: usize = 0;
        while t < nt
            invariant
                t <= nt,
                nt == program.types@.len(),
                types0.len() == nt,
                main0 == *old(program).main_expr,
                s0 == *old(self),
                Self::keeps(s0, *self),
                self.in_progress() == s0.in_progress(),
                self.in_progress().len() == 0,
                forall|j: int| t <= j < nt ==> #[trigger] program.types@[j] == types0[j],
                forall|j: int| 0 <= j < types0.len() ==> typedef_calls_typed(#[trigger] types0[j]),
                redirected(self.sig(), self.present(), main0, *program.main_expr),
                program.functions@ == fns_mid,
                grows(s_fn.specializations(), self.specializations()),
                forall|j: int|
                    0 <= j < t ==> typedef_redirected(self.sig(), self.present(), types0[j], #[trigger] program.types@[j]),
            decreases nt - t,
        {
            let ghost tb = program.types@;
            assert(program.types@[t as int] == types0[t as int]);
            let ghost before = *self;
            proof {
                self.lemma_empty_stack();
                s0.lemma_ctx_same(*self);
            }
            let r = self.visit_type_def(&mut program.types[t], fuel);
            if r.is_err() {
                return r;
            }
            proof {
                assert forall|k: Seq<char>| #[trigger] lookup(s_fn.specializations(), k) is Some implies lookup(
                    self.specializations(),
                    k,
                ) == lookup(s_fn.specializations(), k) by {
                    assert(lookup(before.specializations(), k) == lookup(s_fn.specializations(), k));
                }
                lemma_grows_present(before.specializations(), self.specializations());
                lemma_redirected_weaken(self.sig(), before.present(), self.present(), main0, *program.main_expr);
                assert forall|j: int| 0 <= j < t + 1 implies typedef_redirected(
                    self.sig(),
                    self.present(),
                    types0[j],
                    #[trigger] program.types@[j],
                ) by {
                    if j < t {
                        assert(program.types@[j] == tb[j]);
                        lemma_typedef_redirected_weaken(self.sig(), before.present(), self.present(), types0[j], tb[j]);
                    }
                }
            }
            t = t + 1;
        }
        let ghost types_end = program.types@;
        // The specializations join the program's functions.
        let ghost s_end = *self;
        let ghost main_end = *program.main_expr;
        let mut made: Vec<(String, FunctionDef)> = Vec::new();
        std::mem::swap(&mut made, &mut self.specialized);
        proof {
            reveal(specializations_made);
        }
        let ghost all_made = made@;
        let ghost base = program.functions@;
        while made.len() > 0
            invariant
                *program.main_expr == main_end,
                program.types@ == types_end,
                all_made == s_end.specialized@,
                s_end.wf(),
                made@.len() <= all_made.len(),
                made@ == all_made.subrange(0, made@.len() as int),
                program.functions@.len() == base.len() + (all_made.len() - made@.len()),
                forall|j: int| 0 <= j < base.len() ==> #[trigger] program.functions@[j] == base[j],
                forall|m: int|
                    made@.len() <= m < all_made.len() ==> program.functions@[base.len() + (all_made.len() - 1
                        - m)] == (#[trigger] all_made[m]).1,
            decreases made@.len(),
        {
            let ghost len0 = made@.len();
            match made.pop() {
                Some(entry) => {
                    assert(entry == all_made[len0 - 1]);
                    program.functions.push(entry.1);
                    assert(made@ =~= all_made.subrange(0, made@.len() as int));
                },
                None => {
                    assert(false);
                },
            }
        }
        // The generic definitions are no longer needed.
        let ghost fs1 = program.functions@;
        let total = program.functions.len();
        let mut all: Vec<FunctionDef> = Vec::new();
        std::mem::swap(&mut all, &mut program.functions);
        let mut kept: Vec<FunctionDef> = Vec::new();
        let mut idx: usize = 0;
        while all.len() > 0
            invariant
                *program.main_expr == main_end,
                program.types@ == types_end,
                total == fs1.len(),
                idx <= fs1.len(),
                all@ == fs1.subrange(idx as int, fs1.len() as int),
                forall|m: int| 0 <= m < kept@.len() ==> !(#[trigger] kept@[m]).is_generic,
                forall|j: int|
                    0 <= j < idx && !(#[trigger] fs1[j]).is_generic ==> exists|m: int|
                        0 <= m < kept@.len() && kept@[m] == fs1[j],
                forall|m: int| 0 <= m < kept@.len() ==> exists|j: int| 0 <= j < idx && #[trigger] kept@[m] == fs1[j],
            decreases all@.len(),
        {
            let f = all.remove(0);
            assert(f == fs1[idx as int]);
            let ghost kept0 = kept@;
            if !f.is_generic {
                kept.push(f);
                assert(kept@[kept@.len() - 1] == fs1[idx as int]);
            }
            proof {
                assert forall|m: int| 0 <= m < kept@.len() implies exists|j: int|
                    0 <= j < idx + 1 && #[trigger] kept@[m] == fs1[j] by {
                    if m < kept0.len() {
                        assert(kept@[m] == kept0[m]);
                        let j = choose|j: int| 0 <= j < idx && #[trigger] kept0[m] == fs1[j];
                        assert(kept@[m] == fs1[j]);
                    } else {
                        assert(kept@[m] == fs1[idx as int]);
                    }
                }
                assert forall|j: int| 0 <= j < idx + 1 && !(#[trigger] fs1[j]).is_generic implies exists|m: int|
                    0 <= m < kept@.len() && kept@[m] == fs1[j] by {
                    if j < idx {
                        let m = choose|m: int| 0 <= m < kept0.len() && kept0[m] == fs1[j];
                        assert(kept@[m] == kept0[m]);
                    } else {
                        assert(kept@[kept@.len() - 1] == fs1[j]);
                    }
                }
            }
            assert(all@ =~= fs1.subrange(idx + 1, fs1.len() as int));
            idx = idx + 1;
        }
        program.functions = kept;
        proof {
            assert(idx == fs1.len());
            assert forall|k: Seq<char>| #[trigger] s_end.present()(k) implies defined_in(program.functions@)(k) by {
                lemma_key_index(all_made, k);
                let ki = key_index(all_made, k);
                assert(all_made[ki].0@ == k);
                assert(all_made[ki].1.name@ == k && !all_made[ki].1.is_generic);
                let pos = base.len() + (all_made.len() - 1 - ki);
                assert(fs1[pos] == all_made[ki].1);
                assert(!fs1[pos].is_generic);
                let m = choose|m: int| 0 <= m < program.functions@.len() && program.functions@[m] == fs1[pos];
                assert(program.functions@[m].name@ == k);
            }
            lemma_redirected_weaken(
                s_end.sig(),
                s_end.present(),
                defined_in(program.functions@),
                main0,
                *program.main_expr,
            );
            reveal(specializations_made);
            assert forall|m: int| 0 <= m < program.functions@.len() implies output_function(
                s0.originals(),
                fs0,
                #[trigger] program.functions@[m],
                defined_in(program.functions@),
            ) by {
                let j = choose|j: int| 0 <= j < idx && #[trigger] program.functions@[m] == fs1[j];
                assert(!program.functions@[m].is_generic);
                if j < base.len() {
                    assert(fs1[j] == base[j]);
                    assert(base[j] == fns_mid[j]);
                    assert(fns_mid[j].name == fs0[j].name && fns_mid[j].is_generic == fs0[j].is_generic);
                    assert(fs0[j].name == program.functions@[m].name);
                } else {
                    let mm = all_made.len() - 1 - (j - base.len());
                    assert(fs1[base.len() + (all_made.len() - 1 - mm)] == all_made[mm].1);
                    assert(is_specialization(s0.originals(), all_made[mm].1, present_in(all_made)));
                    let (f1, ts1) = choose|f1: Seq<char>, ts1: Seq<HulkType>|
                        #[trigger] specialization_of(s0.originals(), f1, ts1, all_made[mm].1, present_in(all_made));
                    lemma_specialization_weaken(
                        s0.originals(),
                        f1,
                        ts1,
                        all_made[mm].1,
                        present_in(all_made),
                        defined_in(program.functions@),
                    );
                }
            }
            assert forall|t: int| 0 <= t < types0.len() implies typedef_redirected(
                s0.sig(),
                defined_in(program.functions@),
                types0[t],
                #[trigger] program.types@[t],
            ) by {
                lemma_typedef_redirected_weaken(s0.sig(), s_end.present(), defined_in(program.functions@), types0[t], types_end[t]);
            }
            if names_unique(fs0) {
                lemma_grows_present(s_fn.specializations(), s_end.specializations());
                assert forall|k: int| 0 <= k < fs0.len() && !(#[trigger] fs0[k]).is_generic implies exists|m: int|
                    0 <= m < program.functions@.len() && program.functions@[m].name == fs0[k].name && redirected(
                        s0.sig(),
                        defined_in(program.functions@),
                        *fs0[k].body,
                        *program.functions@[m].body,
                    ) by {
                    assert(fs1[k] == base[k]);
                    assert(base[k] == fns_mid[k]);
                    assert(fns_mid[k].name == fs0[k].name && fns_mid[k].is_generic == fs0[k].is_generic);
                    let m = choose|m: int| 0 <= m < program.functions@.len() && program.functions@[m] == fs1[k];
                    lemma_redirected_weaken(s0.sig(), s_fn.present(), s_end.present(), *fs0[k].body, *fns_mid[k].body);
                    lemma_redirected_weaken(
                        s0.sig(),
                        s_end.present(),
                        defined_in(program.functions@),
                        *fs0[k].body,
                        *fns_mid[k].body,
                    );
                }
            }
        }
        Ok(())
    }

    /// Runs the pass on a program: records its functions, then redirects every call of
    /// a generic function to a specialization, which the program then defines, and
    /// removes the generic definitions. The main expression, the attribute initializers
    /// and method bodies, and the body of each concrete function when no two functions
    /// share a name, keep their shape with their calls redirected. It fails only where a
    /// specialization needs itself through a chain of specializations, each needed by a
    /// call in the body of the one before (or where such a chain is longer than
    /// `usize::MAX`), and never on a program without generic functions. The definitions it
    /// records are copies of the program's functions. Each function of the result is one
    /// of the program's concrete functions or the specialization of a generic one for
    /// some argument types: its parameters, return type and body with the type variables
    /// replaced. Specializations left from an earlier run are discarded.
    pub fn run(&mut self, program: &mut Program) -> (r: Result<(), CompilerError>)
        requires
            old(self).wf(),
            program_calls_typed(*old(program)),
        ensures
            final(self).wf(),
            r is Ok ==> forall|j: int|
                0 <= j < final(program).functions@.len() ==> !(#[trigger] final(program).functions@[j]).is_generic,
            r is Ok ==> redirected(
                program_signatures(old(program).functions@),
                defined_in(final(program).functions@),
                *old(program).main_expr,
                *final(program).main_expr,
            ),
            r is Ok && names_unique(old(program).functions@) ==> forall|k: int|
                0 <= k < old(program).functions@.len() && !(#[trigger] old(program).functions@[k]).is_generic
                    ==> exists|m: int|
                    0 <= m < final(program).functions@.len() && final(program).functions@[m].name
                        == old(program).functions@[k].name && redirected(
                        program_signatures(old(program).functions@),
                        defined_in(final(program).functions@),
                        *old(program).functions@[k].body,
                        *final(program).functions@[m].body,
                    ),
            r is Ok ==> forall|m: int|
                0 <= m < final(program).functions@.len() ==> output_function(
                    final(self).originals(),
                    old(program).functions@,
                    #[trigger] final(program).functions@[m],
                    defined_in(final(program).functions@),
                ),
            r is Ok ==> final(program).types@.len() == old(program).types@.len(),
            r is Ok ==> forall|t: int|
                0 <= t < old(program).types@.len() ==> typedef_redirected(
                    program_signatures(old(program).functions@),
                    defined_in(final(program).functions@),
                    old(program).types@[t],
                    #[trigger] final(program).types@[t],
                ),
            r matches Err(e) ==> recursion_error(e),
            (forall|j: int| 0 <= j < old(program).functions@.len() ==> !(#[trigger] old(program).functions@[j]).is_generic) ==> r is Ok,
            signatures(final(self).originals()) == program_signatures(old(program).functions@),
            forall|k: Seq<char>| #[trigger] lookup(final(self).originals(), k) is Some ==> copies_definition(
                old(program).functions@,
                k,
                lookup(final(self).originals(), k)->Some_0,
            ),
            r is Err ==> specialization_cycle(final(self).originals()) || chain_longer_than(
                final(self).originals(),
                usize::MAX as int,
            ),
    {
        let ghost fs = program.functions@;
        let mut table: Vec<(String, FunctionDef)> = Vec::new();
        proof {
            assert(signatures(table@) =~= program_signatures(fs.subrange(0, 0)));
        }
        let mut i: usize = 0;
        while i < program.functions.len()
            invariant
                i <= fs.len(),
                fs == program.functions@,
                fs == old(program).functions@,
                forall|j: int| 0 <= j < fs.len() ==> calls_typed(*(#[trigger] fs[j]).body),
                signatures(table@) == program_signatures(fs.subrange(0, i as int)),
                forall|k: Seq<char>| #[trigger] lookup(table@, k) matches Some(f) ==> calls_typed(*f.body),
                forall|k: Seq<char>| #[trigger] lookup(table@, k) is Some ==> copies_definition(
                    fs.subrange(0, i as int),
                    k,
                    lookup(table@, k)->Some_0,
                ),
            decreases fs.len() - i,
        {
            let name = program.functions[i].name.clone();
            let f = program.functions[i].clone();
            proof {
                lemma_typed_mapped(*fs[i as int].body, *f.body, same_rel());
            }
            let ghost t0 = table@;
            let ghost fi = f;
            assoc_insert(&mut table, name, f);
            proof {
                let pre = fs.subrange(0, i as int);
                let next = fs.subrange(0, i + 1);
                assert(next.drop_last() =~= pre);
                assert(next.last() == fs[i as int]);
                assert forall|k: Seq<char>| #[trigger] signatures(table@)(k) == program_signatures(next)(k) by {
                    if k == fs[i as int].name@ {
                        assert(lookup(table@, k) == Some(fi));
                    } else {
                        assert(lookup(table@, k) == lookup(t0, k));
                        assert(program_signatures(pre)(k) == signatures(t0)(k));
                    }
                }
                assert(signatures(table@) =~= program_signatures(next));
                assert forall|k: Seq<char>| #[trigger] lookup(table@, k) is Some implies copies_definition(
                    next,
                    k,
                    lookup(table@, k)->Some_0,
                ) by {
                    if k == fs[i as int].name@ {
                        assert(lookup(table@, k) == Some(fi));
                    } else {
                        assert(lookup(table@, k) == lookup(t0, k));
                    }
                }
                assert forall|k: Seq<char>| #[trigger] lookup(table@, k) is Some implies calls_typed(
                    *lookup(table@, k)->Some_0.body,
                ) by {
                    if k == fs[i as int].name@ {
                        assert(lookup(table@, k) == Some(fi));
                    } else {
                        assert(lookup(table@, k) == lookup(t0, k));
                    }
                }
            }
            i = i + 1;
        }
        proof {
            assert(fs.subrange(0, i as int) =~= fs);
        }
        self.original_functions = table;
        self.specialized = Vec::new();
        self.instantiating = Vec::new();
        proof {
            reveal(specializations_made);
            if forall|j: int| 0 <= j < fs.len() ==> !(#[trigger] fs[j]).is_generic {
                lemma_no_generic_program(fs);
            }
        }
        self.visit_program(program, usize::MAX)
    }
}

} // verus!
