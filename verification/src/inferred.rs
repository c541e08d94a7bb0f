use vstd::prelude::*;
use crate::types::HulkType;
use crate::span::Span;
use crate::error::CompilerError;
use crate::ast::{Program, TypeDef, Method};
use crate::text::{decimal, push_decimal};
use crate::type_checker::TypeChecker;

verus! {

/// The message and span of a type error.
pub open spec fn type_error_parts(e: CompilerError) -> Option<(Seq<char>, Span)> {
    match e {
        CompilerError::TypeError { msg, span } => Some((msg@, span)),
        _ => None,
    }
}

/// The error for a slot still holding a type variable.
pub open spec fn slot_error(ty: Option<HulkType>, span: Span, what: Seq<char>) -> Seq<(Seq<char>, Span)> {
    if ty matches Some(t) && t is Var {
        seq![
            ("Type of "@ + what
                + " could not be inferred. Please provide an explicit type annotation (e.g., x: Number"@,
            span),
        ]
    } else {
        Seq::empty()
    }
}

/// The name of the `i`-th parameter of a type definition, or `?`.
pub open spec fn param_name(td: TypeDef, i: int) -> Seq<char> {
    if 0 <= i < td.params@.len() {
        td.params@[i]@
    } else {
        "?"@
    }
}

/// Errors for the first `n` formal parameter types of a type definition.
pub open spec fn param_type_errors(td: TypeDef, n: int) -> Seq<(Seq<char>, Span)>
    decreases n,
{
    if n <= 0 {
        Seq::empty()
    } else {
        param_type_errors(td, n - 1) + match td.param_types@[n - 1] {
            HulkType::Var(id) => seq![
                ("Parameter '"@ + param_name(td, n - 1) + "' of type '"@ + td.name@
                    + "' could not be inferred (Var("@ + decimal(id as nat)
                    + ")). Please add an explicit type annotation."@,
                td.span),
            ],
            _ => Seq::empty(),
        }
    }
}

/// Errors for the first `n` attributes of a type definition.
pub open spec fn attr_errors(td: TypeDef, n: int) -> Seq<(Seq<char>, Span)>
    decreases n,
{
    if n <= 0 {
        Seq::empty()
    } else {
        let a = td.attributes@[n - 1];
        attr_errors(td, n - 1) + slot_error(
            a.ty,
            a.span,
            "attribute '"@ + a.name@ + "' of type '"@ + td.name@ + "'"@,
        )
    }
}

/// Errors for the first `n` parameters of a method.
pub open spec fn mparam_errors(td: TypeDef, m: Method, n: int) -> Seq<(Seq<char>, Span)>
    decreases n,
{
    if n <= 0 {
        Seq::empty()
    } else {
        let p = m.params@[n - 1];
        mparam_errors(td, m, n - 1) + slot_error(
            p.ty,
            p.span,
            "parameter '"@ + p.name@ + "' of method '"@ + m.name@ + "' in type '"@ + td.name@ + "'"@,
        )
    }
}

/// Errors for the first `n` methods of a type definition.
pub open spec fn method_errors(td: TypeDef, n: int) -> Seq<(Seq<char>, Span)>
    decreases n,
{
    if n <= 0 {
        Seq::empty()
    } else {
        let m = td.methods@[n - 1];
        method_errors(td, n - 1) + slot_error(
            m.ty,
            m.span,
            "return type of method '"@ + m.name@ + "' in type '"@ + td.name@ + "'"@,
        ) + mparam_errors(td, m, m.params@.len() as int)
    }
}

/// Errors for a type definition.
pub open spec fn typedef_errors(td: TypeDef) -> Seq<(Seq<char>, Span)> {
    param_type_errors(td, td.param_types@.len() as int) + attr_errors(td, td.attributes@.len() as int)
        + method_errors(td, td.methods@.len() as int)
}

/// Errors for the first `n` type definitions.
pub open spec fn var_errors(types: Seq<TypeDef>, n: int) -> Seq<(Seq<char>, Span)>
    decreases n,
{
    if n <= 0 {
        Seq::empty()
    } else {
        var_errors(types, n - 1) + typedef_errors(types[n - 1])
    }
}

/// The messages and spans of a list of type errors.
pub open spec fn error_list(v: Seq<CompilerError>) -> Seq<Option<(Seq<char>, Span)>> {
    v.map_values(|e: CompilerError| type_error_parts(e))
}

/// The list seen as optional entries.
pub open spec fn as_some(v: Seq<(Seq<char>, Span)>) -> Seq<Option<(Seq<char>, Span)>> {
    v.map_values(|x: (Seq<char>, Span)| Some(x))
}

fn push_error(errors: &mut Vec<CompilerError>, msg: String, span: Span)
    ensures
        error_list(final(errors)@) == error_list(old(errors)@).push(Some((msg@, span))),
{
    errors.push(CompilerError::TypeError { msg, span });
    proof {
        assert(error_list(errors@) =~= error_list(old(errors)@).push(Some((msg@, span))));
    }
}

fn check_slot(ty: &Option<HulkType>, span: Span, what: String, errors: &mut Vec<CompilerError>)
    ensures
        error_list(final(errors)@) == error_list(old(errors)@) + as_some(slot_error(*ty, span, what@)),
{
    if let Some(HulkType::Var(_)) = ty {
        let mut msg = String::from_str("Type of ");
        msg.append(what.as_str());
        msg.append(" could not be inferred. Please provide an explicit type annotation (e.g., x: Number");
        proof {
            reveal_strlit("Type of ");
            reveal_strlit(" could not be inferred. Please provide an explicit type annotation (e.g., x: Number");
        }
        push_error(errors, msg, span);
        proof {
            assert(as_some(slot_error(*ty, span, what@)) =~= seq![Some((msg@, span))]);
        }
    } else {
        proof {
            assert(as_some(slot_error(*ty, span, what@)) =~= Seq::empty());
            assert(error_list(errors@) + Seq::<Option<(Seq<char>, Span)>>::empty() =~= error_list(errors@));
        }
    }
}

/// Joins pieces of text into a new string.
fn join3(a: &str, b: &str, c: &str) -> (res: String)
    ensures
        res@ == a@ + b@ + c@,
{
    let mut s = String::from_str(a);
    s.append(b);
    s.append(c);
    s
}

proof fn lemma_as_some_add(a: Seq<(Seq<char>, Span)>, b: Seq<(Seq<char>, Span)>)
    ensures
        as_some(a + b) == as_some(a) + as_some(b),
{
    assert(as_some(a + b) =~= as_some(a) + as_some(b));
}

fn typedef_check(td: &TypeDef, errors: &mut Vec<CompilerError>)
    ensures
        error_list(final(errors)@) == error_list(old(errors)@) + as_some(typedef_errors(*td)),
{
    let ghost e0 = error_list(errors@);
    // formal parameters
    let mut i: usize = 0;
    while i < td.param_types.len()
        invariant
            i <= td.param_types@.len(),
            error_list(errors@) == e0 + as_some(param_type_errors(*td, i as int)),
        decreases td.param_types@.len() - i,
    {
        let ghost before = error_list(errors@);
        if let HulkType::Var(id) = &td.param_types[i] {
            let mut msg = String::from_str("Parameter '");
            if i < td.params.len() {
                msg.append(td.params[i].as_str());
            } else {
                msg.append("?");
            }
            msg.append("' of type '");
            msg.append(td.name.as_str());
            msg.append("' could not be inferred (Var(");
            push_decimal(&mut msg, *id);
            msg.append(")). Please add an explicit type annotation.");
            proof {
                reveal_strlit("Parameter '");
                reveal_strlit("?");
                reveal_strlit("' of type '");
                reveal_strlit("' could not be inferred (Var(");
                reveal_strlit(")). Please add an explicit type annotation.");
            }
            push_error(errors, msg, td.span);
            proof {
                lemma_as_some_add(param_type_errors(*td, i as int), seq![(msg@, td.span)]);
                assert(msg@ =~= "Parameter '"@ + param_name(*td, i as int) + "' of type '"@ + td.name@
                    + "' could not be inferred (Var("@ + decimal(*id as nat)
                    + ")). Please add an explicit type annotation."@);
                assert(as_some(seq![(msg@, td.span)]) =~= seq![Some((msg@, td.span))]);
            }
        } else {
            proof {
                assert(param_type_errors(*td, i + 1) =~= param_type_errors(*td, i as int));
            }
        }
        i = i + 1;
    }
    // attributes
    let ghost e1 = error_list(errors@);
    let mut a: usize = 0;
    while a < td.attributes.len()
        invariant
            a <= td.attributes@.len(),
            error_list(errors@) == e1 + as_some(attr_errors(*td, a as int)),
        decreases td.attributes@.len() - a,
    {
        let attr = &td.attributes[a];
        let mut what = join3("attribute '", attr.name.as_str(), "' of type '");
        what.append(td.name.as_str());
        what.append("'");
        proof {
            lemma_as_some_add(
                attr_errors(*td, a as int),
                slot_error(attr.ty, attr.span, what@),
            );
        }
        check_slot(&attr.ty, attr.span, what, errors);
        a = a + 1;
    }
    // methods
    let ghost e2 = error_list(errors@);
    let mut m: usize = 0;
    while m < td.methods.len()
        invariant
            m <= td.methods@.len(),
            error_list(errors@) == e2 + as_some(method_errors(*td, m as int)),
        decreases td.methods@.len() - m,
    {
        let meth = &td.methods[m];
        let mut what = join3("return type of method '", meth.name.as_str(), "' in type '");
        what.append(td.name.as_str());
        what.append("'");
        let ghost em = error_list(errors@);
        check_slot(&meth.ty, meth.span, what, errors);
        let ghost ep = error_list(errors@);
        let mut p: usize = 0;
        while p < meth.params.len()
            invariant
                p <= meth.params@.len(),
                meth == td.methods@[m as int],
                error_list(errors@) == ep + as_some(mparam_errors(*td, *meth, p as int)),
            decreases meth.params@.len() - p,
        {
            let par = &meth.params[p];
            let mut w = join3("parameter '", par.name.as_str(), "' of method '");
            w.append(meth.name.as_str());
            w.append("' in type '");
            w.append(td.name.as_str());
            w.append("'");
            proof {
                lemma_as_some_add(mparam_errors(*td, *meth, p as int), slot_error(par.ty, par.span, w@));
            }
            check_slot(&par.ty, par.span, w, errors);
            p = p + 1;
        }
        proof {
            let sl = slot_error(meth.ty, meth.span, "return type of method '"@ + meth.name@ + "' in type '"@ + td.name@ + "'"@);
            lemma_as_some_add(method_errors(*td, m as int), sl);
            lemma_as_some_add(method_errors(*td, m as int) + sl, mparam_errors(*td, *meth, meth.params@.len() as int));
        }
        m = m + 1;
    }
    proof {
        lemma_as_some_add(param_type_errors(*td, td.param_types@.len() as int), attr_errors(*td, td.attributes@.len() as int));
        lemma_as_some_add(
            param_type_errors(*td, td.param_types@.len() as int) + attr_errors(*td, td.attributes@.len() as int),
            method_errors(*td, td.methods@.len() as int),
        );
    }
}

impl TypeChecker {
    /// Reports every type slot of the program's type definitions that inference left as a
    /// type variable.
    pub fn verify_no_type_vars(&self, program: &Program) -> (res: Result<(), Vec<CompilerError>>)
        ensures
            match res {
                Ok(()) => var_errors(program.types@, program.types@.len() as int).len() == 0,
                Err(v) => v@.len() > 0 && error_list(v@) == as_some(
                    var_errors(program.types@, program.types@.len() as int),
                ),
            },
    {
        let mut errors: Vec<CompilerError> = Vec::new();
        let mut k: usize = 0;
        while k < program.types.len()
            invariant
                k <= program.types@.len(),
                error_list(errors@) == as_some(var_errors(program.types@, k as int)),
            decreases program.types@.len() - k,
        {
            typedef_check(&program.types[k], &mut errors);
            proof {
                lemma_as_some_add(var_errors(program.types@, k as int), typedef_errors(program.types@[k as int]));
            }
            k = k + 1;
        }
        if errors.len() == 0 {
            proof {
                assert(error_list(errors@).len() == 0);
            }
            Ok(())
        } else {
            Err(errors)
        }
    }
}

} // verus!
