use vstd::prelude::*;
use crate::types::{HulkType, TypeView};
use crate::inference::Unifier;
use crate::ast::{
    Expr, types_mapped, expr_ty, with_ty, Program, FunctionDef, Params, TypeDef, Attribute, Method,
    MethodParam, typedef_copy, clone_typedef,
};
use crate::type_checker::{TypeChecker, TypeInfo, MethodInfo};
use crate::assoc::{lookup, key_index, keys_unique, assoc_find, assoc_insert, lemma_key_index};

verus! {

/// A type slot after resolution: a type is replaced by what the substitution makes of it;
/// an empty slot stays empty.
pub open spec fn resolved_slot(u: Unifier, t1: Option<HulkType>, t2: Option<HulkType>) -> bool {
    match t1 {
        Some(t) => t2 matches Some(r) && r@ == u.resolved(t@),
        None => t2 is None,
    }
}

/// Resolution of type slots by the unifier `u`.
pub open spec fn resolve_rel(u: Unifier) -> spec_fn(Option<HulkType>, Option<HulkType>) -> bool {
    |t1: Option<HulkType>, t2: Option<HulkType>| resolved_slot(u, t1, t2)
}

fn resolve_slot(u: &Unifier, slot: &mut Option<HulkType>)
    requires
        u.wf(),
    ensures
        resolved_slot(*u, *old(slot), *final(slot)),
{
    match slot {
        Some(t) => {
            let r = u.resolve(t);
            *slot = Some(r);
        },
        None => {},
    }
}

fn resolve_list(u: &Unifier, v: &mut Vec<Box<Expr>>)
    requires
        u.wf(),
    ensures
        final(v)@.len() == old(v)@.len(),
        forall|i: int| 0 <= i < old(v)@.len() ==> types_mapped(*old(v)@[i], #[trigger] *final(v)@[i], resolve_rel(*u)),
    decreases old(v)@, 0int,
{
    let ghost start = v@;
    let mut i: usize = 0;
    while i < v.len()
        invariant
            u.wf(),
            i <= v@.len(),
            v@.len() == start.len(),
            start == old(v)@,
            forall|j: int| 0 <= j < i ==> types_mapped(*start[j], #[trigger] *v@[j], resolve_rel(*u)),
            forall|j: int| i <= j < v@.len() ==> #[trigger] v@[j] == start[j],
        decreases v@.len() - i,
    {
        assert(v@[i as int] == start[i as int]);
        resolve_expr(u, &mut v[i]);
        i = i + 1;
    }
}

fn resolve_bindings(u: &Unifier, v: &mut Vec<(String, Option<HulkType>, Box<Expr>)>)
    requires
        u.wf(),
    ensures
        final(v)@.len() == old(v)@.len(),
        forall|i: int|
            #![trigger final(v)@[i]]
            0 <= i < old(v)@.len() ==> final(v)@[i].0 == old(v)@[i].0 && final(v)@[i].1 == old(v)@[i].1
                && types_mapped(*old(v)@[i].2, *final(v)@[i].2, resolve_rel(*u)),
    decreases old(v)@, 0int,
{
    let ghost start = v@;
    let mut i: usize = 0;
    while i < v.len()
        invariant
            u.wf(),
            i <= v@.len(),
            v@.len() == start.len(),
            start == old(v)@,
            forall|j: int|
                #![trigger v@[j]]
                0 <= j < i ==> v@[j].0 == start[j].0 && v@[j].1 == start[j].1 && types_mapped(
                    *start[j].2,
                    *v@[j].2,
                    resolve_rel(*u),
                ),
            forall|j: int| i <= j < v@.len() ==> #[trigger] v@[j] == start[j],
        decreases v@.len() - i,
    {
        assert(v@[i as int] == start[i as int]);
        resolve_expr(u, &mut v[i].2);
        i = i + 1;
    }
}

/// Resolves every type recorded in an expression.
pub fn resolve_expr(u: &Unifier, expr: &mut Expr)
    requires
        u.wf(),
    ensures
        types_mapped(*old(expr), *final(expr), resolve_rel(*u)),
    decreases *old(expr), 1int,
{
    resolve_slot(u, expr.ty_mut());
    match expr {
        Expr::BinaryOp(b) => {
            resolve_expr(u, &mut b.left);
            resolve_expr(u, &mut b.right);
        },
        Expr::Call(c) => {
            resolve_list(u, &mut c.args);
        },
        Expr::UnaryOp(x) => {
            resolve_expr(u, &mut x.expr);
        },
        Expr::Let(l) => {
            resolve_bindings(u, &mut l.bindings);
            resolve_expr(u, &mut l.body);
        },
        Expr::DestructiveAssign(a) => {
            resolve_expr(u, &mut a.lhs);
            resolve_expr(u, &mut a.value);
        },
        Expr::Block(b) => {
            resolve_list(u, &mut b.expressions);
        },
        Expr::If(x) => {
            resolve_expr(u, &mut x.condition);
            resolve_expr(u, &mut x.then_branch);
            resolve_expr(u, &mut x.else_branch);
        },
        Expr::While(w) => {
            resolve_expr(u, &mut w.condition);
            resolve_expr(u, &mut w.body);
        },
        Expr::New(n) => {
            resolve_list(u, &mut n.args);
        },
        Expr::MethodCall(m) => {
            resolve_expr(u, &mut m.object);
            resolve_list(u, &mut m.args);
        },
        Expr::AttributeAccess(a) => {
            resolve_expr(u, &mut a.object);
        },
        _ => {},
    }
}

/// `Object` is recorded as the class `Object`.
pub open spec fn normalized(t: TypeView) -> TypeView {
    if t is Object {
        TypeView::Class("Object"@)
    } else {
        t
    }
}

/// A type slot after resolution and normalization.
pub open spec fn normalized_slot(u: Unifier, t1: Option<HulkType>, t2: Option<HulkType>) -> bool {
    match t1 {
        Some(t) => t2 matches Some(r) && r@ == normalized(u.resolved(t@)),
        None => t2 is None,
    }
}

/// A function parameter after resolution.
pub open spec fn param_resolved(u: Unifier, a: Params, b: Params) -> bool {
    &&& a.name == b.name
    &&& a.span == b.span
    &&& a.ty_annotation == b.ty_annotation
    &&& normalized_slot(u, a.ty, b.ty)
}

/// A function after resolution.
pub open spec fn function_resolved(u: Unifier, a: FunctionDef, b: FunctionDef) -> bool {
    &&& a.name == b.name
    &&& a.span == b.span
    &&& a.is_generic == b.is_generic
    &&& a.ty_annotation == b.ty_annotation
    &&& normalized_slot(u, a.ty, b.ty)
    &&& a.params@.len() == b.params@.len()
    &&& forall|i: int| 0 <= i < a.params@.len() ==> param_resolved(u, a.params@[i], #[trigger] b.params@[i])
    &&& types_mapped(*a.body, *b.body, resolve_rel(u))
}

/// An attribute after resolution.
pub open spec fn attribute_resolved(u: Unifier, a: Attribute, b: Attribute) -> bool {
    &&& a.name == b.name
    &&& a.span == b.span
    &&& normalized_slot(u, a.ty, b.ty)
    &&& resolved_slot(u, a.ty_annotation, b.ty_annotation)
    &&& types_mapped(*a.init_expr, *b.init_expr, resolve_rel(u))
}

/// A method parameter after resolution.
pub open spec fn mparam_resolved(u: Unifier, a: MethodParam, b: MethodParam) -> bool {
    &&& a.name == b.name
    &&& a.span == b.span
    &&& normalized_slot(u, a.ty, b.ty)
    &&& resolved_slot(u, a.ty_annotation, b.ty_annotation)
}

/// A method after resolution.
pub open spec fn method_resolved(u: Unifier, a: Method, b: Method) -> bool {
    &&& a.name == b.name
    &&& a.owner == b.owner
    &&& a.span == b.span
    &&& a.ty_annotation == b.ty_annotation
    &&& normalized_slot(u, a.ty, b.ty)
    &&& a.params@.len() == b.params@.len()
    &&& forall|i: int| 0 <= i < a.params@.len() ==> mparam_resolved(u, a.params@[i], #[trigger] b.params@[i])
    &&& types_mapped(*a.body, *b.body, resolve_rel(u))
}

/// A type definition after resolution.
pub open spec fn typedef_resolved(u: Unifier, a: TypeDef, b: TypeDef) -> bool {
    &&& a.name == b.name
    &&& a.params@ == b.params@
    &&& a.parent == b.parent
    &&& a.span == b.span
    &&& normalized_slot(u, a.ty, b.ty)
    &&& a.attributes@.len() == b.attributes@.len()
    &&& forall|i: int|
        0 <= i < a.attributes@.len() ==> attribute_resolved(u, a.attributes@[i], #[trigger] b.attributes@[i])
    &&& a.methods@.len() == b.methods@.len()
    &&& forall|i: int| 0 <= i < a.methods@.len() ==> method_resolved(u, a.methods@[i], #[trigger] b.methods@[i])
    &&& a.param_types@.len() == b.param_types@.len()
    &&& forall|i: int|
        0 <= i < a.param_types@.len() ==> (#[trigger] b.param_types@[i])@ == u.resolved(a.param_types@[i]@)
}

/// A program after resolution of every recorded type.
pub open spec fn program_resolved(u: Unifier, a: Program, b: Program) -> bool {
    &&& a.functions@.len() == b.functions@.len()
    &&& forall|i: int|
        0 <= i < a.functions@.len() ==> function_resolved(u, a.functions@[i], #[trigger] b.functions@[i])
    &&& a.types@.len() == b.types@.len()
    &&& forall|i: int| 0 <= i < a.types@.len() ==> typedef_resolved(u, a.types@[i], #[trigger] b.types@[i])
    &&& a.protocols == b.protocols
    &&& a.span == b.span
    &&& types_mapped(*a.main_expr, *b.main_expr, resolve_rel(u))
}

/// Every method that the checker has registered for its type has its result and
/// parameter types recorded (the signature is then copied into the checker's tables).
pub open spec fn signatures_recorded(types: Seq<(String, TypeInfo)>, program: Program) -> bool {
    forall|k: int, m: int|
        0 <= k < program.types@.len() && 0 <= m < program.types@[k].methods@.len() && (lookup(
            types,
            program.types@[k].name@,
        ) matches Some(ti) && lookup(ti.methods@, program.types@[k].methods@[m].name@) is Some) ==> {
            let meth = #[trigger] program.types@[k].methods@[m];
            meth.ty is Some && forall|j: int| 0 <= j < meth.params@.len() ==> (#[trigger] meth.params@[j]).ty is Some
        }
}

/// The last type definition of the program with the given name is at `k`.
pub open spec fn last_def(types: Seq<TypeDef>, k: int) -> bool {
    forall|j: int| k < j < types.len() ==> (#[trigger] types[j]).name@ != types[k].name@
}

fn normalize_slot(u: &Unifier, slot: &mut Option<HulkType>)
    requires
        u.wf(),
    ensures
        normalized_slot(*u, *old(slot), *final(slot)),
{
    match slot {
        Some(t) => {
            let r = resolve_and_normalize(u, t);
            *slot = Some(r);
        },
        None => {},
    }
}

/// A type resolved, with `Object` recorded as the class `Object`.
pub(crate) fn resolve_and_normalize(u: &Unifier, ty: &HulkType) -> (res: HulkType)
    requires
        u.wf(),
    ensures
        res@ == normalized(u.resolved(ty@)),
{
    let resolved = u.resolve(ty);
    match resolved {
        HulkType::Object => {
            proof {
                reveal_strlit("Object");
            }
            HulkType::Class(String::from_str("Object"))
        },
        _ => resolved,
    }
}

fn resolve_function(u: &Unifier, f: &mut FunctionDef)
    requires
        u.wf(),
    ensures
        function_resolved(*u, *old(f), *final(f)),
{
    normalize_slot(u, &mut f.ty);
    let ghost start = f.params@;
    let ghost f1 = *f;
    let mut i: usize = 0;
    while i < f.params.len()
        invariant
            u.wf(),
            f.name == f1.name && f.ty == f1.ty && f.span == f1.span && f.is_generic == f1.is_generic
                && f.ty_annotation == f1.ty_annotation && f.body == f1.body,
            i <= f.params@.len(),
            f.params@.len() == start.len(),
            forall|j: int| 0 <= j < i ==> param_resolved(*u, start[j], #[trigger] f.params@[j]),
            forall|j: int| i <= j < f.params@.len() ==> #[trigger] f.params@[j] == start[j],
        decreases f.params@.len() - i,
    {
        normalize_slot(u, &mut f.params[i].ty);
        i = i + 1;
    }
    resolve_expr(u, &mut f.body);
}

fn resolve_attribute(u: &Unifier, a: &mut Attribute)
    requires
        u.wf(),
    ensures
        attribute_resolved(*u, *old(a), *final(a)),
{
    normalize_slot(u, &mut a.ty);
    resolve_slot(u, &mut a.ty_annotation);
    resolve_expr(u, &mut a.init_expr);
}

fn resolve_method(u: &Unifier, m: &mut Method)
    requires
        u.wf(),
    ensures
        method_resolved(*u, *old(m), *final(m)),
{
    normalize_slot(u, &mut m.ty);
    let ghost start = m.params@;
    let ghost m1 = *m;
    let mut i: usize = 0;
    while i < m.params.len()
        invariant
            u.wf(),
            m.name == m1.name && m.ty == m1.ty && m.span == m1.span && m.owner == m1.owner
                && m.ty_annotation == m1.ty_annotation && m.body == m1.body,
            i <= m.params@.len(),
            m.params@.len() == start.len(),
            forall|j: int| 0 <= j < i ==> mparam_resolved(*u, start[j], #[trigger] m.params@[j]),
            forall|j: int| i <= j < m.params@.len() ==> #[trigger] m.params@[j] == start[j],
        decreases m.params@.len() - i,
    {
        normalize_slot(u, &mut m.params[i].ty);
        resolve_slot(u, &mut m.params[i].ty_annotation);
        i = i + 1;
    }
    resolve_expr(u, &mut m.body);
}

/// The recorded types of the parameters, in order; a parameter without one is skipped.
pub open spec fn recorded_param_types(ps: Seq<crate::ast::MethodParam>) -> Seq<HulkType>
    decreases ps.len(),
{
    if ps.len() == 0 {
        Seq::empty()
    } else {
        let r = recorded_param_types(ps.drop_last());
        match ps.last().ty {
            Some(t) => r.push(t),
            None => r,
        }
    }
}

/// The recorded types of a method's parameters.
fn param_types_of(m: &Method) -> (res: Vec<HulkType>)
    ensures
        res@ == recorded_param_types(m.params@),
        (forall|j: int| 0 <= j < m.params@.len() ==> (#[trigger] m.params@[j]).ty is Some) ==> (res@.len()
            == m.params@.len() && forall|j: int|
            0 <= j < m.params@.len() ==> m.params@[j].ty == Some(#[trigger] res@[j])),
{
    let mut out: Vec<HulkType> = Vec::new();
    let mut j: usize = 0;
    while j < m.params.len()
        invariant
            j <= m.params@.len(),
            (forall|i: int| 0 <= i < j ==> (#[trigger] m.params@[i]).ty is Some) ==> (out@.len() == j
                && forall|i: int| 0 <= i < j ==> m.params@[i].ty == Some(#[trigger] out@[i])),
            out@ == recorded_param_types(m.params@.subrange(0, j as int)),
        decreases m.params@.len() - j,
    {
        proof {
            assert(m.params@.subrange(0, j + 1).drop_last() =~= m.params@.subrange(0, j as int));
        }
        match &m.params[j].ty {
            Some(t) => out.push(t.clone()),
            None => {},
        }
        j = j + 1;
    }
    proof {
        assert(m.params@.subrange(0, j as int) =~= m.params@);
    }
    out
}

/// The signature that a method records: its recorded parameter types, and its recorded
/// result type (`Error` when there is none).
pub open spec fn method_sig_ok(m: Method, mi: MethodInfo) -> bool {
    &&& mi.param_types@ == recorded_param_types(m.params@)
    &&& mi.return_type == match m.ty {
        Some(t) => t,
        None => HulkType::Error,
    }
}

/// Records a method's signature in the table entry of its type, when the type and the
/// method are registered.
fn set_method_sig(types: &mut Vec<(String, TypeInfo)>, tname: &str, m: &Method)
    ensures
        final(types)@.len() == old(types)@.len(),
        forall|k: int|
            #![trigger final(types)@[k]]
            0 <= k < old(types)@.len() ==> final(types)@[k].0 == old(types)@[k].0 && final(types)@[k].1.parent
                == old(types)@[k].1.parent,
        keys_unique(old(types)@) ==> keys_unique(final(types)@),
        ({
            let i = key_index(old(types)@, tname@);
            if i >= 0 && key_index(old(types)@[i].1.methods@, m.name@) >= 0 {
                let j = key_index(old(types)@[i].1.methods@, m.name@);
                &&& forall|k: int| 0 <= k < old(types)@.len() && k != i ==> #[trigger] final(types)@[k] == old(types)@[k]
                &&& final(types)@[i].1.parent == old(types)@[i].1.parent
                &&& final(types)@[i].1.param_vars == old(types)@[i].1.param_vars
                &&& final(types)@[i].1.attributes == old(types)@[i].1.attributes
                &&& final(types)@[i].1.attr_order == old(types)@[i].1.attr_order
                &&& final(types)@[i].1.own_attributes == old(types)@[i].1.own_attributes
                &&& final(types)@[i].1.methods@.len() == old(types)@[i].1.methods@.len()
                &&& forall|k: int|
                    0 <= k < old(types)@[i].1.methods@.len() && k != j ==> #[trigger] final(types)@[i].1.methods@[k]
                        == old(types)@[i].1.methods@[k]
                &&& final(types)@[i].1.methods@[j].0 == old(types)@[i].1.methods@[j].0
                &&& method_sig_ok(*m, final(types)@[i].1.methods@[j].1)
            } else {
                final(types)@ == old(types)@
            }
        }),
{
    let ghost before = types@;
    match assoc_find(types, tname) {
        Some(i) => {
            proof {
                lemma_key_index(types@, tname@);
            }
            match assoc_find(&types[i].1.methods, m.name.as_str()) {
                Some(j) => {
                    proof {
                        lemma_key_index(types@[i as int].1.methods@, m.name@);
                    }
                    let params = param_types_of(m);
                    let ret = match &m.ty {
                        Some(t) => t.clone(),
                        None => HulkType::Error,
                    };
                    types[i].1.methods[j].1 = MethodInfo { param_types: params, return_type: ret };
                    proof {
                        assert forall|a: int, b: int| 0 <= a < b < types@.len() && keys_unique(before) implies types@[a].0@
                            != types@[b].0@ by {
                            assert(types@[a].0 == before[a].0);
                            assert(types@[b].0 == before[b].0);
                        }
                    }
                },
                None => {},
            }
        },
        None => {},
    }
}

impl TypeChecker {
    fn resolve_type_def(&mut self, td: &mut TypeDef)
        requires
            old(self).wf(),
        ensures
            final(self).wf(),
            typedef_resolved(old(self).unifier, *old(td), *final(td)),
            final(self).unifier == old(self).unifier,
            final(self).flattened_types == old(self).flattened_types,
            final(self).errors == old(self).errors,
            final(self).protocols == old(self).protocols,
            final(self).types@.len() == old(self).types@.len(),
            forall|k: int|
                #![trigger final(self).types@[k]]
                0 <= k < old(self).types@.len() ==> final(self).types@[k].0 == old(self).types@[k].0
                    && final(self).types@[k].1.parent == old(self).types@[k].1.parent,
            lookup(final(self).type_defs@, final(td).name@) matches Some(x) && typedef_copy(*final(td), x),
            forall|q: Seq<char>| q != final(td).name@ ==> #[trigger] lookup(final(self).type_defs@, q) == lookup(
                old(self).type_defs@,
                q,
            ),
    {
        proof {
            old(self).reveal_wf();
        }
        let ghost s0 = *self;
        normalize_slot(&self.unifier, &mut td.ty);
        let ghost astart = td.attributes@;
        let ghost t1 = *td;
        let mut i: usize = 0;
        while i < td.attributes.len()
            invariant
                self.unifier.wf(),
                *self == s0,
                td.name == t1.name && td.params == t1.params && td.param_types == t1.param_types && td.parent
                    == t1.parent && td.methods == t1.methods && td.span == t1.span && td.ty == t1.ty,
                i <= td.attributes@.len(),
                td.attributes@.len() == astart.len(),
                forall|j: int| 0 <= j < i ==> attribute_resolved(self.unifier, astart[j], #[trigger] td.attributes@[j]),
                forall|j: int| i <= j < td.attributes@.len() ==> #[trigger] td.attributes@[j] == astart[j],
            decreases td.attributes@.len() - i,
        {
            resolve_attribute(&self.unifier, &mut td.attributes[i]);
            i = i + 1;
        }
        let ghost mstart = td.methods@;
        let ghost types0 = self.types@;
        let ghost t2 = *td;
        let mut m: usize = 0;
        while m < td.methods.len()
            invariant
                self.unifier.wf(),
                self.unifier == s0.unifier,
                self.errors == s0.errors,
                self.protocols == s0.protocols,
                self.type_defs == s0.type_defs,
                self.functions == s0.functions,
                self.param_vars == s0.param_vars,
                self.flattened_types == s0.flattened_types,
                self.scopes == s0.scopes,
                keys_unique(self.types@),
                td.name == t2.name && td.params == t2.params && td.param_types == t2.param_types && td.parent
                    == t2.parent && td.attributes == t2.attributes && td.span == t2.span && td.ty == t2.ty,
                m <= td.methods@.len(),
                td.methods@.len() == mstart.len(),
                forall|j: int| 0 <= j < m ==> method_resolved(self.unifier, mstart[j], #[trigger] td.methods@[j]),
                forall|j: int| m <= j < td.methods@.len() ==> #[trigger] td.methods@[j] == mstart[j],
                self.types@.len() == types0.len(),
                forall|k: int|
                    #![trigger self.types@[k]]
                    0 <= k < types0.len() ==> self.types@[k].0 == types0[k].0 && self.types@[k].1.parent
                        == types0[k].1.parent,
            decreases td.methods@.len() - m,
        {
            resolve_method(&self.unifier, &mut td.methods[m]);
            set_method_sig(&mut self.types, td.name.as_str(), &td.methods[m]);
            m = m + 1;
        }
        let ghost pstart = td.param_types@;
        let ghost t3 = *td;
        let mut p: usize = 0;
        while p < td.param_types.len()
            invariant
                self.unifier.wf(),
                td.name == t3.name && td.params == t3.params && td.methods == t3.methods && td.parent
                    == t3.parent && td.attributes == t3.attributes && td.span == t3.span && td.ty == t3.ty,
                p <= td.param_types@.len(),
                td.param_types@.len() == pstart.len(),
                forall|j: int| 0 <= j < p ==> (#[trigger] td.param_types@[j])@ == self.unifier.resolved(pstart[j]@),
                forall|j: int| p <= j < td.param_types@.len() ==> #[trigger] td.param_types@[j] == pstart[j],
            decreases td.param_types@.len() - p,
        {
            let r = self.unifier.resolve(&td.param_types[p]);
            td.param_types.set(p, r);
            p = p + 1;
        }
        let copy = clone_typedef(td);
        proof {
            lemma_key_index(self.type_defs@, td.name@);
        }
        assoc_insert(&mut self.type_defs, td.name.clone(), copy);
        proof {
            self.reveal_wf();
        }
    }

    /// Replaces every type variable recorded in the program by what the substitution makes
    /// of it (with `Object` recorded as the class `Object`), copies each method's resolved
    /// signature into the table of its type, and records each type definition.
    #[verifier::spinoff_prover]
    pub fn resolve_ast(&mut self, program: &mut Program)
        requires
            old(self).wf(),
            signatures_recorded(old(self).types_seq(), *old(program)),
        ensures
            final(self).flattened_seq() == old(self).flattened_seq(),
            final(self).wf(),
            program_resolved(old(self).unifier_spec(), *old(program), *final(program)),
            final(self).unifier_spec() == old(self).unifier_spec(),
            final(self).errors_seq() == old(self).errors_seq(),
            final(self).protos_seq() == old(self).protos_seq(),
            final(self).types_seq().len() == old(self).types_seq().len(),
            forall|k: int|
                #![trigger final(self).types_seq()[k]]
                0 <= k < old(self).types_seq().len() ==> final(self).types_seq()[k].0 == old(self).types_seq()[k].0
                    && final(self).types_seq()[k].1.parent == old(self).types_seq()[k].1.parent,
            forall|k: int|
                0 <= k < final(program).types@.len() && last_def(final(program).types@, k) ==> (lookup(
                    final(self).type_defs_seq(),
                    #[trigger] final(program).types@[k].name@,
                ) matches Some(td) && typedef_copy(final(program).types@[k], td)),
            old(program).types@.len() == 0 ==> final(self).types_seq() == old(self).types_seq()
                && final(self).type_defs_seq() == old(self).type_defs_seq() && final(self).type_id_counter()
                == old(self).type_id_counter(),
    {
        proof {
            old(self).reveal_wf();
            old(self).reveal_views();
        }
        let ghost u = self.unifier;
        let ghost s0 = *self;
        // functions
        let mut i: usize = 0;
        let ghost fstart = program.functions@;
        let ghost p0 = *program;
        while i < program.functions.len()
            invariant
                self.flattened_types == s0.flattened_types,
                u == self.unifier,
                u.wf(),
                *self == s0,
                i <= program.functions@.len(),
                program.functions@.len() == fstart.len(),
                program.types == p0.types,
                program.protocols == p0.protocols,
                program.main_expr == p0.main_expr,
                program.span == p0.span,
                forall|j: int| 0 <= j < i ==> function_resolved(u, fstart[j], #[trigger] program.functions@[j]),
                forall|j: int| i <= j < program.functions@.len() ==> #[trigger] program.functions@[j] == fstart[j],
            decreases program.functions@.len() - i,
        {
            resolve_function(&self.unifier, &mut program.functions[i]);
            i = i + 1;
        }
        // type definitions
        let ghost tstart = program.types@;
        let ghost types_start = self.types@;
        let ghost p1 = *program;
        let mut k: usize = 0;
        while k < program.types.len()
            invariant
                self.flattened_types == s0.flattened_types,
                u == self.unifier,
                self.wf(),
                self.errors == s0.errors,
                self.protocols == s0.protocols,
                k <= program.types@.len(),
                program.types@.len() == tstart.len(),
                program.functions == p1.functions,
                program.protocols == p1.protocols,
                program.main_expr == p1.main_expr,
                program.span == p1.span,
                forall|j: int| 0 <= j < k ==> typedef_resolved(u, tstart[j], #[trigger] program.types@[j]),
                forall|j: int| k <= j < program.types@.len() ==> #[trigger] program.types@[j] == tstart[j],
                forall|j: int|
                    0 <= j < k && last_def(program.types@.subrange(0, k as int), j) ==> (lookup(
                        self.type_defs@,
                        #[trigger] program.types@[j].name@,
                    ) matches Some(td) && typedef_copy(program.types@[j], td)),
                self.types@.len() == types_start.len(),
                k == 0 ==> self.types == s0.types && self.type_defs == s0.type_defs && self.next_type_id
                    == s0.next_type_id,
                forall|q: int|
                    #![trigger self.types@[q]]
                    0 <= q < types_start.len() ==> self.types@[q].0 == types_start[q].0 && self.types@[q].1.parent
                        == types_start[q].1.parent,
            decreases program.types@.len() - k,
        {
            let ghost before_defs = self.type_defs@;
            let ghost before_types = program.types@;
            self.resolve_type_def(&mut program.types[k]);
            proof {
                assert forall|j: int|
                    0 <= j < k + 1 && last_def(program.types@.subrange(0, k + 1), j) implies (lookup(
                        self.type_defs@,
                        #[trigger] program.types@[j].name@,
                    ) matches Some(td) && typedef_copy(program.types@[j], td)) by {
                    if j < k {
                        assert(program.types@.subrange(0, k + 1)[k as int] == program.types@[k as int]);
                        assert(program.types@[j] == before_types[j]);
                        assert(last_def(before_types.subrange(0, k as int), j)) by {
                            assert forall|l: int| j < l < k implies (#[trigger] before_types.subrange(0, k as int)[l]).name@
                                != before_types.subrange(0, k as int)[j].name@ by {
                                assert(program.types@.subrange(0, k + 1)[l] == before_types[l]);
                            }
                        }
                    }
                }
            }
            k = k + 1;
        }
        proof {
            assert(program.types@.subrange(0, k as int) =~= program.types@);
        }
        resolve_expr(&self.unifier, &mut program.main_expr);
        proof {
            self.reveal_views();
        }
    }
}

} // verus!
