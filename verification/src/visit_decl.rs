use vstd::prelude::*;
use crate::types::{HulkType, TypeView, debug_string};
use crate::span::Span;
use crate::inferred::error_list;
use crate::ast::{
    Expr, same_shape, expr_ty, FunctionDef, TypeDef, Attribute, Method, MethodParam, ProtocolDef,
    ProtocolMethod, Program,
};
use crate::assoc::{lookup, key_index, assoc_put, assoc_get, assoc_has, assoc_find, assoc_insert, keys_unique, lemma_key_index};
use crate::type_checker::{TypeChecker, MethodInfo, FunctionInfo, TypeInfo, ProtocolInfo};
use crate::text::str_eq;
use crate::visit::{cat, has_name, lemma_prefix_trans, lemma_prefix_refl, lemma_prefix_push};

verus! {

/// What checking a declaration may change: the tables, the unifier and the errors (only
/// appended); the scopes come back as they were.
pub(crate) open spec fn decl_step(a: TypeChecker, b: TypeChecker) -> bool {
    &&& b.wf()
    &&& a.errors@.is_prefix_of(b.errors@)
    &&& b.scopes@ == a.scopes@
    &&& a.unifier.refined_by(b.unifier)
}

/// Everything but the class table is the same.
pub(crate) open spec fn same_except_types(a: TypeChecker, b: TypeChecker) -> bool {
    &&& a.errors == b.errors
    &&& a.scopes == b.scopes
    &&& a.functions == b.functions
    &&& a.unifier == b.unifier
    &&& a.param_vars == b.param_vars
    &&& a.return_var == b.return_var
    &&& a.current_type == b.current_type
    &&& a.self_type == b.self_type
    &&& a.flattened_types == b.flattened_types
    &&& a.type_defs == b.type_defs
    &&& a.current_method == b.current_method
    &&& a.protocols == b.protocols
    &&& a.current_method_params == b.current_method_params
    &&& a.next_type_id == b.next_type_id
}

/// An annotation as a type: a named type is taken to be the class of that name.
fn annotation_as_class(ann: &HulkType) -> (res: HulkType)
    ensures
        match ann@ {
            TypeView::UserDefined(n) => res@ == TypeView::Class(n),
            _ => res@ == ann@,
        },
{
    match ann {
        HulkType::UserDefined(name) => HulkType::Class(name.clone()),
        _ => ann.clone(),
    }
}

/// The class entry `b` is `a` with its method table replaced by `ms`.
pub open spec fn with_methods(a: TypeInfo, b: TypeInfo, ms: Seq<(String, MethodInfo)>) -> bool {
    &&& b.methods@ == ms
    &&& b.parent == a.parent
    &&& b.param_vars == a.param_vars
    &&& b.attributes == a.attributes
    &&& b.attr_order == a.attr_order
    &&& b.own_attributes == a.own_attributes
}

/// The classes keep their names, parents and methods.
pub open spec fn classes_kept(a: Seq<(String, TypeInfo)>, b: Seq<(String, TypeInfo)>) -> bool {
    &&& a.len() == b.len()
    &&& forall|k: int|
        0 <= k < a.len() ==> (#[trigger] b[k]).0 == a[k].0 && b[k].1.parent == a[k].1.parent && b[k].1.methods
            == a[k].1.methods
}

proof fn lemma_classes_kept_lookup(a: Seq<(String, TypeInfo)>, b: Seq<(String, TypeInfo)>, q: Seq<char>)
    requires
        classes_kept(a, b),
    ensures
        (lookup(b, q) is Some) == (lookup(a, q) is Some),
        lookup(a, q) is Some ==> lookup(b, q)->Some_0.parent == lookup(a, q)->Some_0.parent && lookup(
            b,
            q,
        )->Some_0.methods == lookup(a, q)->Some_0.methods,
{
    crate::assoc::lemma_same_keys(a, b, q);
    lemma_key_index(a, q);
}

/// The methods of `ms` up to `m` are registered in `ti`: each name has an entry, with as
/// many parameters as the last of those methods that bears it.
pub open spec fn methods_registered(ti: TypeInfo, ms: Seq<Method>, m: int) -> bool {
    forall|j: int|
        0 <= j < m ==> lookup(ti.methods@, (#[trigger] ms[j]).name@) is Some && ((forall|l: int|
            j < l < m ==> ms[l].name@ != ms[j].name@) ==> lookup(ti.methods@, ms[j].name@)->Some_0.param_types@.len()
            == ms[j].params@.len())
}

/// The parent's name of a declared parent.
pub open spec fn parent_name_of(p: Option<crate::ast::Parent>) -> Option<String> {
    match p {
        Some(x) => Some(x.name),
        None => None,
    }
}

/// Class entry `b` is entry `a` with a signature of `n` parameters recorded for the
/// method `name`; nothing else changed.
pub open spec fn method_recorded(a: TypeInfo, b: TypeInfo, name: Seq<char>, n: nat) -> bool {
    &&& b.parent == a.parent
    &&& b.param_vars == a.param_vars
    &&& b.attributes == a.attributes
    &&& b.attr_order == a.attr_order
    &&& b.own_attributes == a.own_attributes
    &&& lookup(b.methods@, name) is Some
    &&& lookup(b.methods@, name)->Some_0.param_types@.len() == n
    &&& forall|q: Seq<char>| q != name ==> #[trigger] lookup(b.methods@, q) == lookup(a.methods@, q)
}

proof fn lemma_method_recorded_twice(a: TypeInfo, b: TypeInfo, c: TypeInfo, name: Seq<char>, n: nat)
    requires
        method_recorded(a, b, name, n),
        method_recorded(b, c, name, n),
    ensures
        method_recorded(a, c, name, n),
{
}

/// The method signature stored under `name` in the class entry `tname`, set to `info`.
fn set_class_method(types: &mut Vec<(String, TypeInfo)>, tname: &str, name: String, info: MethodInfo)
    ensures
        final(types)@.len() == old(types)@.len(),
        forall|k: int| 0 <= k < old(types)@.len() ==> (#[trigger] final(types)@[k]).0 == old(types)@[k].0,
        keys_unique(old(types)@) ==> keys_unique(final(types)@),
        key_index(old(types)@, tname@) < 0 ==> final(types)@ == old(types)@,
        key_index(old(types)@, tname@) >= 0 ==> {
            let i = key_index(old(types)@, tname@);
            &&& forall|k: int| 0 <= k < old(types)@.len() && k != i ==> #[trigger] final(types)@[k] == old(types)@[k]
            &&& with_methods(old(types)@[i].1, final(types)@[i].1, assoc_put(old(types)@[i].1.methods@, name, info))
            &&& lookup(final(types)@, tname@) == Some(final(types)@[i].1)
            &&& lookup(final(types)@[i].1.methods@, name@) == Some(info)
            &&& forall|q: Seq<char>| q != name@ ==> #[trigger] lookup(final(types)@[i].1.methods@, q) == lookup(
                old(types)@[i].1.methods@,
                q,
            )
        },
        forall|q: Seq<char>| q != tname@ ==> #[trigger] lookup(final(types)@, q) == lookup(old(types)@, q),
{
    let ghost before = types@;
    if let Some(i) = assoc_find(types, tname) {
        proof {
            lemma_key_index(types@, tname@);
        }
        assoc_insert(&mut types[i].1.methods, name, info);
        proof {
            assert forall|a: int, b: int| 0 <= a < b < types@.len() && keys_unique(before) implies types@[a].0@ != types@[b].0@ by {
                assert(types@[a].0 == before[a].0);
                assert(types@[b].0 == before[b].0);
            }
            assert forall|k: int| 0 <= k < before.len() implies (#[trigger] types@[k]).0 == before[k].0 by {}
            crate::assoc::lemma_same_keys(before, types@, tname@);
            assert forall|q: Seq<char>| q != tname@ implies #[trigger] lookup(types@, q) == lookup(before, q) by {
                crate::assoc::lemma_same_keys(before, types@, q);
                lemma_key_index(before, q);
                if key_index(before, q) >= 0 {
                    assert(key_index(before, q) != i);
                }
            }
        }
    }
}

impl TypeChecker {
    pub(crate) proof fn lemma_types_keys_kept(a: TypeChecker, types2: Seq<(String, TypeInfo)>)
        requires
            a.wf(),
            types2.len() == a.types@.len(),
            forall|k: int| 0 <= k < a.types@.len() ==> (#[trigger] types2[k]).0 == a.types@[k].0,
        ensures
            keys_unique(types2),
    {
        a.reveal_wf();
        assert forall|x: int, y: int| 0 <= x < y < types2.len() implies types2[x].0@ != types2[y].0@ by {
            assert(types2[x].0 == a.types@[x].0);
            assert(types2[y].0 == a.types@[y].0);
        }
    }

    /// Checks an attribute's initializer against its annotation and records its type in the
    /// current class.
    pub(crate) fn visit_attribute(&mut self, attr: &mut Attribute) -> (res: HulkType)
        requires
            old(self).wf(),
        ensures
            decl_step(*old(self), *final(self)),
            final(attr).name == old(attr).name && final(attr).span == old(attr).span
                && final(attr).ty_annotation == old(attr).ty_annotation,
            same_shape(*old(attr).init_expr, *final(attr).init_expr),
            final(attr).ty == Some(res),
            final(self).protocols == old(self).protocols,
            final(self).type_defs == old(self).type_defs,
            final(self).flattened_types == old(self).flattened_types,
            final(self).current_type == old(self).current_type,
            final(self).current_method == old(self).current_method,
            final(self).param_vars == old(self).param_vars,
            final(self).return_var == old(self).return_var,
            final(self).functions == old(self).functions,
            final(self).types@.len() == old(self).types@.len(),
            forall|k: int| 0 <= k < old(self).types@.len() ==> (#[trigger] final(self).types@[k]).0 == old(self).types@[k].0,
            final(self).errors@.len() == old(self).errors@.len() ==> crate::visit::well_typed(*final(attr).init_expr, final(self).unifier),
            classes_kept(old(self).types@, final(self).types@),
    {
        let ghost s0 = *self;
        let init_ty = self.visit_expr(&mut attr.init_expr);
        let ghost s1 = *self;
        proof {
            s1.reveal_wf();
            s1.unifier.lemma_refines_refl();
        }
        if let Some(ann) = &attr.ty_annotation {
            let resolved_ann = self.resolve_annotation(ann);
            self.unify_report(&init_ty, &resolved_ann, attr.span);
            proof {
                TypeChecker::lemma_step_trans(s0, s1, *self);
            }
        }
        proof {
            self.reveal_wf();
            if self.errors@.len() == s0.errors@.len() {
                crate::visit::lemma_well_typed_refines(*attr.init_expr, s1.unifier, self.unifier);
            }
        }
        let final_ty = crate::resolve::resolve_and_normalize(&self.unifier, &init_ty);
        attr.ty = Some(final_ty.clone());
        let ghost s2 = *self;
        if let Some(tname) = &self.current_type {
            if let Some(i) = assoc_find(&self.types, tname.as_str()) {
                proof {
                    lemma_key_index(self.types@, tname@);
                }
                let ghost before = self.types@;
                if !crate::assoc::assoc_has(&self.types[i].1.attributes, attr.name.as_str()) {
                    self.types[i].1.attr_order.push(attr.name.clone());
                }
                assoc_insert(&mut self.types[i].1.attributes, attr.name.clone(), final_ty.clone());
                proof {
                    assert forall|k: int| 0 <= k < before.len() implies (#[trigger] self.types@[k]).0 == before[k].0
                        && self.types@[k].1.parent == before[k].1.parent && self.types@[k].1.methods
                        == before[k].1.methods by {}
                    TypeChecker::lemma_types_keys_kept(s2, self.types@);
                    self.reveal_wf();
                    s2.reveal_wf();
                }
            }
        }
        proof {
            TypeChecker::lemma_step_refl(*self);
            lemma_prefix_trans(s0.errors@, s2.errors@, self.errors@);
        }
        final_ty
    }
}

/// Every parameter of a method has its type recorded.
pub open spec fn params_typed(ps: Seq<MethodParam>) -> bool {
    forall|j: int| 0 <= j < ps.len() ==> (#[trigger] ps[j]).ty is Some
}

/// The parameters keep their names, spans and annotations.
pub open spec fn params_kept(a: Seq<MethodParam>, b: Seq<MethodParam>) -> bool {
    a.len() == b.len() && forall|j: int|
        0 <= j < a.len() ==> (#[trigger] b[j]).name == a[j].name && b[j].span == a[j].span && b[j].ty_annotation
            == a[j].ty_annotation
}

impl TypeChecker {
    /// Checks a method of the current class: fresh type variables for its parameters and
    /// result, unified with their annotations and with the body's type; the signature is
    /// recorded in the class.
    pub(crate) fn visit_method(&mut self, method: &mut Method) -> (res: HulkType)
        requires
            old(self).wf(),
            old(self).current_type is Some,
        ensures
            decl_step(*old(self), *final(self)),
            final(method).name == old(method).name && final(method).owner == old(method).owner
                && final(method).span == old(method).span && final(method).ty_annotation
                == old(method).ty_annotation,
            params_kept(old(method).params@, final(method).params@),
            params_typed(final(method).params@),
            same_shape(*old(method).body, *final(method).body),
            final(method).ty == Some(res),
            final(self).protocols == old(self).protocols,
            final(self).type_defs == old(self).type_defs,
            final(self).flattened_types == old(self).flattened_types,
            final(self).current_type == old(self).current_type,
            final(self).param_vars == old(self).param_vars,
            final(self).return_var == old(self).return_var,
            final(self).functions == old(self).functions,
            final(self).types@.len() == old(self).types@.len(),
            forall|k: int| 0 <= k < old(self).types@.len() ==> (#[trigger] final(self).types@[k]).0 == old(self).types@[k].0,
            final(self).errors@.len() == old(self).errors@.len() ==> crate::visit::well_typed(*final(method).body, final(self).unifier),
            forall|q: Seq<char>| q != old(self).current_type->Some_0@ ==> #[trigger] lookup(final(self).types@, q) == lookup(
                old(self).types@,
                q,
            ),
            lookup(old(self).types@, old(self).current_type->Some_0@) is Some ==> lookup(
                final(self).types@,
                old(self).current_type->Some_0@,
            ) is Some && method_recorded(
                lookup(old(self).types@, old(self).current_type->Some_0@)->Some_0,
                lookup(final(self).types@, old(self).current_type->Some_0@)->Some_0,
                old(method).name@,
                old(method).params@.len(),
            ),
    {
        let ghost s0 = *self;
        proof {
            s0.reveal_wf();
        }
        let current = match &self.current_type {
            Some(n) => n.clone(),
            None => String::new(),
        };
        self.current_method = Some(method.name.clone());
        proof {
            self.reveal_wf();
        }
        self.enter_scope();
        let self_ty = HulkType::Class(current.clone());
        self.declare_var(String::from_str("self"), self_ty);
        let ghost s1 = *self;
        proof {
            s0.unifier.lemma_refines_refl();
        }
        let mut param_vars: Vec<HulkType> = Vec::new();
        let mut k: usize = 0;
        while k < method.params.len()
            invariant
                self.wf(),
                self.same_tables(&s1),
                self.errors == s1.errors,
                self.scopes == s1.scopes,
                s0.unifier.refined_by(self.unifier),
                param_vars@.len() == k,
                k <= method.params@.len(),
            decreases method.params@.len() - k,
        {
            let ghost b = self.unifier;
            let v = self.fresh_var();
            proof {
                crate::inference::Unifier::lemma_refines_trans(s0.unifier, b, self.unifier);
            }
            param_vars.push(v);
            k = k + 1;
        }
        let ghost b = self.unifier;
        let ret_var = self.fresh_var();
        proof {
            self.reveal_wf();
            crate::inference::Unifier::lemma_refines_trans(s0.unifier, b, self.unifier);
        }
        self.current_method_params = Some(crate::visit_call::clone_types_pub(&param_vars));
        let info = MethodInfo { param_types: crate::visit_call::clone_types_pub(&param_vars), return_type: ret_var.clone() };
        proof {
            self.reveal_wf();
        }
        let ghost s2 = *self;
        let ghost info_v = info;
        set_class_method(&mut self.types, current.as_str(), method.name.clone(), info);
        proof {
            if lookup(s2.types@, current@) is Some {
                lemma_key_index(s2.types@, current@);
                assert(info_v.param_types@.len() == method.params@.len());
                assert(method_recorded(
                    lookup(s2.types@, current@)->Some_0,
                    lookup(self.types@, current@)->Some_0,
                    method.name@,
                    method.params@.len(),
                ));
            }
            TypeChecker::lemma_types_keys_kept(s2, self.types@);
            self.reveal_wf();
            TypeChecker::lemma_step_refl(*self);
            assert(self.scopes@.len() >= 1);
        }
        let ghost s3 = *self;
        let ghost pstart = method.params@;
        let ghost m0 = *method;
        let mut i: usize = 0;
        while i < method.params.len()
            invariant
                self.wf(),
                s3.errors@.is_prefix_of(self.errors@),
                s0.unifier.refined_by(self.unifier),
                self.scopes@.len() == s3.scopes@.len(),
                self.scopes@.drop_last() == s3.scopes@.drop_last(),
                self.types == s3.types,
                self.protocols == s3.protocols,
                self.type_defs == s3.type_defs,
                self.flattened_types == s3.flattened_types,
                self.current_type == s3.current_type,
                self.param_vars == s3.param_vars,
                self.return_var == s3.return_var,
                self.functions == s3.functions,
                self.current_method == s3.current_method,
                self.current_method_params == s3.current_method_params,
                i <= method.params@.len(),
                param_vars@.len() == method.params@.len(),
                method.params@.len() == pstart.len(),
                method.name == m0.name && method.owner == m0.owner && method.span == m0.span
                    && method.ty_annotation == m0.ty_annotation && method.body == m0.body && method.ty == m0.ty,
                forall|j: int|
                    0 <= j < i ==> (#[trigger] method.params@[j]).name == pstart[j].name && method.params@[j].span
                        == pstart[j].span && method.params@[j].ty_annotation == pstart[j].ty_annotation
                        && method.params@[j].ty is Some,
                forall|j: int| i <= j < method.params@.len() ==> #[trigger] method.params@[j] == pstart[j],
            decreases method.params@.len() - i,
        {
            let ghost si = *self;
            if let Some(ann) = &method.params[i].ty_annotation {
                let resolved_ann = annotation_as_class(ann);
                let sp = method.params[i].span;
                self.unify_report(&param_vars[i], &resolved_ann, sp);
                proof {
                    lemma_prefix_trans(s3.errors@, si.errors@, self.errors@);
                    crate::inference::Unifier::lemma_refines_trans(s0.unifier, si.unifier, self.unifier);
                }
            }
            method.params[i].ty = Some(param_vars[i].clone());
            let pname = method.params[i].name.clone();
            let ghost before_scopes = self.scopes@;
            self.declare_var(pname, param_vars[i].clone());
            proof {
                assert(self.scopes@.drop_last() == before_scopes.drop_last());
            }
            i = i + 1;
        }
        let ghost s4 = *self;
        if let Some(ret_ann) = &method.ty_annotation {
            let resolved_ret_ann = annotation_as_class(ret_ann);
            self.unify_report(&ret_var, &resolved_ret_ann, method.span);
        } else {
            proof {
                TypeChecker::lemma_step_refl(*self);
            }
        }
        let ghost s5 = *self;
        let body_ty = self.visit_expr(&mut method.body);
        let ghost s6 = *self;
        self.unify_report(&body_ty, &ret_var, method.span);
        proof {
            lemma_prefix_trans(s3.errors@, s4.errors@, s5.errors@);
            lemma_prefix_trans(s3.errors@, s5.errors@, s6.errors@);
            lemma_prefix_trans(s3.errors@, s6.errors@, self.errors@);
            crate::inference::Unifier::lemma_refines_trans(s0.unifier, s4.unifier, s5.unifier);
            crate::inference::Unifier::lemma_refines_trans(s0.unifier, s5.unifier, s6.unifier);
            crate::inference::Unifier::lemma_refines_trans(s0.unifier, s6.unifier, self.unifier);
            self.reveal_wf();
            if self.errors@.len() == s0.errors@.len() {
                crate::visit::lemma_well_typed_refines(*method.body, s6.unifier, self.unifier);
            }
        }
        let mut resolved_params: Vec<HulkType> = Vec::new();
        let mut j: usize = 0;
        while j < param_vars.len()
            invariant
                self.unifier.wf(),
                j <= param_vars@.len(),
                resolved_params@.len() == j,
            decreases param_vars@.len() - j,
        {
            resolved_params.push(self.unifier.resolve(&param_vars[j]));
            j = j + 1;
        }
        let resolved_ret = self.unifier.resolve(&ret_var);
        method.ty = Some(resolved_ret.clone());
        proof {
            self.reveal_wf();
        }
        let ghost s7 = *self;
        let ghost n_res = resolved_params@.len();
        set_class_method(&mut self.types, current.as_str(), method.name.clone(), MethodInfo { param_types: resolved_params, return_type: resolved_ret.clone() });
        proof {
            assert(s7.types == s3.types);
            if lookup(s7.types@, current@) is Some {
                lemma_key_index(s7.types@, current@);
                assert(n_res == method.params@.len());
                assert(method_recorded(
                    lookup(s7.types@, current@)->Some_0,
                    lookup(self.types@, current@)->Some_0,
                    method.name@,
                    method.params@.len(),
                ));
                lemma_method_recorded_twice(
                    lookup(s2.types@, current@)->Some_0,
                    lookup(s7.types@, current@)->Some_0,
                    lookup(self.types@, current@)->Some_0,
                    method.name@,
                    method.params@.len(),
                );
            }
            TypeChecker::lemma_types_keys_kept(s7, self.types@);
            self.reveal_wf();
        }
        proof {
            self.reveal_wf();
        }
        self.current_method = None;
        self.current_method_params = None;
        proof {
            self.reveal_wf();
        }
        let ghost s8 = *self;
        proof {
            assert(s8.scopes@.len() == s0.scopes@.len() + 1);
            self.reveal_wf();
        }
        self.exit_scope();
        proof {
            assert(self.scopes@ == s0.scopes@);
            lemma_prefix_trans(s0.errors@, s3.errors@, self.errors@);
        }
        resolved_ret
    }
}

/// Every function of the program has its type variables prepared.
pub open spec fn functions_prepared(
    param_vars: Seq<(String, Vec<HulkType>)>,
    return_var: Seq<(String, HulkType)>,
    fs: Seq<FunctionDef>,
) -> bool {
    forall|k: int|
        0 <= k < fs.len() ==> lookup(param_vars, (#[trigger] fs[k]).name@) is Some && lookup(return_var, fs[k].name@)
            is Some
}

/// The function's parameters keep their names, spans and annotations.
pub open spec fn fparams_kept(a: Seq<crate::ast::Params>, b: Seq<crate::ast::Params>) -> bool {
    a.len() == b.len() && forall|j: int|
        0 <= j < a.len() ==> (#[trigger] b[j]).name == a[j].name && b[j].span == a[j].span && b[j].ty_annotation
            == a[j].ty_annotation
}

/// Updates the recorded signature of a function.
/// Every function of `fs` is registered in `functions` with its number of parameters.
pub open spec fn functions_registered(functions: Seq<(String, FunctionInfo)>, fs: Seq<FunctionDef>) -> bool {
    forall|k: int|
        0 <= k < fs.len() ==> lookup(functions, (#[trigger] fs[k]).name@) is Some && lookup(functions, fs[k].name@)->Some_0.params_len
            == fs[k].params@.len()
}

/// A function entry with its signature recorded: parameter and result types, and, when
/// given, whether the function is generic.
pub open spec fn with_sig(fi: FunctionInfo, params: Vec<HulkType>, ret: HulkType, generic: Option<bool>) -> FunctionInfo {
    FunctionInfo {
        params_len: fi.params_len,
        param_types: Some(params),
        return_type: Some(ret),
        is_generic: match generic {
            Some(g) => g,
            None => fi.is_generic,
        },
    }
}

fn set_function_sig(functions: &mut Vec<(String, FunctionInfo)>, name: &str, params: Vec<HulkType>, ret: HulkType, generic: Option<bool>)
    requires
        lookup(old(functions)@, name@) matches Some(fi) ==> params@.len() == fi.params_len,
    ensures
        key_index(old(functions)@, name@) < 0 ==> final(functions)@ == old(functions)@,
        key_index(old(functions)@, name@) >= 0 ==> final(functions)@ == old(functions)@.update(
            key_index(old(functions)@, name@),
            (
                old(functions)@[key_index(old(functions)@, name@)].0,
                with_sig(old(functions)@[key_index(old(functions)@, name@)].1, params, ret, generic),
            ),
        ),
        final(functions)@.len() == old(functions)@.len(),
        forall|k: int| 0 <= k < old(functions)@.len() ==> (#[trigger] final(functions)@[k]).0 == old(functions)@[k].0,
        forall|pv: Seq<(String, Vec<HulkType>)>|
            crate::type_checker::signatures_fit(old(functions)@, pv) ==> #[trigger] crate::type_checker::signatures_fit(
                final(functions)@,
                pv,
            ),
        forall|fs: Seq<FunctionDef>|
            functions_registered(old(functions)@, fs) ==> #[trigger] functions_registered(final(functions)@, fs),
{
    let ghost f0 = functions@;
    if let Some(i) = assoc_find(functions, name) {
        proof {
            lemma_key_index(functions@, name@);
        }
        functions[i].1.param_types = Some(params);
        functions[i].1.return_type = Some(ret);
        if let Some(g) = generic {
            functions[i].1.is_generic = g;
        }
        proof {
            let f1 = functions@;
            assert forall|k: int| 0 <= k < f1.len() && k != i implies #[trigger] f1[k] == f0[k] by {}
            assert(f1 =~= f0.update(i as int, (f0[i as int].0, with_sig(f0[i as int].1, params, ret, generic))));
            assert forall|pv: Seq<(String, Vec<HulkType>)>|
                crate::type_checker::signatures_fit(f0, pv) implies #[trigger] crate::type_checker::signatures_fit(
                f1,
                pv,
            ) by {
                assert forall|n: Seq<char>| #[trigger] lookup(pv, n) is Some implies (lookup(f1, n) is Some
                    && lookup(pv, n)->Some_0@.len() == lookup(f1, n)->Some_0.params_len) by {
                    crate::assoc::lemma_same_keys(f0, f1, n);
                    lemma_key_index(f0, n);
                }
            }
            assert forall|fs: Seq<FunctionDef>| functions_registered(f0, fs) implies #[trigger] functions_registered(
                f1,
                fs,
            ) by {
                assert forall|k: int| 0 <= k < fs.len() implies lookup(f1, (#[trigger] fs[k]).name@) is Some && lookup(
                    f1,
                    fs[k].name@,
                )->Some_0.params_len == fs[k].params@.len() by {
                    crate::assoc::lemma_same_keys(f0, f1, fs[k].name@);
                    lemma_key_index(f0, fs[k].name@);
                }
            }
        }
    }
}

impl TypeChecker {
    pub(crate) proof fn lemma_functions_keys_kept(a: TypeChecker, f2: Seq<(String, FunctionInfo)>)
        requires
            a.wf(),
            f2.len() == a.functions@.len(),
            forall|k: int| 0 <= k < a.functions@.len() ==> (#[trigger] f2[k]).0 == a.functions@[k].0,
        ensures
            keys_unique(f2),
    {
        a.reveal_wf();
        assert forall|x: int, y: int| 0 <= x < y < f2.len() implies f2[x].0@ != f2[y].0@ by {
            assert(f2[x].0 == a.functions@[x].0);
            assert(f2[y].0 == a.functions@[y].0);
        }
    }

    /// Gives every function of the program fresh type variables for its parameters and its
    /// result.
    pub(crate) fn prepare_function_vars(&mut self, program: &Program)
        requires
            old(self).wf(),
            functions_registered(old(self).functions@, program.functions@),
        ensures
            final(self).flattened_types == old(self).flattened_types,
            final(self).wf(),
            final(self).errors == old(self).errors,
            final(self).scopes == old(self).scopes,
            final(self).types == old(self).types,
            final(self).type_defs == old(self).type_defs,
            final(self).next_type_id == old(self).next_type_id,
            final(self).protocols == old(self).protocols,
            final(self).current_type == old(self).current_type,
            final(self).functions@.len() == old(self).functions@.len(),
            forall|k: int| 0 <= k < old(self).functions@.len() ==> (#[trigger] final(self).functions@[k]).0 == old(self).functions@[k].0,
            functions_prepared(final(self).param_vars@, final(self).return_var@, program.functions@),
    {
        let ghost s0 = *self;
        let mut k: usize = 0;
        while k < program.functions.len()
            invariant
                self.flattened_types == s0.flattened_types,
                self.wf(),
                self.errors == s0.errors,
                self.scopes == s0.scopes,
                self.types == s0.types,
                self.type_defs == s0.type_defs,
                self.next_type_id == s0.next_type_id,
                self.protocols == s0.protocols,
                self.current_type == s0.current_type,
                self.functions@.len() == s0.functions@.len(),
                forall|q: int| 0 <= q < s0.functions@.len() ==> (#[trigger] self.functions@[q]).0 == s0.functions@[q].0,
                k <= program.functions@.len(),
                functions_prepared(self.param_vars@, self.return_var@, program.functions@.subrange(0, k as int)),
                functions_registered(self.functions@, program.functions@),
            decreases program.functions@.len() - k,
        {
            let func = &program.functions[k];
            let mut vars: Vec<HulkType> = Vec::new();
            let mut j: usize = 0;
            let ghost sk = *self;
            while j < func.params.len()
                invariant
                self.flattened_types == s0.flattened_types,
                    self.wf(),
                    self.same_tables(&sk),
                    self.errors == sk.errors,
                    self.scopes == sk.scopes,
                    j <= func.params@.len(),
                    vars@.len() == j,
                decreases func.params@.len() - j,
            {
                let v = self.fresh_var();
                vars.push(v);
                j = j + 1;
            }
            let ret = self.fresh_var();
            proof {
                self.reveal_wf();
            }
            let ghost pv0 = self.param_vars@;
            let ghost rv0 = self.return_var@;
            proof {
                assert(program.functions@[k as int] == *func);
                assert(lookup(self.functions@, func.name@) is Some);
            }
            assoc_insert(&mut self.param_vars, func.name.clone(), crate::visit_call::clone_types_pub(&vars));
            assoc_insert(&mut self.return_var, func.name.clone(), ret.clone());
            proof {
                self.reveal_wf();
                assert forall|n: Seq<char>| #[trigger] lookup(self.param_vars@, n) is Some implies (lookup(
                    self.functions@,
                    n,
                ) is Some && lookup(self.param_vars@, n)->Some_0@.len() == lookup(self.functions@, n)->Some_0.params_len) by {
                    if n != func.name@ {
                        assert(lookup(self.param_vars@, n) == lookup(pv0, n));
                    }
                }
            }
            let ghost f0 = *self;
            set_function_sig(&mut self.functions, func.name.as_str(), vars, ret, None);
            proof {
                TypeChecker::lemma_functions_keys_kept(f0, self.functions@);
                self.reveal_wf();
                assert forall|q: int| 0 <= q < k + 1 implies lookup(self.param_vars@, (#[trigger] program.functions@.subrange(0, k + 1)[q]).name@) is Some
                    && lookup(self.return_var@, program.functions@.subrange(0, k + 1)[q].name@) is Some by {
                    let nm = program.functions@.subrange(0, k + 1)[q].name@;
                    if q < k {
                        assert(program.functions@.subrange(0, k + 1)[q] == program.functions@.subrange(0, k as int)[q]);
                        if nm != func.name@ {
                            assert(lookup(self.param_vars@, nm) == lookup(pv0, nm));
                            assert(lookup(self.return_var@, nm) == lookup(rv0, nm));
                        }
                    }
                }
            }
            k = k + 1;
        }
        proof {
            assert(program.functions@.subrange(0, k as int) =~= program.functions@);
        }
    }

    /// Checks a function: its parameters get their prepared type variables (unified with
    /// their annotations), the body is checked against the annotated result, and the
    /// function is generic when some of its variables stay unresolved.
    pub(crate) fn visit_function_def(&mut self, func: &mut FunctionDef) -> (res: HulkType)
        requires
            old(self).wf(),
            lookup(old(self).param_vars@, old(func).name@) is Some,
            lookup(old(self).return_var@, old(func).name@) is Some,
        ensures
            final(self).flattened_types == old(self).flattened_types,
            decl_step(*old(self), *final(self)),
            final(func).name == old(func).name && final(func).span == old(func).span
                && final(func).ty_annotation == old(func).ty_annotation,
            fparams_kept(old(func).params@, final(func).params@),
            same_shape(*old(func).body, *final(func).body),
            final(func).ty == Some(res),
            res == lookup(old(self).return_var@, old(func).name@).unwrap(),
            final(self).param_vars == old(self).param_vars,
            final(self).return_var == old(self).return_var,
            final(self).types == old(self).types,
            final(self).protocols == old(self).protocols,
            final(self).current_type == old(self).current_type,
            final(self).functions@.len() == old(self).functions@.len(),
            forall|k: int| 0 <= k < old(self).functions@.len() ==> (#[trigger] final(self).functions@[k]).0 == old(self).functions@[k].0,
            final(self).errors@.len() == old(self).errors@.len() ==> crate::visit::well_typed(*final(func).body, final(self).unifier),
    {
        let ghost s0 = *self;
        proof {
            s0.reveal_wf();
        }
        let param_vars = match assoc_get(&self.param_vars, func.name.as_str()) {
            Some(p) => crate::visit_call::clone_types_pub(p),
            None => Vec::new(),
        };
        let ret_var = match assoc_get(&self.return_var, func.name.as_str()) {
            Some(r) => r.clone(),
            None => HulkType::Error,
        };
        self.enter_scope();
        let ghost s3 = *self;
        proof {
            TypeChecker::lemma_step_refl(*self);
        }
        let ghost pstart = func.params@;
        let ghost f0 = *func;
        let mut i: usize = 0;
        while i < func.params.len() && i < param_vars.len()
            invariant
                self.wf(),
                s3.errors@.is_prefix_of(self.errors@),
                s3.unifier.refined_by(self.unifier),
                self.scopes@.len() == s3.scopes@.len(),
                self.scopes@.drop_last() == s3.scopes@.drop_last(),
                self.same_tables(&s3),
                i <= func.params@.len(),
                func.params@.len() == pstart.len(),
                func.name == f0.name && func.span == f0.span && func.ty_annotation == f0.ty_annotation
                    && func.body == f0.body && func.ty == f0.ty && func.is_generic == f0.is_generic,
                forall|j: int|
                    0 <= j < i ==> (#[trigger] func.params@[j]).name == pstart[j].name && func.params@[j].span
                        == pstart[j].span && func.params@[j].ty_annotation == pstart[j].ty_annotation,
                forall|j: int| i <= j < func.params@.len() ==> #[trigger] func.params@[j] == pstart[j],
            decreases func.params@.len() - i,
        {
            let ghost si = *self;
            if let Some(ann) = &func.params[i].ty_annotation {
                let resolved_ann = annotation_as_class(ann);
                let sp = func.params[i].span;
                self.unify_report(&param_vars[i], &resolved_ann, sp);
                proof {
                    lemma_prefix_trans(s3.errors@, si.errors@, self.errors@);
                    crate::inference::Unifier::lemma_refines_trans(s3.unifier, si.unifier, self.unifier);
                }
            }
            func.params[i].ty = Some(param_vars[i].clone());
            let pname = func.params[i].name.clone();
            let ghost before_scopes = self.scopes@;
            self.declare_var(pname, param_vars[i].clone());
            proof {
                assert(self.scopes@.drop_last() == before_scopes.drop_last());
            }
            i = i + 1;
        }
        let ghost s4 = *self;
        let body_ty = self.visit_expr(&mut func.body);
        let ghost s5 = *self;
        if let Some(ret_ann) = &func.ty_annotation {
            let resolved_ret = self.resolve_annotation(ret_ann);
            if !self.conforms_to(&body_ty, &resolved_ret) {
                let mut msg = cat("Return type ", debug_string(&body_ty).as_str());
                msg.append(" does not conform to annotated type ");
                msg.append(debug_string(&resolved_ret).as_str());
                self.report(msg, func.span);
            } else {
                proof {
                    TypeChecker::lemma_step_refl(*self);
                }
            }
        } else {
            proof {
                TypeChecker::lemma_step_refl(*self);
            }
        }
        let ghost s6 = *self;
        self.unify_report(&body_ty, &ret_var, func.span);
        proof {
            lemma_prefix_trans(s3.errors@, s4.errors@, s5.errors@);
            lemma_prefix_trans(s3.errors@, s5.errors@, s6.errors@);
            lemma_prefix_trans(s3.errors@, s6.errors@, self.errors@);
            crate::inference::Unifier::lemma_refines_trans(s3.unifier, s4.unifier, s5.unifier);
            crate::inference::Unifier::lemma_refines_trans(s3.unifier, s5.unifier, s6.unifier);
            crate::inference::Unifier::lemma_refines_trans(s3.unifier, s6.unifier, self.unifier);
            self.reveal_wf();
            if self.errors@.len() == s0.errors@.len() {
                crate::inference::Unifier::lemma_refines_trans(s5.unifier, s6.unifier, self.unifier);
                crate::visit::lemma_well_typed_refines(*func.body, s5.unifier, self.unifier);
            }
        }
        func.ty = Some(ret_var.clone());
        let mut is_generic = false;
        let mut j: usize = 0;
        while j < param_vars.len()
            invariant
                self.unifier.wf(),
                j <= param_vars@.len(),
            decreases param_vars@.len() - j,
        {
            if let HulkType::Var(_) = self.unifier.apply(&param_vars[j]) {
                is_generic = true;
            }
            j = j + 1;
        }
        if let HulkType::Var(_) = self.unifier.apply(&ret_var) {
            is_generic = true;
        }
        func.is_generic = is_generic;
        let ghost s7 = *self;
        set_function_sig(&mut self.functions, func.name.as_str(), param_vars, ret_var.clone(), Some(is_generic));
        proof {
            TypeChecker::lemma_functions_keys_kept(s7, self.functions@);
            self.reveal_wf();
            assert(self.scopes@.len() == s0.scopes@.len() + 1);
        }
        self.exit_scope();
        proof {
            assert(self.scopes@ == s0.scopes@);
            lemma_prefix_trans(s0.errors@, s3.errors@, self.errors@);
        }
        ret_var
    }
}

/// The expressions of a class that the checker visits with its substitution are well
/// typed under `u`: its attribute initializers and its method bodies.
pub open spec fn typedef_well_typed(td: TypeDef, u: crate::inference::Unifier) -> bool {
    &&& forall|j: int|
        0 <= j < td.attributes@.len() ==> crate::visit::well_typed(*(#[trigger] td.attributes@[j]).init_expr, u)
    &&& forall|j: int| 0 <= j < td.methods@.len() ==> crate::visit::well_typed(*(#[trigger] td.methods@[j]).body, u)
}

proof fn lemma_typedef_well_typed_refines(td: TypeDef, a: crate::inference::Unifier, b: crate::inference::Unifier)
    requires
        typedef_well_typed(td, a),
        a.refined_by(b),
        b.wf(),
    ensures
        typedef_well_typed(td, b),
{
    assert forall|j: int| 0 <= j < td.attributes@.len() implies crate::visit::well_typed(
        *(#[trigger] td.attributes@[j]).init_expr,
        b,
    ) by {
        crate::visit::lemma_well_typed_refines(*td.attributes@[j].init_expr, a, b);
    }
    assert forall|j: int| 0 <= j < td.methods@.len() implies crate::visit::well_typed(
        *(#[trigger] td.methods@[j]).body,
        b,
    ) by {
        crate::visit::lemma_well_typed_refines(*td.methods@[j].body, a, b);
    }
}

/// Every method of a type definition has its result and parameter types recorded.
pub open spec fn methods_typed(ms: Seq<Method>) -> bool {
    forall|m: int| 0 <= m < ms.len() ==> (#[trigger] ms[m]).ty is Some && params_typed(ms[m].params@)
}

fn clone_info_methods(v: &Vec<(String, MethodInfo)>) -> (res: Vec<(String, MethodInfo)>)
    ensures
        res@.len() == v@.len(),
        forall|i: int| 0 <= i < v@.len() ==> (#[trigger] res@[i]).0 == v@[i].0,
{
    let mut out: Vec<(String, MethodInfo)> = Vec::new();
    let mut i: usize = 0;
    while i < v.len()
        invariant
            i <= v@.len(),
            out@.len() == i,
            forall|j: int| 0 <= j < i ==> (#[trigger] out@[j]).0 == v@[j].0,
        decreases v@.len() - i,
    {
        out.push((v[i].0.clone(), MethodInfo {
            param_types: crate::visit_call::clone_types_pub(&v[i].1.param_types),
            return_type: v[i].1.return_type.clone(),
        }));
        i = i + 1;
    }
    out
}

/// Adds an attribute to a class entry: its type is stored, and a new name is appended to
/// the order of attributes.
fn add_attribute(info: &mut TypeInfo, name: &String, ty: HulkType)
    ensures
        final(info).attributes@ == assoc_put(old(info).attributes@, *name, ty),
        final(info).attr_order@ == if key_index(old(info).attributes@, name@) >= 0 {
            old(info).attr_order@
        } else {
            old(info).attr_order@.push(*name)
        },
        final(info).parent == old(info).parent,
        final(info).param_vars == old(info).param_vars,
        final(info).methods == old(info).methods,
        final(info).own_attributes == old(info).own_attributes,
{
    proof {
        lemma_key_index(info.attributes@, name@);
    }
    if !crate::assoc::assoc_has(&info.attributes, name.as_str()) {
        info.attr_order.push(name.clone());
    }
    assoc_insert(&mut info.attributes, name.clone(), ty);
}

impl TypeChecker {
    /// Registers and checks a type definition: its parent must exist and not be primitive;
    /// its parameters get type variables (or the parent's, when it declares none); the
    /// parent's attributes and methods are inherited; attributes, implicit parameter
    /// attributes, the parent's constructor arguments and the methods are checked in order.
    pub(crate) fn visit_type_def(&mut self, td: &mut TypeDef) -> (res: HulkType)
        requires
            old(self).wf(),
        ensures
            final(self).flattened_types == old(self).flattened_types,
            decl_step(*old(self), *final(self)),
            final(td).name == old(td).name && final(td).span == old(td).span,
            lookup(old(self).types@, old(td).name@) is Some ==> res is Error && final(self).errors@.len()
                == old(self).errors@.len() + 1 && final(self).types == old(self).types,
            lookup(old(self).types@, old(td).name@) is None ==> res is Object && lookup(
                final(self).types@,
                old(td).name@,
            ) is Some && methods_typed(final(td).methods@),
            forall|q: Seq<char>| lookup(old(self).types@, q) is Some ==> #[trigger] lookup(final(self).types@, q) is Some,
            final(self).param_vars == old(self).param_vars,
            final(self).return_var == old(self).return_var,
            final(self).protocols == old(self).protocols,
            final(self).functions == old(self).functions,
            final(self).errors@.len() == old(self).errors@.len() ==> typedef_well_typed(*final(td), final(self).unifier),
            lookup(old(self).types@, old(td).name@) is None ==> lookup(final(self).types@, old(td).name@)->Some_0.parent
                == parent_name_of(old(td).parent) && methods_registered(
                lookup(final(self).types@, old(td).name@)->Some_0,
                final(td).methods@,
                final(td).methods@.len() as int,
            ),
    {
        let ghost s0 = *self;
        proof {
            s0.reveal_wf();
        }
        if assoc_has(&self.types, td.name.as_str()) {
            let mut msg = cat("Duplicate type '", td.name.as_str());
            msg.append("'");
            self.add_type_error(msg, td.span);
            proof {
                lemma_prefix_push(s0.errors@, self.errors@.last());
                assert(self.errors@ =~= s0.errors@.push(self.errors@.last()));
                s0.unifier.lemma_refines_refl();
            }
            return HulkType::Error;
        }
        let parent_name: Option<String> = match &td.parent {
            Some(p) => Some(p.name.clone()),
            None => None,
        };
        proof {
            assert(parent_name == parent_name_of(old(td).parent));
        }
        proof {
            TypeChecker::lemma_step_refl(*self);
        }
        if let Some(pname) = &parent_name {
            if !assoc_has(&self.types, pname.as_str()) && !str_eq(pname.as_str(), "Object") {
                let mut msg = cat("Parent type '", pname.as_str());
                msg.append("' not found");
                self.report(msg, td.span);
            }
        }
        let ghost sa = *self;
        if let Some(pname) = &parent_name {
            if str_eq(pname.as_str(), "Number") || str_eq(pname.as_str(), "String") || str_eq(pname.as_str(), "Boolean") {
                let mut msg = cat("Cannot inherit from primitive type '", pname.as_str());
                msg.append("'");
                self.report(msg, td.span);
            }
        }
        proof {
            if self.errors@.len() > sa.errors@.len() {
                lemma_prefix_trans(s0.errors@, sa.errors@, self.errors@);
            }
        }
        let ghost sb = *self;
        proof {
            sb.reveal_wf();
            sb.unifier.lemma_refines_refl();
        }
        // type variables of the formal parameters
        let mut param_vars: Vec<HulkType> = Vec::new();
        if td.params.len() == 0 && parent_name.is_some() {
            let pname = match &parent_name {
                Some(p) => p.clone(),
                None => String::new(),
            };
            if let Some(parent_def) = assoc_get(&self.type_defs, pname.as_str()) {
                td.params = crate::ast::clone_strings_pub(&parent_def.params);
                td.param_types = crate::visit_call::clone_types_pub(&parent_def.param_types);
            }
            if let Some(pinfo) = assoc_get(&self.types, pname.as_str()) {
                param_vars = crate::visit_call::clone_types_pub(&pinfo.param_vars);
            }
        } else {
            let mut k: usize = 0;
            while k < td.params.len()
                invariant
                    self.wf(),
                    self.same_tables(&sb),
                    self.errors == sb.errors,
                    self.scopes == sb.scopes,
                    sb.unifier.refined_by(self.unifier),
                    k <= td.params@.len(),
                    td.name == old(td).name && td.span == old(td).span,
                decreases td.params@.len() - k,
            {
                let ghost b = self.unifier;
                let v = self.fresh_var();
                proof {
                    crate::inference::Unifier::lemma_refines_trans(sb.unifier, b, self.unifier);
                }
                param_vars.push(v);
                k = k + 1;
            }
        }
        // annotations of the formal parameters
        let ghost sc = *self;
        proof {
            TypeChecker::lemma_step_refl(*self);
        }
        let mut k: usize = 0;
        while k < param_vars.len() && k < td.param_types.len()
            invariant
                self.wf(),
                sc.expr_step(&*self),
                k <= param_vars@.len(),
                td.name == old(td).name && td.span == old(td).span,
            decreases param_vars@.len() - k,
        {
            let ghost sk = *self;
            let is_object = match &td.param_types[k] {
                HulkType::Object => true,
                _ => false,
            };
            if !is_object {
                let resolved_ann = self.resolve_annotation(&td.param_types[k]);
                proof {
                    self.reveal_wf();
                }
                let ghost u0 = self.unifier;
                match self.unifier.unify(&param_vars[k], &resolved_ann) {
                    Ok(()) => {
                        proof {
                            self.reveal_wf();
                            TypeChecker::lemma_step_refl(*self);
                            sk.reveal_wf();
                            u0.lemma_refines_update(
                                self.unifier,
                                u0.resolved(param_vars@[k as int]@),
                                u0.resolved(resolved_ann@),
                            );
                            TypeChecker::lemma_step_trans(sc, sk, *self);
                        }
                    },
                    Err(m) => {
                        proof {
                            self.reveal_wf();
                            lemma_prefix_refl(sk.errors@);
                            sk.reveal_wf();
                            u0.lemma_refines_same(self.unifier);
                        }
                        let ghost su = *self;
                        let msg = cat("Parameter type mismatch: ", m.as_str());
                        self.report(msg, td.span);
                        proof {
                            TypeChecker::lemma_step_trans(sk, su, *self);
                            TypeChecker::lemma_step_trans(sc, sk, *self);
                        }
                    },
                }
            }
            k = k + 1;
        }
        let ghost sd = *self;
        // registration, with what is inherited
        let mut type_info = TypeInfo {
            parent: match &parent_name {
                Some(p) => Some(p.clone()),
                None => None,
            },
            param_vars: crate::visit_call::clone_types_pub(&param_vars),
            attributes: Vec::new(),
            attr_order: Vec::new(),
            methods: Vec::new(),
            own_attributes: Vec::new(),
        };
        if let Some(pname) = &parent_name {
            if let Some(pinfo) = assoc_get(&self.types, pname.as_str()) {
                let mut a: usize = 0;
                while a < pinfo.attributes.len()
                    invariant
                        a <= pinfo.attributes@.len(),
                        type_info.parent == parent_name,
                    decreases pinfo.attributes@.len() - a,
                {
                    add_attribute(&mut type_info, &pinfo.attributes[a].0, pinfo.attributes[a].1.clone());
                    a = a + 1;
                }
                let inherited = clone_info_methods(&pinfo.methods);
                let mut m: usize = 0;
                while m < inherited.len()
                    invariant
                        m <= inherited@.len(),
                        type_info.parent == parent_name,
                    decreases inherited@.len() - m,
                {
                    assoc_insert(&mut type_info.methods, inherited[m].0.clone(), MethodInfo {
                        param_types: crate::visit_call::clone_types_pub(&inherited[m].1.param_types),
                        return_type: inherited[m].1.return_type.clone(),
                    });
                    m = m + 1;
                }
            }
        }
        proof {
            lemma_key_index(self.types@, td.name@);
        }
        let ghost ti0 = type_info;
        proof {
            assert(ti0.parent == parent_name_of(old(td).parent));
        }
        assoc_insert(&mut self.types, td.name.clone(), type_info);
        let ghost t1 = self.types@;
        proof {
            assert(lookup(t1, td.name@) == Some(ti0));
        }
        self.current_type = Some(td.name.clone());
        proof {
            sd.reveal_wf();
            self.reveal_wf();
        }
        let ghost se = *self;
        // the scope of the attribute initializers holds the formal parameters
        self.enter_scope();
        let mut k: usize = 0;
        while k < td.params.len() && k < param_vars.len()
            invariant
                self.wf(),
                self.errors == se.errors,
                self.unifier == se.unifier,
                self.same_tables(&se),
                self.scopes@.len() == se.scopes@.len() + 1,
                self.scopes@.drop_last() == se.scopes@,
                k <= td.params@.len(),
                td.name == old(td).name && td.span == old(td).span,
            decreases td.params@.len() - k,
        {
            let ghost before_scopes = self.scopes@;
            self.declare_var(td.params[k].clone(), param_vars[k].clone());
            proof {
                assert(self.scopes@.drop_last() == before_scopes.drop_last());
            }
            k = k + 1;
        }
        let ghost sf = *self;
        proof {
            TypeChecker::lemma_step_refl(*self);
        }
        let mut a: usize = 0;
        while a < td.attributes.len()
            invariant
                self.wf(),
                sf.errors@.is_prefix_of(self.errors@),
                self.scopes@ == sf.scopes@,
                self.current_type == sf.current_type,
                self.param_vars == sf.param_vars,
                self.return_var == sf.return_var,
                self.functions == sf.functions,
                self.protocols == sf.protocols,
                self.type_defs == sf.type_defs,
                self.flattened_types == sf.flattened_types,
                self.types@.len() == sf.types@.len(),
                forall|q: int| 0 <= q < sf.types@.len() ==> (#[trigger] self.types@[q]).0 == sf.types@[q].0,
                sf.unifier.refined_by(self.unifier),
                a <= td.attributes@.len(),
                td.name == old(td).name && td.span == old(td).span,
                classes_kept(t1, self.types@),
                self.errors@.len() == sf.errors@.len() ==> forall|j: int|
                    0 <= j < a ==> crate::visit::well_typed(*(#[trigger] td.attributes@[j]).init_expr, self.unifier),
            decreases td.attributes@.len() - a,
        {
            let ghost sa2 = *self;
            let ghost ta = td.attributes@;
            self.visit_attribute(&mut td.attributes[a]);
            proof {
                assert forall|k: int| 0 <= k < t1.len() implies (#[trigger] self.types@[k]).0 == t1[k].0
                    && self.types@[k].1.parent == t1[k].1.parent && self.types@[k].1.methods == t1[k].1.methods by {
                    assert(self.types@[k].0 == sa2.types@[k].0);
                }
                lemma_prefix_trans(sf.errors@, sa2.errors@, self.errors@);
                crate::inference::Unifier::lemma_refines_trans(sf.unifier, sa2.unifier, self.unifier);
                if self.errors@.len() == sf.errors@.len() {
                    self.reveal_wf();
                    assert forall|j: int| 0 <= j < a + 1 implies crate::visit::well_typed(
                        *(#[trigger] td.attributes@[j]).init_expr,
                        self.unifier,
                    ) by {
                        if j < a {
                            assert(td.attributes@[j] == ta[j]);
                            crate::visit::lemma_well_typed_refines(*ta[j].init_expr, sa2.unifier, self.unifier);
                        }
                    }
                }
            }
            a = a + 1;
        }
        let ghost attrs_end = td.attributes@;
        // implicit attributes for the formal parameters, and the class's own attributes
        proof {
            self.reveal_wf();
        }
        let ghost sg = *self;
        if let Some(i) = assoc_find(&self.types, td.name.as_str()) {
            proof {
                lemma_key_index(self.types@, td.name@);
            }
            let mut k: usize = 0;
            while k < td.params.len()
                invariant
                    same_except_types(*self, sg),
                    k <= td.params@.len(),
                    i < self.types@.len(),
                    self.types@.len() == sg.types@.len(),
                    forall|q: int| 0 <= q < sg.types@.len() ==> (#[trigger] self.types@[q]).0 == sg.types@[q].0,
                classes_kept(t1, self.types@),
                decreases td.params@.len() - k,
            {
                if !assoc_has(&self.types[i].1.attributes, td.params[k].as_str()) {
                    if k < param_vars.len() {
                        let pn = td.params[k].clone();
                        let ghost tb = self.types@;
                        add_attribute(&mut self.types[i].1, &pn, param_vars[k].clone());
                        proof {
                            assert forall|q: int| 0 <= q < t1.len() implies (#[trigger] self.types@[q]).0 == t1[q].0
                                && self.types@[q].1.parent == t1[q].1.parent && self.types@[q].1.methods
                                == t1[q].1.methods by {
                                assert(tb[q].0 == t1[q].0);
                            }
                        }
                    }
                }
                k = k + 1;
            }
            let mut a: usize = 0;
            while a < td.attributes.len()
                invariant
                    same_except_types(*self, sg),
                    a <= td.attributes@.len(),
                    i < self.types@.len(),
                    self.types@.len() == sg.types@.len(),
                    forall|q: int| 0 <= q < sg.types@.len() ==> (#[trigger] self.types@[q]).0 == sg.types@[q].0,
                classes_kept(t1, self.types@),
                decreases td.attributes@.len() - a,
            {
                if !has_name(&self.types[i].1.own_attributes, td.attributes[a].name.as_str()) {
                    let an = td.attributes[a].name.clone();
                    let ghost tb = self.types@;
                    self.types[i].1.own_attributes.push(an);
                    proof {
                        assert forall|q: int| 0 <= q < t1.len() implies (#[trigger] self.types@[q]).0 == t1[q].0
                            && self.types@[q].1.parent == t1[q].1.parent && self.types@[q].1.methods
                            == t1[q].1.methods by {
                            assert(tb[q].0 == t1[q].0);
                        }
                    }
                }
                a = a + 1;
            }
        }
        proof {
            TypeChecker::lemma_types_keys_kept(sg, self.types@);
            sg.reveal_wf();
            self.reveal_wf();
            TypeChecker::lemma_step_refl(*self);
            assert(keys_unique(self.types@));
            assert(self.wf());
        }
        // the parent's constructor arguments, with the parameters in scope
        let ghost sh = *self;
        if let Some(parent) = &mut td.parent {
            let mut a: usize = 0;
            while a < parent.args.len()
                invariant
                    self.wf(),
                    sh.expr_step(&*self),
                    a <= parent.args@.len(),
                decreases parent.args@.len() - a,
            {
                let ghost si = *self;
                self.visit_expr(&mut parent.args[a]);
                proof {
                    TypeChecker::lemma_step_trans(sh, si, *self);
                }
                a = a + 1;
            }
        }
        proof {
            self.reveal_wf();
            assert(self.scopes@.len() == se.scopes@.len() + 1);
        }
        let ghost si2 = *self;
        self.exit_scope();
        // methods
        let ghost sj = *self;
        proof {
            TypeChecker::lemma_step_refl(*self);
        }
        proof {
            lemma_classes_kept_lookup(t1, self.types@, td.name@);
        }
        let ghost mstart = td.methods@;
        let mut m: usize = 0;
        while m < td.methods.len()
            invariant
                self.wf(),
                sj.errors@.is_prefix_of(self.errors@),
                self.scopes@ == sj.scopes@,
                self.current_type == sj.current_type,
                self.current_type is Some,
                self.param_vars == sj.param_vars,
                self.return_var == sj.return_var,
                self.functions == sj.functions,
                self.protocols == sj.protocols,
                self.type_defs == sj.type_defs,
                self.flattened_types == sj.flattened_types,
                self.types@.len() == sj.types@.len(),
                forall|q: int| 0 <= q < sj.types@.len() ==> (#[trigger] self.types@[q]).0 == sj.types@[q].0,
                m <= td.methods@.len(),
                td.methods@.len() == mstart.len(),
                td.name == old(td).name && td.span == old(td).span,
                forall|j: int| 0 <= j < m ==> (#[trigger] td.methods@[j]).ty is Some && params_typed(td.methods@[j].params@),
                sj.unifier.refined_by(self.unifier),
                td.attributes@ == attrs_end,
                self.errors@.len() == sj.errors@.len() ==> forall|j: int|
                    0 <= j < m ==> crate::visit::well_typed(*(#[trigger] td.methods@[j]).body, self.unifier),
                sj.current_type == Some(td.name),
                lookup(self.types@, td.name@) is Some,
                lookup(self.types@, td.name@)->Some_0.parent == parent_name_of(old(td).parent),
                methods_registered(lookup(self.types@, td.name@)->Some_0, td.methods@, m as int),
            decreases td.methods@.len() - m,
        {
            let ghost sm = *self;
            let ghost tm = td.methods@;
            self.visit_method(&mut td.methods[m]);
            proof {
                let before = lookup(sm.types@, td.name@)->Some_0;
                let after = lookup(self.types@, td.name@)->Some_0;
                let nm = tm[m as int].name@;
                assert(td.methods@[m as int].name@ == nm);
                assert(sm.current_type->Some_0@ == td.name@);
                assert(lookup(sm.types@, td.name@) is Some);
                assert(method_recorded(before, after, nm, tm[m as int].params@.len()));
                assert(td.methods@[m as int].params@.len() == tm[m as int].params@.len());
                assert forall|j: int| 0 <= j < m + 1 implies lookup(after.methods@, (#[trigger] td.methods@[j]).name@) is Some
                    && ((forall|l: int| j < l < m + 1 ==> td.methods@[l].name@ != td.methods@[j].name@) ==> lookup(
                    after.methods@,
                    td.methods@[j].name@,
                )->Some_0.param_types@.len() == td.methods@[j].params@.len()) by {
                    if j < m {
                        assert(td.methods@[j] == tm[j]);
                        assert(lookup(before.methods@, tm[j].name@) is Some);
                        if tm[j].name@ != nm {
                            assert(lookup(after.methods@, tm[j].name@) == lookup(before.methods@, tm[j].name@));
                            if forall|l: int| j < l < m + 1 ==> td.methods@[l].name@ != td.methods@[j].name@ {
                                assert forall|l: int| j < l < m implies tm[l].name@ != tm[j].name@ by {
                                    assert(td.methods@[l] == tm[l]);
                                }
                            }
                        } else {
                            assert(td.methods@[m as int].name@ == td.methods@[j].name@);
                        }
                    } else {
                        assert(j == m);
                    }
                }
                lemma_prefix_trans(sj.errors@, sm.errors@, self.errors@);
                crate::inference::Unifier::lemma_refines_trans(sj.unifier, sm.unifier, self.unifier);
                if self.errors@.len() == sj.errors@.len() {
                    self.reveal_wf();
                    assert forall|j: int| 0 <= j < m + 1 implies crate::visit::well_typed(
                        *(#[trigger] td.methods@[j]).body,
                        self.unifier,
                    ) by {
                        if j < m {
                            assert(td.methods@[j] == tm[j]);
                            crate::visit::lemma_well_typed_refines(*tm[j].body, sm.unifier, self.unifier);
                        }
                    }
                }
            }
            m = m + 1;
        }
        proof {
            self.reveal_wf();
        }
        self.current_type = None;
        let mut resolved: Vec<HulkType> = Vec::new();
        let mut k: usize = 0;
        while k < param_vars.len()
            invariant
                self.unifier.wf(),
                k <= param_vars@.len(),
            decreases param_vars@.len() - k,
        {
            resolved.push(self.unifier.resolve(&param_vars[k]));
            k = k + 1;
        }
        td.param_types = resolved;
        proof {
            self.reveal_wf();
            TypeChecker::lemma_types_keys_kept(sj, self.types@);
            lemma_prefix_trans(s0.errors@, sb.errors@, sc.errors@);
            lemma_prefix_trans(s0.errors@, sc.errors@, sd.errors@);
            lemma_prefix_trans(s0.errors@, sd.errors@, sf.errors@);
            lemma_prefix_trans(s0.errors@, sf.errors@, sh.errors@);
            lemma_prefix_trans(s0.errors@, sh.errors@, sj.errors@);
            lemma_prefix_trans(s0.errors@, sj.errors@, self.errors@);
            assert(self.scopes@ == s0.scopes@);
            assert(sf.types@ == t1);
            assert forall|k: int| 0 <= k < t1.len() implies (#[trigger] self.types@[k]).0 == t1[k].0 by {
                assert(self.types@[k].0 == sj.types@[k].0);
                assert(sh.types@[k].0 == sg.types@[k].0);
                assert(sg.types@[k].0 == sf.types@[k].0);
            }
            assert forall|q: Seq<char>| lookup(s0.types@, q) is Some implies #[trigger] lookup(self.types@, q) is Some by {
                crate::assoc::lemma_same_keys(t1, self.types@, q);
            }
            assert(lookup(self.types@, td.name@) is Some) by {
                crate::assoc::lemma_same_keys(t1, self.types@, td.name@);
            }
            crate::inference::Unifier::lemma_refines_trans(s0.unifier, sb.unifier, sc.unifier);
            crate::inference::Unifier::lemma_refines_trans(s0.unifier, sc.unifier, sd.unifier);
            assert(sf.unifier == sd.unifier);
            crate::inference::Unifier::lemma_refines_trans(s0.unifier, sf.unifier, sg.unifier);
            assert(sh.unifier == sg.unifier);
            crate::inference::Unifier::lemma_refines_trans(s0.unifier, sh.unifier, si2.unifier);
            assert(sj.unifier == si2.unifier);
            crate::inference::Unifier::lemma_refines_trans(s0.unifier, sj.unifier, self.unifier);
            if self.errors@.len() == s0.errors@.len() {
                crate::inference::Unifier::lemma_refines_trans(sg.unifier, si2.unifier, self.unifier);
                assert forall|j: int| 0 <= j < td.attributes@.len() implies crate::visit::well_typed(
                    *(#[trigger] td.attributes@[j]).init_expr,
                    self.unifier,
                ) by {
                    crate::visit::lemma_well_typed_refines(*td.attributes@[j].init_expr, sg.unifier, self.unifier);
                }
            }
        }
        HulkType::Object
    }
}

impl TypeChecker {
    fn protocol_signature(&self, m: &ProtocolMethod) -> (res: MethodInfo)
        ensures
            res.param_types@.len() == m.params@.len(),
    {
        let mut param_types: Vec<HulkType> = Vec::new();
        let mut j: usize = 0;
        while j < m.params.len()
            invariant
                j <= m.params@.len(),
                param_types@.len() == j,
            decreases m.params@.len() - j,
        {
            let t = match &m.params[j].ty_annotation {
                Some(ann) => self.resolve_annotation(ann),
                None => HulkType::Error,
            };
            param_types.push(t);
            j = j + 1;
        }
        let ret = match &m.return_ty {
            Some(ann) => self.resolve_annotation(ann),
            None => HulkType::Error,
        };
        MethodInfo { param_types, return_type: ret }
    }

    /// Registers a protocol: its method signatures (annotations resolved; a missing one is an
    /// error type) and those it inherits, which it may not redefine.
    pub(crate) fn visit_protocol_def(&mut self, proto: &mut ProtocolDef) -> (res: HulkType)
        requires
            old(self).wf(),
        ensures
            final(self).flattened_types == old(self).flattened_types,
            decl_step(*old(self), *final(self)),
            *final(proto) == *old(proto),
            res is Object,
            lookup(old(self).protocols@, old(proto).name@) is None ==> (lookup(final(self).protocols@, old(proto).name@)
                matches Some(pi) && pi.extends == old(proto).extends),
            final(self).types == old(self).types,
            final(self).param_vars == old(self).param_vars,
            final(self).return_var == old(self).return_var,
            final(self).functions == old(self).functions,
            final(self).type_defs == old(self).type_defs,
    {
        let ghost s0 = *self;
        proof {
            s0.reveal_wf();
        }
        if assoc_has(&self.protocols, proto.name.as_str()) {
            let mut msg = cat("Duplicate protocol '", proto.name.as_str());
            msg.append("'");
            self.add_type_error(msg, proto.span);
            proof {
                lemma_prefix_push(s0.errors@, self.errors@.last());
                assert(self.errors@ =~= s0.errors@.push(self.errors@.last()));
                s0.unifier.lemma_refines_refl();
            }
            return HulkType::Object;
        }
        proof {
            TypeChecker::lemma_step_refl(*self);
        }
        if let Some(parent) = &proto.extends {
            if !assoc_has(&self.protocols, parent.as_str()) {
                let mut msg = cat("Parent protocol '", parent.as_str());
                msg.append("' not found");
                self.report(msg, proto.span);
            }
        }
        let ghost s1 = *self;
        let mut methods: Vec<(String, MethodInfo)> = Vec::new();
        let mut k: usize = 0;
        while k < proto.methods.len()
            invariant
                k <= proto.methods@.len(),
            decreases proto.methods@.len() - k,
        {
            let info = self.protocol_signature(&proto.methods[k]);
            assoc_insert(&mut methods, proto.methods[k].name.clone(), info);
            k = k + 1;
        }
        let inherited: Vec<(String, MethodInfo)> = match &proto.extends {
            Some(parent) => match assoc_get(&self.protocols, parent.as_str()) {
                Some(pinfo) => clone_info_methods(&pinfo.methods),
                None => Vec::new(),
            },
            None => Vec::new(),
        };
        proof {
            TypeChecker::lemma_step_refl(*self);
        }
        let mut m: usize = 0;
        while m < inherited.len()
            invariant
                self.wf(),
                s1.expr_step(&*self),
                m <= inherited@.len(),
                *proto == *old(proto),
            decreases inherited@.len() - m,
        {
            let ghost sm = *self;
            if assoc_has(&methods, inherited[m].0.as_str()) {
                let mut msg = cat("Method '", inherited[m].0.as_str());
                msg.append("' already defined in parent protocol");
                self.report(msg, proto.span);
                proof {
                    TypeChecker::lemma_step_trans(s1, sm, *self);
                }
            } else {
                assoc_insert(&mut methods, inherited[m].0.clone(), MethodInfo {
                    param_types: crate::visit_call::clone_types_pub(&inherited[m].1.param_types),
                    return_type: inherited[m].1.return_type.clone(),
                });
            }
            m = m + 1;
        }
        let extends = match &proto.extends {
            Some(p) => Some(p.clone()),
            None => None,
        };
        let ghost s2 = *self;
        proof {
            s2.reveal_wf();
            lemma_key_index(self.protocols@, proto.name@);
        }
        assoc_insert(&mut self.protocols, proto.name.clone(), ProtocolInfo { methods, extends });
        proof {
            self.reveal_wf();
            lemma_prefix_trans(s0.errors@, s1.errors@, self.errors@);
            s0.unifier.lemma_refines_refl();
            crate::inference::Unifier::lemma_refines_trans(s0.unifier, s1.unifier, self.unifier);
        }
        HulkType::Object
    }

    /// A protocol's method signature needs no checking of its own.
    pub(crate) fn visit_protocol_method(&mut self, _method: &mut ProtocolMethod) -> (res: HulkType)
        ensures
            res is Object,
            *final(self) == *old(self),
    {
        HulkType::Object
    }

    /// Checks a whole program: functions are registered (a repeated name is an error, and
    /// then nothing else is checked), their type variables prepared, then type definitions,
    /// protocols and function bodies are checked, and last the main expression, whose type is
    /// the result.
    pub(crate) fn visit_program(&mut self, program: &mut Program) -> (res: HulkType)
        requires
            old(self).wf(),
        ensures
            final(self).flattened_types == old(self).flattened_types,
            final(self).wf(),
            old(self).errors@.is_prefix_of(final(self).errors@),
            old(self).errors@.len() > 0 ==> res is Error,
            final(self).errors == old(self).errors ==> same_shape(*old(program).main_expr, *final(program).main_expr),
            lookup(final(self).types@, "Object"@) is Some,
            final(self).errors@.len() == 0 ==> crate::visit::well_typed(*final(program).main_expr, final(self).unifier),
            final(self).errors@.len() == 0 ==> forall|j: int|
                0 <= j < final(program).functions@.len() ==> crate::visit::well_typed(
                    *(#[trigger] final(program).functions@[j]).body,
                    final(self).unifier,
                ),
            final(self).errors@.len() == 0 ==> forall|j: int|
                0 <= j < final(program).types@.len() ==> typedef_well_typed(
                    #[trigger] final(program).types@[j],
                    final(self).unifier,
                ),
            old(program).functions@.len() == 0 && old(program).types@.len() == 0 && old(program).protocols@.len()
                == 0 && old(self).errors@.len() == 0 && crate::visit::plain(old(self).scopes@, *old(program).main_expr) ==> error_list(
                final(self).errors@,
            ) == crate::visit::plain_errors(old(self).scopes@, *old(program).main_expr),
            old(program).functions@.len() == 0 && old(program).types@.len() == 0 && old(program).protocols@.len()
                == 0 && lookup(old(self).types@, "Object"@) is Some ==> final(self).types == old(self).types
                && final(self).type_defs == old(self).type_defs && final(self).next_type_id == old(self).next_type_id,
            final(program).types@.len() == old(program).types@.len(),
    {
        let ghost s0 = *self;
        self.register_builtin_types();
        let ghost s1 = *self;
        proof {
            reveal_strlit("Object");
            s1.reveal_wf();
        }
        let mut k: usize = 0;
        while k < program.functions.len()
            invariant
                self.flattened_types == s0.flattened_types,
                self.wf(),
                self.scopes == s1.scopes,
                self.types == s1.types,
                s1.errors@.is_prefix_of(self.errors@),
                self.errors@.len() >= s1.errors@.len(),
                k <= program.functions@.len(),
                k == 0 ==> self.errors == s1.errors,
                k == 0 ==> self.type_defs == s1.type_defs && self.next_type_id == s1.next_type_id,
                program.types == old(program).types,
                program.protocols == old(program).protocols,
                program.main_expr == old(program).main_expr,
                self.errors@.len() == s1.errors@.len() ==> functions_registered(
                    self.functions@,
                    program.functions@.subrange(0, k as int),
                ),
            decreases program.functions@.len() - k,
        {
            proof {
                self.reveal_wf();
            }
            let ghost sk = *self;
            let ghost fk = self.functions@;
            if assoc_has(&self.functions, program.functions[k].name.as_str()) {
                let mut msg = cat("Duplicate function '", program.functions[k].name.as_str());
                msg.append("'");
                self.add_type_error(msg, program.functions[k].span);
                proof {
                    lemma_prefix_push(sk.errors@, self.errors@.last());
                    assert(self.errors@ =~= sk.errors@.push(self.errors@.last()));
                    lemma_prefix_trans(s1.errors@, sk.errors@, self.errors@);
                }
            } else {
                assoc_insert(&mut self.functions, program.functions[k].name.clone(), FunctionInfo {
                    params_len: program.functions[k].params.len(),
                    param_types: None,
                    return_type: None,
                    is_generic: false,
                });
                proof {
                    self.reveal_wf();
                    if self.errors@.len() == s1.errors@.len() {
                        let pre = program.functions@.subrange(0, k as int);
                        let next = program.functions@.subrange(0, k + 1);
                        let nk = program.functions@[k as int].name@;
                        assert forall|q: int| 0 <= q < next.len() implies lookup(self.functions@, (#[trigger] next[q]).name@) is Some
                            && lookup(self.functions@, next[q].name@)->Some_0.params_len == next[q].params@.len() by {
                            if q < k {
                                assert(next[q] == pre[q]);
                                assert(lookup(fk, pre[q].name@) is Some);
                                if pre[q].name@ == nk {
                                    assert(false);
                                }
                            }
                        }
                    }
                }
            }
            k = k + 1;
        }
        proof {
            assert(program.functions@.subrange(0, k as int) =~= program.functions@);
        }
        if self.errors.len() > 0 {
            proof {
                crate::ast::lemma_same_shape_refl(*program.main_expr);
            }
            return HulkType::Error;
        }
        proof {
            assert(s0.errors@.len() == 0);
            crate::ast::lemma_same_shape_refl(*program.main_expr);
        }
        let ghost s2 = *self;
        self.prepare_function_vars(program);
        let ghost s3 = *self;
        proof {
            TypeChecker::lemma_step_refl(*self);
        }
        // type definitions
        let mut t: usize = 0;
        while t < program.types.len()
            invariant
                self.flattened_types == s0.flattened_types,
                self.wf(),
                s3.errors@.is_prefix_of(self.errors@),
                self.scopes@ == s3.scopes@,
                self.param_vars == s3.param_vars,
                self.return_var == s3.return_var,
                lookup(self.types@, "Object"@) is Some,
                t <= program.types@.len(),
                t == 0 ==> self.errors == s3.errors,
                t == 0 ==> self.type_defs == s3.type_defs && self.next_type_id == s3.next_type_id && self.types == s3.types,
                program.types@.len() == old(program).types@.len(),
                program.protocols == old(program).protocols,
                program.functions == old(program).functions,
                program.main_expr == old(program).main_expr,
                self.errors@.len() == 0 ==> forall|j: int|
                    0 <= j < t ==> typedef_well_typed(#[trigger] program.types@[j], self.unifier),
            decreases program.types@.len() - t,
        {
            let ghost st = *self;
            let ghost tt = program.types@;
            proof {
                st.reveal_wf();
            }
            self.visit_type_def(&mut program.types[t]);
            let copy = crate::ast::clone_typedef(&program.types[t]);
            let ghost su = *self;
            proof {
                su.reveal_wf();
                lemma_prefix_trans(s3.errors@, st.errors@, self.errors@);
            }
            assoc_insert(&mut self.type_defs, program.types[t].name.clone(), copy);
            proof {
                self.reveal_wf();
                if self.errors@.len() == 0 {
                    assert forall|j: int| 0 <= j < t + 1 implies typedef_well_typed(
                        #[trigger] program.types@[j],
                        self.unifier,
                    ) by {
                        if j < t {
                            assert(program.types@[j] == tt[j]);
                            lemma_typedef_well_typed_refines(tt[j], st.unifier, self.unifier);
                        }
                    }
                }
            }
            t = t + 1;
        }
        // protocols
        let ghost s4 = *self;
        let ghost types_end = program.types;
        proof {
            s4.reveal_wf();
            s4.unifier.lemma_refines_refl();
        }
        let mut p: usize = 0;
        while p < program.protocols.len()
            invariant
                self.flattened_types == s0.flattened_types,
                self.wf(),
                s3.errors@.is_prefix_of(self.errors@),
                self.scopes@ == s3.scopes@,
                self.param_vars == s3.param_vars,
                self.return_var == s3.return_var,
                self.types == s4.types,
                p <= program.protocols@.len(),
                p == 0 ==> self.errors == s4.errors,
                p == 0 ==> self.type_defs == s4.type_defs && self.next_type_id == s4.next_type_id,
                program.protocols@.len() == old(program).protocols@.len(),
                program.functions == old(program).functions,
                program.main_expr == old(program).main_expr,
                program.types == types_end,
                s4.unifier.refined_by(self.unifier),
                self.errors@.len() >= s4.errors@.len(),
            decreases program.protocols@.len() - p,
        {
            let ghost sp = *self;
            self.visit_protocol_def(&mut program.protocols[p]);
            proof {
                lemma_prefix_trans(s3.errors@, sp.errors@, self.errors@);
                crate::inference::Unifier::lemma_refines_trans(s4.unifier, sp.unifier, self.unifier);
            }
            p = p + 1;
        }
        // function bodies
        let ghost s5 = *self;
        let mut f: usize = 0;
        while f < program.functions.len()
            invariant
                self.flattened_types == s0.flattened_types,
                self.wf(),
                s3.errors@.is_prefix_of(self.errors@),
                self.scopes@ == s3.scopes@,
                self.param_vars == s3.param_vars,
                self.return_var == s3.return_var,
                self.types == s4.types,
                functions_prepared(self.param_vars@, self.return_var@, old(program).functions@),
                program.functions@.len() == old(program).functions@.len(),
                forall|j: int| 0 <= j < program.functions@.len() ==> (#[trigger] program.functions@[j]).name == old(program).functions@[j].name,
                f <= program.functions@.len(),
                f == 0 ==> self.errors == s5.errors,
                f == 0 ==> self.type_defs == s5.type_defs && self.next_type_id == s5.next_type_id,
                program.main_expr == old(program).main_expr,
                self.errors@.len() == 0 ==> forall|j: int|
                    0 <= j < f ==> crate::visit::well_typed(*(#[trigger] program.functions@[j]).body, self.unifier),
                program.types == types_end,
                s4.unifier.refined_by(self.unifier),
                self.errors@.len() >= s4.errors@.len(),
            decreases program.functions@.len() - f,
        {
            let ghost sf = *self;
            let ghost pf = program.functions@;
            proof {
                assert(lookup(self.param_vars@, old(program).functions@[f as int].name@) is Some);
            }
            self.visit_function_def(&mut program.functions[f]);
            proof {
                lemma_prefix_trans(s3.errors@, sf.errors@, self.errors@);
                crate::inference::Unifier::lemma_refines_trans(s4.unifier, sf.unifier, self.unifier);
                if self.errors@.len() == 0 {
                    self.reveal_wf();
                    assert forall|j: int| 0 <= j < f + 1 implies crate::visit::well_typed(
                        *(#[trigger] program.functions@[j]).body,
                        self.unifier,
                    ) by {
                        if j < f {
                            assert(program.functions@[j] == pf[j]);
                            crate::visit::lemma_well_typed_refines(*pf[j].body, sf.unifier, self.unifier);
                        }
                    }
                }
            }
            f = f + 1;
        }
        let ghost s6 = *self;
        let main_ty = self.visit_expr(&mut program.main_expr);
        proof {
            if old(program).functions@.len() == 0 && old(program).types@.len() == 0 && old(program).protocols@.len()
                == 0 && s0.errors@.len() == 0 && crate::visit::plain(s0.scopes@, *old(program).main_expr) {
                assert(s1.errors == s0.errors);
                assert(s2.errors == s1.errors);
                assert(s3.errors == s2.errors);
                assert(s4.errors == s3.errors);
                assert(s5.errors == s4.errors);
                assert(s6.errors == s5.errors);
                assert(s6.errors == s0.errors);
                assert(s6.scopes@ == s0.scopes@);
                assert(error_list(s6.errors@) =~= Seq::<Option<(Seq<char>, Span)>>::empty());
                assert(error_list(self.errors@) =~= crate::visit::plain_errors(s0.scopes@, *old(program).main_expr));
            }
            lemma_prefix_trans(s3.errors@, s6.errors@, self.errors@);
            lemma_prefix_trans(s0.errors@, s3.errors@, self.errors@);
            if self.errors@.len() == 0 {
                self.reveal_wf();
                assert forall|j: int| 0 <= j < program.functions@.len() implies crate::visit::well_typed(
                    *(#[trigger] program.functions@[j]).body,
                    self.unifier,
                ) by {
                    crate::visit::lemma_well_typed_refines(*program.functions@[j].body, s6.unifier, self.unifier);
                }
                crate::inference::Unifier::lemma_refines_trans(s4.unifier, s6.unifier, self.unifier);
                assert forall|j: int| 0 <= j < program.types@.len() implies typedef_well_typed(
                    #[trigger] program.types@[j],
                    self.unifier,
                ) by {
                    lemma_typedef_well_typed_refines(program.types@[j], s4.unifier, self.unifier);
                }
            }
        }
        main_ty
    }
}

} // verus!
