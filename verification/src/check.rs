use vstd::prelude::*;
use crate::types::HulkType;
use crate::error::CompilerError;
use crate::ast::{Program, TypeDef};
use crate::assoc::{lookup, assoc_get, assoc_find, lemma_key_index};
use crate::type_checker::{TypeChecker, TypeInfo, FlattenedType, class_parent, class_reaches};
use crate::resolve::signatures_recorded;
use crate::flatten::{ready, no_cycle, all_ready};

verus! {

fn clone_errors(v: &Vec<CompilerError>) -> (res: Vec<CompilerError>)
    ensures
        res@ == v@,
{
    let mut out: Vec<CompilerError> = Vec::new();
    let mut i: usize = 0;
    while i < v.len()
        invariant
            i <= v@.len(),
            out@ == v@.subrange(0, i as int),
        decreases v@.len() - i,
    {
        out.push(v[i].clone());
        i = i + 1;
        assert(out@ =~= v@.subrange(0, i as int));
    }
    assert(v@.subrange(0, i as int) =~= v@);
    out
}

impl TypeChecker {
    /// Whether every registered method of the program's types has its types recorded.
    fn signatures_ready(&self, program: &Program) -> (res: bool)
        ensures
            res == signatures_recorded(self.types@, *program),
    {
        let mut k: usize = 0;
        while k < program.types.len()
            invariant
                k <= program.types@.len(),
                forall|k2: int, m: int|
                    0 <= k2 < k && 0 <= m < program.types@[k2].methods@.len() && (lookup(
                        self.types@,
                        program.types@[k2].name@,
                    ) matches Some(ti) && lookup(ti.methods@, program.types@[k2].methods@[m].name@) is Some) ==> {
                        let meth = #[trigger] program.types@[k2].methods@[m];
                        meth.ty is Some && forall|j: int| 0 <= j < meth.params@.len() ==> (#[trigger] meth.params@[j]).ty is Some
                    },
            decreases program.types@.len() - k,
        {
            let td = &program.types[k];
            if let Some(ti) = assoc_get(&self.types, td.name.as_str()) {
                let mut m: usize = 0;
                while m < td.methods.len()
                    invariant
                        m <= td.methods@.len(),
                        k < program.types@.len(),
                        lookup(self.types@, td.name@) == Some(*ti),
                        td == program.types@[k as int],
                        forall|k2: int, m2: int|
                            0 <= k2 < k && 0 <= m2 < program.types@[k2].methods@.len() && (lookup(
                                self.types@,
                                program.types@[k2].name@,
                            ) matches Some(ti2) && lookup(ti2.methods@, program.types@[k2].methods@[m2].name@) is Some) ==> {
                                let meth = #[trigger] program.types@[k2].methods@[m2];
                                meth.ty is Some && forall|j: int| 0 <= j < meth.params@.len() ==> (#[trigger] meth.params@[j]).ty is Some
                            },
                        forall|m2: int|
                            0 <= m2 < m && lookup(ti.methods@, td.methods@[m2].name@) is Some ==> {
                                let meth = #[trigger] td.methods@[m2];
                                meth.ty is Some && forall|j: int| 0 <= j < meth.params@.len() ==> (#[trigger] meth.params@[j]).ty is Some
                            },
                    decreases td.methods@.len() - m,
                {
                    let meth = &td.methods[m];
                    if crate::assoc::assoc_has(&ti.methods, meth.name.as_str()) {
                        if meth.ty.is_none() {
                            proof {
                                assert(program.types@[k as int].methods@[m as int] == *meth);
                            }
                            return false;
                        }
                        let mut j: usize = 0;
                        while j < meth.params.len()
                            invariant
                                j <= meth.params@.len(),
                                k < program.types@.len(),
                                m < td.methods@.len(),
                                td == program.types@[k as int],
                                meth == td.methods@[m as int],
                                lookup(self.types@, td.name@) == Some(*ti),
                                lookup(ti.methods@, meth.name@) is Some,
                                forall|i: int| 0 <= i < j ==> (#[trigger] meth.params@[i]).ty is Some,
                            decreases meth.params@.len() - j,
                        {
                            if meth.params[j].ty.is_none() {
                                proof {
                                    assert(program.types@[k as int].methods@[m as int] == *meth);
                                    assert(meth.params@[j as int].ty is None);
                                }
                                return false;
                            }
                            j = j + 1;
                        }
                    }
                    m = m + 1;
                }
            }
            k = k + 1;
        }
        true
    }

    /// Whether class `name` is ready to be flattened within `fuel` steps.
    fn ready_exec(&self, name: &String, fuel: usize) -> (res: bool)
        ensures
            res == ready(self.types@, self.type_defs@, self.flattened_types@, name@, fuel as nat),
        decreases fuel,
    {
        if crate::assoc::assoc_has(&self.flattened_types, name.as_str()) {
            return true;
        }
        if fuel == 0 {
            return false;
        }
        if !crate::assoc::assoc_has(&self.type_defs, name.as_str()) {
            return false;
        }
        match assoc_get(&self.types, name.as_str()) {
            None => false,
            Some(info) => match &info.parent {
                None => true,
                Some(p) => self.ready_exec(p, fuel - 1),
            },
        }
    }

    /// Whether class `c` reaches `target` following at most `fuel` parent links.
    fn reaches_exec(&self, c: &String, target: &String, fuel: usize) -> (res: bool)
        ensures
            res == class_reaches(self.types@, c@, target@, fuel as nat),
        decreases fuel,
    {
        if fuel == 0 {
            return false;
        }
        match assoc_get(&self.types, c.as_str()) {
            None => false,
            Some(info) => match &info.parent {
                None => false,
                Some(p) => {
                    if crate::text::str_eq(p.as_str(), target.as_str()) {
                        true
                    } else {
                        self.reaches_exec(p, target, fuel - 1)
                    }
                },
            },
        }
    }

    /// Whether `flatten_all_types` can run: every class (and `Object`) is registered and
    /// defined with a parent chain that ends, no class is its own ancestor, and the type
    /// identifiers cannot run out.
    fn can_flatten(&self) -> (res: bool)
        ensures
            res == self.flatten_ready(),
    {
        proof {
            self.reveal_flatten_ready();
        }
        let n = self.types.len();
        let f = match n.checked_add(1) {
            Some(v) => v,
            None => {
                proof {
                    assert((n + 1) * (n + 1) >= n + 1) by (nonlinear_arith);
                }
                return false;
            },
        };
        let sq = match f.checked_mul(f) {
            Some(v) => v,
            None => {
                proof {
                    assert(f * f > usize::MAX);
                    assert(self.next_type_id + (n + 1) * (n + 1) > u32::MAX);
                }
                return false;
            },
        };
        if (u32::MAX as usize) < sq || (self.next_type_id as usize) > (u32::MAX as usize) - sq {
            return false;
        }
        let object = String::from_str("Object");
        proof {
            reveal_strlit("Object");
        }
        if !self.ready_exec(&object, f) {
            return false;
        }
        let mut k: usize = 0;
        while k < self.types.len()
            invariant
                k <= self.types@.len(),
                n == self.types@.len(),
                f == n + 1,
                forall|j: int| 0 <= j < k ==> ready(self.types@, self.type_defs@, self.flattened_types@, (#[trigger] self.types@[j]).0@, f as nat),
                forall|j: int| 0 <= j < k ==> !class_reaches(self.types@, (#[trigger] self.types@[j]).0@, self.types@[j].0@, f as nat),
            decreases self.types@.len() - k,
        {
            if !self.ready_exec(&self.types[k].0, f) {
                proof {
                    self.reveal_flatten_ready();
                    assert(!ready(self.types@, self.type_defs@, self.flattened_types@, self.types@[k as int].0@, f as nat));
                }
                return false;
            }
            if self.reaches_exec(&self.types[k].0, &self.types[k].0, f) {
                proof {
                    self.reveal_flatten_ready();
                    assert(!no_cycle(self.types@, f as nat));
                }
                return false;
            }
            k = k + 1;
        }
        proof {
            assert forall|x: Seq<char>| !#[trigger] class_reaches(self.types@, x, x, f as nat) by {
                if class_reaches(self.types@, x, x, f as nat) {
                    lemma_key_index(self.types@, x);
                    let i = crate::assoc::key_index(self.types@, x);
                    assert(i >= 0);
                    assert(self.types@[i].0@ == x);
                }
            }
        }
        true
    }
}

/// A program with no class, protocol or function: just its main expression.
pub open spec fn declaration_free(p: Program) -> bool {
    p.types@.len() == 0 && p.protocols@.len() == 0 && p.functions@.len() == 0
}

impl TypeChecker {
    /// A checker with no error recorded whose classes are only the built-in ones: `Object`
    /// is registered, every class has no parent and distinctly named attributes, and the
    /// classes can be flattened. `new` gives such a checker.
    pub open spec fn builtin_only(&self) -> bool {
        &&& self.errors_seq().len() == 0
        &&& lookup(self.types_seq(), "Object"@) is Some
        &&& crate::flatten::parentless_distinct(self.types_seq(), self.type_defs_seq())
        &&& self.flatten_ready()
    }

    /// Semantic analysis of a program: inference and checking of every declaration and of
    /// the main expression; then, when no error was found, every recorded type is resolved,
    /// the types are flattened, and a type that stayed a variable is reported. The later
    /// stages run only when the declarations are complete (every registered method has its
    /// types recorded; every class and its ancestors are defined, with no cycle); otherwise
    /// an error saying so is recorded and the errors are returned. The result is `Err`
    /// exactly when an error was recorded or a type stayed a variable, and an `Err` is never
    /// empty. On success the recorded types of the main
    /// expression, the function bodies, the attribute initializers and the method bodies
    /// are those their operators need and give, and every class is recorded with the
    /// resolution of its flattening over its parent's. For a program without declarations
    /// whose main expression is plain (see `plain_in`), checked from the built-in types
    /// alone, the result is `Ok` exactly when that expression's errors are none, and
    /// otherwise exactly those errors, in order.
    pub fn check(&mut self, program: &mut Program) -> (res: Result<(), Vec<CompilerError>>)
        requires
            old(self).wf(),
        ensures
            final(self).wf(),
            old(self).errors_seq().is_prefix_of(final(self).errors_seq()),
            res is Ok ==> final(self).errors_seq().len() == 0,
            res matches Err(v) ==> v@.len() > 0,
            res is Err <==> final(self).errors_seq().len() > 0 || crate::inferred::var_errors(
                final(program).types@,
                final(program).types@.len() as int,
            ).len() > 0,
            res matches Err(v) ==> (final(self).errors_seq().len() > 0 ==> v@ == final(self).errors_seq()),
            declaration_free(*old(program)) && old(self).builtin_only() && crate::visit::plain(old(self).scopes_seq(), *old(program).main_expr)
                && crate::visit::plain_errors(old(self).scopes_seq(), *old(program).main_expr).len() == 0 ==> res is Ok,
            declaration_free(*old(program)) && old(self).builtin_only() && crate::visit::plain(
                old(self).scopes_seq(),
                *old(program).main_expr,
            ) && crate::visit::plain_errors(old(self).scopes_seq(), *old(program).main_expr).len() > 0 ==> (res matches Err(
                v,
            ) && crate::inferred::error_list(v@) == crate::visit::plain_errors(
                old(self).scopes_seq(),
                *old(program).main_expr,
            )),
            res is Ok ==> crate::inferred::var_errors(final(program).types@, final(program).types@.len() as int).len() == 0,
            res is Ok ==> crate::typing::records_typed(*final(program).main_expr),
            res is Ok ==> forall|j: int|
                0 <= j < final(program).functions@.len() ==> crate::typing::records_typed(
                    *(#[trigger] final(program).functions@[j]).body,
                ),
            res is Ok ==> forall|j: int|
                0 <= j < final(program).types@.len() ==> crate::typing::typedef_records_typed(
                    #[trigger] final(program).types@[j],
                ),
            res is Ok ==> forall|k: int|
                0 <= k < final(self).types_seq().len() ==> lookup(
                    final(self).flattened_seq(),
                    (#[trigger] final(self).types_seq()[k]).0@,
                ) is Some,
            res is Ok ==> exists|mid: Seq<(String, crate::type_checker::FlattenedType)>|
                #![trigger crate::flatten::added_ok(final(self).unifier_spec(), final(self).types_seq(), final(self).type_defs_seq(), old(self).flattened_seq(), mid)]
                crate::flatten::added_ok(
                    final(self).unifier_spec(),
                    final(self).types_seq(),
                    final(self).type_defs_seq(),
                    old(self).flattened_seq(),
                    mid,
                ) && mid.len() == final(self).flattened_seq().len() && forall|j: int|
                    0 <= j < mid.len() ==> (#[trigger] final(self).flattened_seq()[j]).0 == mid[j].0
                        && crate::flatten::flat_resolved(final(self).unifier_spec(), mid[j].1, final(self).flattened_seq()[j].1),
    {
        proof {
            old(self).reveal_views();
        }
        let ghost s0 = *self;
        self.visit_program(program);
        let ghost s1 = *self;
        proof {
            if declaration_free(*old(program)) && s0.builtin_only() && crate::visit::plain(old(self).scopes_seq(), *old(program).main_expr)
                && crate::visit::plain_errors(old(self).scopes_seq(), *old(program).main_expr).len() == 0 {
                s0.reveal_views();
                assert(s0.errors@.len() == 0);
                assert(crate::inferred::error_list(s1.errors@).len() == s1.errors@.len());
                assert(s1.errors@.len() == 0);
            }
        }
        if self.errors.len() > 0 {
            proof {
                self.reveal_views();
            }
            return Err(clone_errors(&self.errors));
        }
        let ghost s1 = *self;
        if !self.signatures_ready(program) {
            self.report(String::from_str("Incomplete declarations: a method has no recorded signature"), program.span);
            proof {
                self.reveal_views();
            }
            return Err(clone_errors(&self.errors));
        }
        proof {
            self.reveal_views();
        }
        let ghost main1 = *program.main_expr;
        let ghost funcs1 = program.functions@;
        let ghost types1 = program.types@;
        let ghost u1 = self.unifier;
        proof {
            assert(crate::visit::well_typed(main1, u1));
        }
        self.resolve_ast(program);
        proof {
            self.reveal_views();
            self.reveal_wf();
            crate::typing::lemma_resolved_records_typed(main1, *program.main_expr, u1);
            assert forall|j: int| 0 <= j < program.functions@.len() implies crate::typing::records_typed(
                *(#[trigger] program.functions@[j]).body,
            ) by {
                assert(crate::resolve::function_resolved(u1, funcs1[j], program.functions@[j]));
                crate::typing::lemma_resolved_records_typed(*funcs1[j].body, *program.functions@[j].body, u1);
            }
            assert forall|j: int| 0 <= j < program.types@.len() implies crate::typing::typedef_records_typed(
                #[trigger] program.types@[j],
            ) by {
                let a = types1[j];
                let b = program.types@[j];
                assert(crate::resolve::typedef_resolved(u1, a, b));
                assert(crate::visit_decl::typedef_well_typed(a, u1));
                assert forall|i: int| 0 <= i < b.attributes@.len() implies crate::typing::records_typed(
                    *(#[trigger] b.attributes@[i]).init_expr,
                ) by {
                    assert(crate::resolve::attribute_resolved(u1, a.attributes@[i], b.attributes@[i]));
                    crate::typing::lemma_resolved_records_typed(*a.attributes@[i].init_expr, *b.attributes@[i].init_expr, u1);
                }
                assert forall|i: int| 0 <= i < b.methods@.len() implies crate::typing::records_typed(
                    *(#[trigger] b.methods@[i]).body,
                ) by {
                    assert(crate::resolve::method_resolved(u1, a.methods@[i], b.methods@[i]));
                    crate::typing::lemma_resolved_records_typed(*a.methods@[i].body, *b.methods@[i].body, u1);
                }
            }
        }
        proof {
            if declaration_free(*old(program)) && s0.builtin_only() && crate::visit::plain(old(self).scopes_seq(), *old(program).main_expr)
                && crate::visit::plain_errors(old(self).scopes_seq(), *old(program).main_expr).len() == 0 {
                s0.reveal_views();
                s1.reveal_views();
                self.reveal_views();
                s0.reveal_flatten_ready();
                self.reveal_flatten_ready();
                assert(s1.types == s0.types);
                assert(self.types@ == s0.types@);
                assert(self.type_defs@ == s0.type_defs@);
                assert(self.next_type_id == s0.next_type_id);
                assert(self.flattened_types@ == s0.flattened_types@);
                assert(self.flatten_ready());
                assert(crate::flatten::parentless_distinct(self.types_seq(), self.type_defs_seq()));
            }
        }
        if !self.can_flatten() {
            self.report(String::from_str("Incomplete declarations: a class hierarchy is undefined or cyclic"), program.span);
            proof {
                self.reveal_views();
            }
            return Err(clone_errors(&self.errors));
        }
        self.flatten_all_types();
        let ghost mid = self.flattened_seq();
        proof {
            self.reveal_views();
        }
        if self.errors.len() > 0 {
            return Err(clone_errors(&self.errors));
        }
        self.resolve_flattened_types();
        proof {
            self.reveal_views();
            assert(crate::flatten::added_ok(
                self.unifier_spec(),
                self.types_seq(),
                self.type_defs_seq(),
                old(self).flattened_seq(),
                mid,
            ));
            assert forall|k: int| 0 <= k < self.types_seq().len() implies lookup(
                self.flattened_seq(),
                (#[trigger] self.types_seq()[k]).0@,
            ) is Some by {
                crate::assoc::lemma_same_keys(mid, self.flattened_seq(), self.types_seq()[k].0@);
            }
        }
        match self.verify_no_type_vars(program) {
            Ok(()) => {
                proof {
                    crate::visit::lemma_prefix_refl(self.errors@);
                    assert(self.errors@.len() == 0);
                    assert(old(self).errors@.len() == 0);
                    assert(old(self).errors@ =~= self.errors@);
                }
                Ok(())
            },
            Err(errors) => {
                proof {
                    assert(crate::inferred::error_list(errors@).len() == errors@.len());
                }
                Err(errors)
            },
        }
    }
}

} // verus!
