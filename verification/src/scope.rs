use vstd::prelude::*;
use crate::types::{HulkType, TypeView};
use crate::span::Span;
use crate::error::CompilerError;
use crate::ast::Expr;
use crate::assoc::{lookup, assoc_get, assoc_insert, keys_unique, lemma_key_index};
use crate::type_checker::TypeChecker;

verus! {

/// A variable looked up from the innermost scope outwards.
pub open spec fn scope_lookup(scopes: Seq<Vec<(String, HulkType)>>, name: Seq<char>) -> Option<HulkType>
    decreases scopes.len(),
{
    if scopes.len() == 0 {
        None
    } else {
        match lookup(scopes.last()@, name) {
            Some(t) => Some(t),
            None => scope_lookup(scopes.drop_last(), name),
        }
    }
}

impl TypeChecker {
    /// The tables of declarations and the current context are the same in both checkers.
    pub(crate) open spec fn same_tables(&self, other: &TypeChecker) -> bool {
        &&& self.types == other.types
        &&& self.protocols == other.protocols
        &&& self.functions == other.functions
        &&& self.type_defs == other.type_defs
        &&& self.flattened_types == other.flattened_types
        &&& self.param_vars == other.param_vars
        &&& self.return_var == other.return_var
        &&& self.current_type == other.current_type
        &&& self.current_method == other.current_method
        &&& self.current_method_params == other.current_method_params
        &&& self.self_type == other.self_type
        &&& self.next_type_id == other.next_type_id
    }

    /// What checking an expression may change: the unifier (only refined), the errors
    /// (only appended) and the recorded types; the scopes come back as they were.
    pub(crate) open spec fn expr_step(&self, after: &TypeChecker) -> bool {
        &&& after.wf()
        &&& self.errors@.is_prefix_of(after.errors@)
        &&& self.same_tables(after)
        &&& after.scopes@ == self.scopes@
        &&& self.unifier.refined_by(after.unifier)
    }

    /// Records a type error.
    pub(crate) fn add_type_error(&mut self, msg: String, span: Span)
        requires
            old(self).wf(),
        ensures
            final(self).wf(),
            final(self).errors@ == old(self).errors@.push(CompilerError::TypeError { msg, span }),
            final(self).same_tables(old(self)),
            final(self).scopes == old(self).scopes,
            final(self).unifier == old(self).unifier,
    {
        proof {
            old(self).reveal_wf();
        }
        self.errors.push(CompilerError::TypeError { msg, span });
        proof {
            self.reveal_wf();
        }
    }

    /// Opens a new (innermost) scope.
    pub(crate) fn enter_scope(&mut self)
        requires
            old(self).wf(),
        ensures
            final(self).wf(),
            final(self).scopes@.len() == old(self).scopes@.len() + 1,
            final(self).scopes@.drop_last() == old(self).scopes@,
            final(self).scopes@.last()@.len() == 0,
            final(self).same_tables(old(self)),
            final(self).errors == old(self).errors,
            final(self).unifier == old(self).unifier,
    {
        proof {
            old(self).reveal_wf();
        }
        self.scopes.push(Vec::new());
        proof {
            assert(self.scopes@.drop_last() =~= old(self).scopes@);
            self.reveal_wf();
        }
    }

    /// Closes the innermost scope, unless it is the global one.
    pub(crate) fn exit_scope(&mut self)
        requires
            old(self).wf(),
        ensures
            final(self).wf(),
            old(self).scopes@.len() > 1 ==> final(self).scopes@ == old(self).scopes@.drop_last(),
            old(self).scopes@.len() <= 1 ==> final(self).scopes@ == old(self).scopes@,
            final(self).same_tables(old(self)),
            final(self).errors == old(self).errors,
            final(self).unifier == old(self).unifier,
    {
        proof {
            old(self).reveal_wf();
        }
        if self.scopes.len() > 1 {
            let _ = self.scopes.pop();
        }
        proof {
            self.reveal_wf();
        }
    }

    /// Declares a variable in the innermost scope.
    pub(crate) fn declare_var(&mut self, name: String, ty: HulkType)
        requires
            old(self).wf(),
        ensures
            final(self).wf(),
            final(self).scopes@.len() == old(self).scopes@.len(),
            final(self).scopes@.drop_last() == old(self).scopes@.drop_last(),
            lookup(final(self).scopes@.last()@, name@) == Some(ty),
            forall|q: Seq<char>| q != name@ ==> #[trigger] lookup(final(self).scopes@.last()@, q) == lookup(
                old(self).scopes@.last()@,
                q,
            ),
            final(self).same_tables(old(self)),
            final(self).errors == old(self).errors,
            final(self).unifier == old(self).unifier,
    {
        proof {
            old(self).reveal_wf();
        }
        let last = self.scopes.len() - 1;
        assoc_insert(&mut self.scopes[last], name, ty);
        proof {
            assert(self.scopes@.drop_last() =~= old(self).scopes@.drop_last());
            self.reveal_wf();
        }
    }

    /// The type of a variable, from the innermost scope outwards.
    pub(crate) fn lookup_var(&self, name: &str) -> (res: Option<HulkType>)
        ensures
            res == scope_lookup(self.scopes@, name@),
    {
        let mut i = self.scopes.len();
        proof {
            assert(self.scopes@.subrange(0, i as int) =~= self.scopes@);
        }
        while i > 0
            invariant
                i <= self.scopes@.len(),
                scope_lookup(self.scopes@, name@) == scope_lookup(self.scopes@.subrange(0, i as int), name@),
            decreases i,
        {
            let ghost prefix = self.scopes@.subrange(0, i as int);
            proof {
                assert(prefix.last() == self.scopes@[i - 1]);
                assert(prefix.drop_last() =~= self.scopes@.subrange(0, i - 1));
            }
            match assoc_get(&self.scopes[i - 1], name) {
                Some(t) => {
                    return Some(t.clone());
                },
                None => {},
            }
            i = i - 1;
        }
        None
    }

    /// A fresh type variable (`Error` once the variable counter is exhausted).
    pub(crate) fn fresh_var(&mut self) -> (res: HulkType)
        requires
            old(self).wf(),
        ensures
            final(self).wf(),
            final(self).same_tables(old(self)),
            final(self).errors == old(self).errors,
            final(self).scopes == old(self).scopes,
            res is Var || res is Error,
            forall|t: TypeView| #[trigger] final(self).unifier.resolved(t) == old(self).unifier.resolved(t),
            final(self).unifier.constraint_map() == old(self).unifier.constraint_map(),
            old(self).unifier.refined_by(final(self).unifier),
    {
        proof {
            old(self).reveal_wf();
            old(self).unifier.lemma_refines_refl();
        }
        if self.unifier.can_make_var() {
            let v = self.unifier.new_var();
            proof {
                self.reveal_wf();
                old(self).unifier.lemma_refines_same(self.unifier);
            }
            v
        } else {
            HulkType::Error
        }
    }

    /// Whether an expression can be assigned to.
    pub(crate) fn is_assignable(&mut self, expr: &Expr) -> (res: bool)
        ensures
            res == (expr is Variable || expr is AttributeAccess),
            *final(self) == *old(self),
    {
        match expr {
            Expr::Variable(_) => true,
            Expr::AttributeAccess(_) => true,
            _ => false,
        }
    }
}

} // verus!
