use vstd::prelude::*;
use crate::types::{HulkType, TypeView};
use crate::assoc::{lookup, key_index, keys_unique, assoc_get, assoc_has, assoc_insert, lemma_key_index};
use crate::inference::Unifier;
use crate::error::CompilerError;
use crate::ast::{TypeDef, Method, Attribute, Expr};

verus! {

/// What is known of a function: its arity and, once prepared, its type variables.
pub struct FunctionInfo {
    pub params_len: usize,
    pub param_types: Option<Vec<HulkType>>,
    pub return_type: Option<HulkType>,
    pub is_generic: bool,
}

/// The recorded parameter types of each function, and the type variables prepared for
/// its parameters, are as many as its parameters; variables are prepared only for
/// registered functions.
pub open spec fn signatures_fit(functions: Seq<(String, FunctionInfo)>, param_vars: Seq<(String, Vec<HulkType>)>) -> bool {
    &&& forall|k: int|
        0 <= k < functions.len() ==> ((#[trigger] functions[k]).1.param_types matches Some(v) ==> v@.len()
            == functions[k].1.params_len)
    &&& forall|n: Seq<char>|
        #[trigger] lookup(param_vars, n) matches Some(pv) ==> (lookup(functions, n) matches Some(fi) && pv@.len()
            == fi.params_len)
}

/// What `signatures_fit` says of the entry that a lookup finds.
pub(crate) proof fn lemma_fit_lookup(functions: Seq<(String, FunctionInfo)>, param_vars: Seq<(String, Vec<HulkType>)>, n: Seq<char>)
    requires
        signatures_fit(functions, param_vars),
    ensures
        lookup(functions, n) matches Some(fi) ==> (fi.param_types matches Some(v) ==> v@.len() == fi.params_len),
        lookup(param_vars, n) matches Some(pv) ==> (lookup(functions, n) matches Some(fi) && pv@.len() == fi.params_len),
{
    lemma_key_index(functions, n);
    if lookup(functions, n) is Some {
        let i = key_index(functions, n);
        assert(functions[i].1 == lookup(functions, n)->Some_0);
    }
}

/// The signature of a method.
pub struct MethodInfo {
    pub param_types: Vec<HulkType>,
    pub return_type: HulkType,
}

/// What is known of a class.
pub struct TypeInfo {
    /// Name of the parent.
    pub parent: Option<String>,
    pub param_vars: Vec<HulkType>,
    /// Name -> (inferred) type.
    pub attributes: Vec<(String, HulkType)>,
    pub attr_order: Vec<String>,
    /// Name -> signature.
    pub methods: Vec<(String, MethodInfo)>,
    pub own_attributes: Vec<String>,
}

/// What is known of a protocol.
pub struct ProtocolInfo {
    /// Method signatures.
    pub methods: Vec<(String, MethodInfo)>,
    /// Parent protocol.
    pub extends: Option<String>,
}

/// A method of a flattened type, with its slot in the dispatch table.
pub struct FlattenedMethod {
    pub method: Method,
    pub vtable_index: usize,
    pub defining_type: String,
}

/// A type with everything it inherits laid out.
pub struct FlattenedType {
    pub type_id: u32,
    /// Attributes in order (parent first).
    pub attributes: Vec<Attribute>,
    /// Effective methods, with their dispatch-table slots.
    pub methods: Vec<FlattenedMethod>,
    /// Name of the direct parent.
    pub parent_name: Option<String>,
    /// Effective parameters (name, type).
    pub params: Vec<(String, HulkType)>,
    /// Arguments for the parent's constructor, when the type has parameters of its own.
    pub parent_init_args: Option<Vec<Box<Expr>>>,
}

/// A name, if any, as characters.
pub open spec fn opt_name(o: Option<String>) -> Option<Seq<char>> {
    match o {
        Some(s) => Some(s@),
        None => None,
    }
}

/// The parent of a registered class.
pub open spec fn class_parent(types: Seq<(String, TypeInfo)>, c: Seq<char>) -> Option<Seq<char>> {
    match lookup(types, c) {
        Some(info) => opt_name(info.parent),
        None => None,
    }
}

/// `target` is met by following at most `fuel` parent links from class `c`.
pub open spec fn class_reaches(types: Seq<(String, TypeInfo)>, c: Seq<char>, target: Seq<char>, fuel: nat) -> bool
    decreases fuel,
{
    fuel > 0 && match class_parent(types, c) {
        Some(p) => p == target || class_reaches(types, p, target, (fuel - 1) as nat),
        None => false,
    }
}

/// The parent of a registered protocol.
pub open spec fn proto_parent(protos: Seq<(String, ProtocolInfo)>, p: Seq<char>) -> Option<Seq<char>> {
    match lookup(protos, p) {
        Some(info) => opt_name(info.extends),
        None => None,
    }
}

/// `target` is met by following at most `fuel` `extends` links from protocol `p`.
pub open spec fn proto_reaches(protos: Seq<(String, ProtocolInfo)>, p: Seq<char>, target: Seq<char>, fuel: nat) -> bool
    decreases fuel,
{
    fuel > 0 && match proto_parent(protos, p) {
        Some(q) => q == target || proto_reaches(protos, q, target, (fuel - 1) as nat),
        None => false,
    }
}

/// A method found among the ancestors, starting at `parent`, nearest first.
pub open spec fn inherited_method(
    types: Seq<(String, TypeInfo)>,
    parent: Option<Seq<char>>,
    name: Seq<char>,
    fuel: nat,
) -> Option<MethodInfo>
    decreases fuel,
{
    if fuel == 0 {
        None
    } else {
        match parent {
            None => None,
            Some(pn) => match lookup(types, pn) {
                None => None,
                Some(pi) => match lookup(pi.methods@, name) {
                    Some(m) => Some(m),
                    None => inherited_method(types, opt_name(pi.parent), name, (fuel - 1) as nat),
                },
            },
        }
    }
}

/// A class's own method of that name, or else the nearest inherited one.
pub open spec fn class_method(types: Seq<(String, TypeInfo)>, ti: TypeInfo, name: Seq<char>) -> Option<MethodInfo> {
    match lookup(ti.methods@, name) {
        Some(m) => Some(m),
        None => inherited_method(types, opt_name(ti.parent), name, types.len() as nat),
    }
}

/// Subtyping of the language: `Error` conforms to nothing; type variables conform both
/// ways; everything conforms to `Object`; primitive types to themselves; a class to its
/// ancestors, a protocol to the protocols it extends, and a class to a protocol whose every
/// method it has with contravariant parameters and a covariant result. `fuel` bounds the
/// nesting of class-to-protocol checks.
pub open spec fn conforms(
    types: Seq<(String, TypeInfo)>,
    protos: Seq<(String, ProtocolInfo)>,
    sub: TypeView,
    sup: TypeView,
    fuel: nat,
) -> bool
    decreases fuel, 0int,
{
    if sub is Error || sup is Error {
        false
    } else if sub is Var || sup is Var {
        true
    } else if sup is Object {
        true
    } else {
        match (sub, sup) {
            (TypeView::Number, TypeView::Number) => true,
            (TypeView::String, TypeView::String) => true,
            (TypeView::Boolean, TypeView::Boolean) => true,
            (TypeView::Class(a), TypeView::Class(b)) => a == b || class_reaches(types, a, b, types.len() as nat),
            (TypeView::Protocol(a), TypeView::Protocol(b)) => a == b || proto_reaches(
                protos,
                a,
                b,
                protos.len() as nat,
            ),
            (TypeView::Class(a), TypeView::Protocol(b)) => fuel > 0 && conforms_protocol(
                types,
                protos,
                a,
                b,
                (fuel - 1) as nat,
            ),
            _ => false,
        }
    }
}

/// Class `c` has every method of protocol `p`, each with parameters that the protocol's
/// parameters conform to and a result that conforms to the protocol's result.
pub open spec fn conforms_protocol(
    types: Seq<(String, TypeInfo)>,
    protos: Seq<(String, ProtocolInfo)>,
    c: Seq<char>,
    p: Seq<char>,
    fuel: nat,
) -> bool
    decreases fuel, 2int,
{
    match (lookup(protos, p), lookup(types, c)) {
        (Some(pi), Some(ti)) => forall|k: int|
            0 <= k < pi.methods@.len() ==> method_conforms(
                types,
                protos,
                ti,
                pi.methods@[k].0@,
                pi.methods@[k].1,
                fuel,
            ),
        _ => false,
    }
}

/// The class described by `ti` has a method `name` that fits the protocol's signature `pm`.
pub open spec fn method_conforms(
    types: Seq<(String, TypeInfo)>,
    protos: Seq<(String, ProtocolInfo)>,
    ti: TypeInfo,
    name: Seq<char>,
    pm: MethodInfo,
    fuel: nat,
) -> bool
    decreases fuel, 1int,
{
    match class_method(types, ti, name) {
        Some(cm) => cm.param_types@.len() == pm.param_types@.len() && (forall|j: int|
            0 <= j < cm.param_types@.len() ==> conforms(
                types,
                protos,
                pm.param_types@[j]@,
                cm.param_types@[j]@,
                fuel,
            )) && conforms(types, protos, cm.return_type@, pm.return_type@, fuel),
        None => false,
    }
}

/// The nesting bound of class-to-protocol checks: one more than the number of (class,
/// protocol) pairs, as far as `usize` holds it.
pub open spec fn depth_of(nt: nat, np: nat) -> nat {
    if nt * np + 1 <= usize::MAX {
        nt * np + 1
    } else {
        usize::MAX as nat
    }
}

/// Semantic analysis: inference and checking of types, protocols and the inheritance
/// hierarchy.
pub struct TypeChecker {
    pub(crate) errors: Vec<CompilerError>,
    pub(crate) scopes: Vec<Vec<(String, HulkType)>>,
    pub(crate) functions: Vec<(String, FunctionInfo)>,
    pub(crate) unifier: Unifier,
    pub(crate) param_vars: Vec<(String, Vec<HulkType>)>,
    pub(crate) return_var: Vec<(String, HulkType)>,
    pub(crate) types: Vec<(String, TypeInfo)>,
    pub(crate) current_type: Option<String>,
    pub(crate) self_type: Option<HulkType>,
    pub(crate) flattened_types: Vec<(String, FlattenedType)>,
    pub(crate) type_defs: Vec<(String, TypeDef)>,
    pub(crate) current_method: Option<String>,
    pub(crate) protocols: Vec<(String, ProtocolInfo)>,
    pub(crate) current_method_params: Option<Vec<HulkType>>,
    pub(crate) next_type_id: u32,
}

impl TypeChecker {
    /// The registered classes.
    pub closed spec fn types_seq(&self) -> Seq<(String, TypeInfo)> {
        self.types@
    }

    /// The registered protocols.
    pub closed spec fn protos_seq(&self) -> Seq<(String, ProtocolInfo)> {
        self.protocols@
    }

    /// The errors found so far.
    pub closed spec fn errors_seq(&self) -> Seq<CompilerError> {
        self.errors@
    }

    /// The identifier the next flattened type gets.
    pub closed spec fn type_id_counter(&self) -> u32 {
        self.next_type_id
    }

    /// The variable scopes, innermost last.
    pub closed spec fn scopes_seq(&self) -> Seq<Vec<(String, HulkType)>> {
        self.scopes@
    }

    /// The unifier of type variables.
    pub closed spec fn unifier_spec(&self) -> Unifier {
        self.unifier
    }

    /// The recorded type definitions.
    pub closed spec fn type_defs_seq(&self) -> Seq<(String, TypeDef)> {
        self.type_defs@
    }

    /// The flattened types.
    pub closed spec fn flattened_seq(&self) -> Seq<(String, FlattenedType)> {
        self.flattened_types@
    }

    /// The nesting bound of conformance checks.
    pub open spec fn depth(&self) -> nat {
        depth_of(self.types_seq().len(), self.protos_seq().len())
    }

    /// Conformance in the current hierarchy.
    pub open spec fn conforms_spec(&self, sub: TypeView, sup: TypeView) -> bool {
        conforms(self.types_seq(), self.protos_seq(), sub, sup, self.depth())
    }

    /// A class conforms to its parent, and to every ancestor up the chain (within as many
    /// links as there are classes).
    pub proof fn lemma_class_parent_conforms(&self, c: Seq<char>, q: Seq<char>)
        requires
            class_parent(self.types_seq(), c) == Some(q),
        ensures
            self.conforms_spec(TypeView::Class(c), TypeView::Class(q)),
            forall|r: Seq<char>|
                class_reaches(self.types_seq(), q, r, (self.types_seq().len() - 1) as nat) ==> #[trigger] self.conforms_spec(
                    TypeView::Class(c),
                    TypeView::Class(r),
                ),
    {
        crate::assoc::lemma_key_index(self.types_seq(), c);
        let n = self.types_seq().len();
        assert(n >= 1);
        assert(class_reaches(self.types_seq(), c, q, n));
        assert forall|r: Seq<char>|
            class_reaches(self.types_seq(), q, r, (n - 1) as nat) implies #[trigger] self.conforms_spec(
                TypeView::Class(c),
                TypeView::Class(r),
            ) by {
            assert(class_reaches(self.types_seq(), c, r, n));
        }
    }

    /// Two different types among `Number`, `String` and `Boolean` never conform to one
    /// another.
    pub proof fn lemma_base_types_distinct(&self, t: TypeView, u: TypeView)
        requires
            t is Number || t is String || t is Boolean,
            u is Number || u is String || u is Boolean,
            t != u,
        ensures
            !self.conforms_spec(t, u),
    {
    }

    /// A protocol conforms to the protocol it extends, and to every protocol that one
    /// extends in turn, however far up the chain (within as many links as there are
    /// protocols).
    pub proof fn lemma_protocol_extends_conforms(&self, p: Seq<char>, q: Seq<char>)
        requires
            proto_parent(self.protos_seq(), p) == Some(q),
        ensures
            self.conforms_spec(TypeView::Protocol(p), TypeView::Protocol(q)),
            forall|r: Seq<char>|
                proto_reaches(self.protos_seq(), q, r, (self.protos_seq().len() - 1) as nat) ==> #[trigger] self.conforms_spec(
                    TypeView::Protocol(p),
                    TypeView::Protocol(r),
                ),
    {
        crate::assoc::lemma_key_index(self.protos_seq(), p);
        assert(self.protos_seq().len() >= 1);
        let n = self.protos_seq().len();
        assert(proto_reaches(self.protos_seq(), p, q, n));
        assert forall|r: Seq<char>|
            proto_reaches(self.protos_seq(), q, r, (n - 1) as nat) implies #[trigger] self.conforms_spec(
                TypeView::Protocol(p),
                TypeView::Protocol(r),
            ) by {
            assert(proto_reaches(self.protos_seq(), p, r, n));
        }
    }

    fn conform_depth(&self) -> (res: usize)
        ensures
            res as nat == self.depth(),
    {
        let nt = self.types.len();
        let np = self.protocols.len();
        match nt.checked_mul(np) {
            Some(prod) => match prod.checked_add(1) {
                Some(d) => d,
                None => usize::MAX,
            },
            None => {
                proof {
                    assert(nt * np + 1 > usize::MAX);
                }
                usize::MAX
            },
        }
    }

    fn class_reaches_exec(&self, c: &String, target: &String) -> (res: bool)
        ensures
            res == class_reaches(self.types@, c@, target@, self.types@.len() as nat),
    {
        let n = self.types.len();
        let mut current = c.clone();
        let mut steps: usize = 0;
        while steps < n
            invariant
                steps <= n,
                n == self.types@.len(),
                class_reaches(self.types@, c@, target@, n as nat) == class_reaches(
                    self.types@,
                    current@,
                    target@,
                    (n - steps) as nat,
                ),
            decreases n - steps,
        {
            match assoc_get(&self.types, current.as_str()) {
                Some(info) => match &info.parent {
                    Some(p) => {
                        if crate::text::str_eq(p.as_str(), target.as_str()) {
                            return true;
                        }
                        current = p.clone();
                    },
                    None => {
                        return false;
                    },
                },
                None => {
                    return false;
                },
            }
            steps = steps + 1;
        }
        false
    }

    fn proto_reaches_exec(&self, p: &String, target: &String) -> (res: bool)
        ensures
            res == proto_reaches(self.protocols@, p@, target@, self.protocols@.len() as nat),
    {
        let n = self.protocols.len();
        let mut current = p.clone();
        let mut steps: usize = 0;
        while steps < n
            invariant
                steps <= n,
                n == self.protocols@.len(),
                proto_reaches(self.protocols@, p@, target@, n as nat) == proto_reaches(
                    self.protocols@,
                    current@,
                    target@,
                    (n - steps) as nat,
                ),
            decreases n - steps,
        {
            match assoc_get(&self.protocols, current.as_str()) {
                Some(info) => match &info.extends {
                    Some(q) => {
                        if crate::text::str_eq(q.as_str(), target.as_str()) {
                            return true;
                        }
                        current = q.clone();
                    },
                    None => {
                        return false;
                    },
                },
                None => {
                    return false;
                },
            }
            steps = steps + 1;
        }
        false
    }

    fn class_method_exec<'a>(&'a self, ti: &'a TypeInfo, name: &str) -> (res: Option<&'a MethodInfo>)
        ensures
            match res {
                Some(m) => class_method(self.types@, *ti, name@) == Some(*m),
                None => class_method(self.types@, *ti, name@) is None,
            },
    {
        match assoc_get(&ti.methods, name) {
            Some(m) => {
                return Some(m);
            },
            None => {},
        }
        let n = self.types.len();
        let mut parent: Option<&String> = ti.parent.as_ref();
        let mut steps: usize = 0;
        while steps < n
            invariant
                steps <= n,
                n == self.types@.len(),
                lookup(ti.methods@, name@) is None,
                inherited_method(self.types@, opt_name(ti.parent), name@, n as nat) == inherited_method(
                    self.types@,
                    match parent {
                        Some(p) => Some(p@),
                        None => None,
                    },
                    name@,
                    (n - steps) as nat,
                ),
            decreases n - steps,
        {
            match parent {
                None => {
                    return None;
                },
                Some(pn) => match assoc_get(&self.types, pn.as_str()) {
                    None => {
                        return None;
                    },
                    Some(pi) => match assoc_get(&pi.methods, name) {
                        Some(m) => {
                            return Some(m);
                        },
                        None => {
                            parent = pi.parent.as_ref();
                        },
                    },
                },
            }
            steps = steps + 1;
        }
        None
    }

    fn conforms_fuel(&self, sub: &HulkType, sup: &HulkType, fuel: usize) -> (res: bool)
        ensures
            res == conforms(self.types@, self.protocols@, sub@, sup@, fuel as nat),
        decreases fuel, 0int,
    {
        if let HulkType::Error = sub {
            return false;
        }
        if let HulkType::Error = sup {
            return false;
        }
        if let HulkType::Var(_) = sub {
            return true;
        }
        if let HulkType::Var(_) = sup {
            return true;
        }
        if let HulkType::Object = sup {
            return true;
        }
        match (sub, sup) {
            (HulkType::Number, HulkType::Number) => true,
            (HulkType::String, HulkType::String) => true,
            (HulkType::Boolean, HulkType::Boolean) => true,
            (HulkType::Class(a), HulkType::Class(b)) => {
                if crate::text::str_eq(a.as_str(), b.as_str()) {
                    return true;
                }
                self.class_reaches_exec(a, b)
            },
            (HulkType::Protocol(a), HulkType::Protocol(b)) => {
                if crate::text::str_eq(a.as_str(), b.as_str()) {
                    return true;
                }
                self.proto_reaches_exec(a, b)
            },
            (HulkType::Class(a), HulkType::Protocol(b)) => {
                if fuel == 0 {
                    return false;
                }
                self.conforms_protocol_fuel(a.as_str(), b.as_str(), fuel - 1)
            },
            _ => false,
        }
    }

    fn conforms_protocol_fuel(&self, c: &str, p: &str, fuel: usize) -> (res: bool)
        ensures
            res == conforms_protocol(self.types@, self.protocols@, c@, p@, fuel as nat),
        decreases fuel, 2int,
    {
        let proto = match assoc_get(&self.protocols, p) {
            Some(pi) => pi,
            None => {
                return false;
            },
        };
        let type_info = match assoc_get(&self.types, c) {
            Some(ti) => ti,
            None => {
                return false;
            },
        };
        let mut k: usize = 0;
        while k < proto.methods.len()
            invariant
                k <= proto.methods@.len(),
                lookup(self.protocols@, p@) == Some(*proto),
                lookup(self.types@, c@) == Some(*type_info),
                forall|j: int|
                    0 <= j < k ==> method_conforms(
                        self.types@,
                        self.protocols@,
                        *type_info,
                        proto.methods@[j].0@,
                        proto.methods@[j].1,
                        fuel as nat,
                    ),
            decreases proto.methods@.len() - k,
        {
            let entry = &proto.methods[k];
            if !self.method_conforms_fuel(type_info, entry.0.as_str(), &entry.1, fuel) {
                return false;
            }
            k = k + 1;
        }
        true
    }

    fn method_conforms_fuel(&self, ti: &TypeInfo, name: &str, pm: &MethodInfo, fuel: usize) -> (res: bool)
        ensures
            res == method_conforms(self.types@, self.protocols@, *ti, name@, *pm, fuel as nat),
        decreases fuel, 1int,
    {
        let cm = match self.class_method_exec(ti, name) {
            Some(m) => m,
            None => {
                return false;
            },
        };
        if cm.param_types.len() != pm.param_types.len() {
            return false;
        }
        let mut j: usize = 0;
        while j < cm.param_types.len()
            invariant
                j <= cm.param_types@.len(),
                cm.param_types@.len() == pm.param_types@.len(),
                class_method(self.types@, *ti, name@) == Some(*cm),
                forall|i: int|
                    0 <= i < j ==> conforms(
                        self.types@,
                        self.protocols@,
                        pm.param_types@[i]@,
                        cm.param_types@[i]@,
                        fuel as nat,
                    ),
            decreases cm.param_types@.len() - j,
        {
            if !self.conforms_fuel(&pm.param_types[j], &cm.param_types[j], fuel) {
                return false;
            }
            j = j + 1;
        }
        self.conforms_fuel(&cm.return_type, &pm.return_type, fuel)
    }

    /// Whether class `class_name` implements protocol `protocol_name`.
    pub(crate) fn type_conforms_to_protocol(&self, class_name: &str, protocol_name: &str) -> (res: bool)
        ensures
            res == conforms_protocol(self.types@, self.protocols@, class_name@, protocol_name@, self.depth()),
    {
        let d = self.conform_depth();
        self.conforms_protocol_fuel(class_name, protocol_name, d)
    }

    /// Whether `sub` conforms to `sup` in the language's hierarchy of types.
    pub fn conforms_to(&self, sub: &HulkType, sup: &HulkType) -> (res: bool)
        ensures
            res == self.conforms_spec(sub@, sup@),
    {
        let d = self.conform_depth();
        self.conforms_fuel(sub, sup, d)
    }

    /// Subtyping without protocols: a type variable fits anything, everything fits
    /// `Object`, a class fits itself and its ancestors, any other type only itself.
    pub open spec fn subtype_spec(&self, sub: TypeView, sup: TypeView) -> bool {
        match (sub, sup) {
            (TypeView::Var(_), _) => true,
            (_, TypeView::Var(_)) => true,
            (_, TypeView::Object) => true,
            (TypeView::Class(a), TypeView::Class(b)) => a == b || class_reaches(
                self.types_seq(),
                a,
                b,
                self.types_seq().len(),
            ),
            (a, b) => a == b,
        }
    }

    /// Whether `sub` is a subtype of `sup` (see `subtype_spec`).
    #[allow(dead_code)]
    pub(crate) fn is_subtype(&self, sub: &HulkType, sup: &HulkType) -> (res: bool)
        ensures
            res == self.subtype_spec(sub@, sup@),
    {
        match (sub, sup) {
            (HulkType::Var(_), _) => true,
            (_, HulkType::Var(_)) => true,
            (_, HulkType::Object) => true,
            (HulkType::Class(a), HulkType::Class(b)) => {
                if crate::text::str_eq(a.as_str(), b.as_str()) {
                    true
                } else {
                    self.class_reaches_exec(a, b)
                }
            },
            _ => sub.same(sup),
        }
    }

    /// The recorded definition of the type called `name`, if any.
    pub fn get_type_def(&self, name: &str) -> (res: Option<&TypeDef>)
        ensures
            match res {
                Some(d) => lookup(self.type_defs_seq(), name@) == Some(*d),
                None => lookup(self.type_defs_seq(), name@) is None,
            },
    {
        assoc_get(&self.type_defs, name)
    }

    /// The flattened types, keyed by type name.
    pub fn get_flattened_types(&self) -> (res: &Vec<(String, FlattenedType)>)
        ensures
            res@ == self.flattened_seq(),
    {
        &self.flattened_types
    }
}

/// What an annotation denotes: a name of a registered class is that class, a name of a
/// registered protocol that protocol, any other name an error; other types stand for
/// themselves.
pub open spec fn annotation_meaning(
    types: Seq<(String, TypeInfo)>,
    protos: Seq<(String, ProtocolInfo)>,
    t: TypeView,
) -> TypeView {
    match t {
        TypeView::UserDefined(n) => if lookup(types, n) is Some {
            TypeView::Class(n)
        } else if lookup(protos, n) is Some {
            TypeView::Protocol(n)
        } else {
            TypeView::Error
        },
        _ => t,
    }
}

/// The parents of class `c`, nearest first, following at most `fuel` links.
pub open spec fn parent_chain(types: Seq<(String, TypeInfo)>, c: Seq<char>, fuel: nat) -> Seq<Seq<char>>
    decreases fuel,
{
    if fuel == 0 {
        Seq::empty()
    } else {
        match class_parent(types, c) {
            Some(p) => seq![p] + parent_chain(types, p, (fuel - 1) as nat),
            None => Seq::empty(),
        }
    }
}

/// A class followed by its ancestors, nearest first.
pub open spec fn ancestors(types: Seq<(String, TypeInfo)>, c: Seq<char>) -> Seq<Seq<char>> {
    seq![c] + parent_chain(types, c, types.len() as nat)
}

/// The first name of `a1` that `a2` contains.
pub open spec fn first_common(a1: Seq<Seq<char>>, a2: Seq<Seq<char>>) -> Option<Seq<char>>
    decreases a1.len(),
{
    if a1.len() == 0 {
        None
    } else if a2.contains(a1[0]) {
        Some(a1[0])
    } else {
        first_common(a1.drop_first(), a2)
    }
}

/// The type that two types are joined to: either one when the other conforms to it;
/// for two classes their nearest common ancestor; `Object` otherwise.
pub open spec fn join(
    types: Seq<(String, TypeInfo)>,
    protos: Seq<(String, ProtocolInfo)>,
    t1: TypeView,
    t2: TypeView,
    fuel: nat,
) -> TypeView {
    if t1 == t2 {
        t1
    } else if conforms(types, protos, t1, t2, fuel) {
        t2
    } else if conforms(types, protos, t2, t1, fuel) {
        t1
    } else {
        match (t1, t2) {
            (TypeView::Class(c1), TypeView::Class(c2)) => match first_common(
                ancestors(types, c1),
                ancestors(types, c2),
            ) {
                Some(a) => TypeView::Class(a),
                None => TypeView::Object,
            },
            _ => TypeView::Object,
        }
    }
}

/// The names of a list of strings.
pub open spec fn names(v: Seq<String>) -> Seq<Seq<char>> {
    v.map_values(|s: String| s@)
}

proof fn lemma_chain_reaches(types: Seq<(String, TypeInfo)>, c: Seq<char>, fuel: nat)
    ensures
        forall|i: int|
            0 <= i < parent_chain(types, c, fuel).len() ==> class_reaches(
                types,
                c,
                #[trigger] parent_chain(types, c, fuel)[i],
                fuel,
            ),
    decreases fuel,
{
    if fuel > 0 {
        if let Some(p) = class_parent(types, c) {
            lemma_chain_reaches(types, p, (fuel - 1) as nat);
            let rest = parent_chain(types, p, (fuel - 1) as nat);
            assert forall|i: int| 0 <= i < parent_chain(types, c, fuel).len() implies class_reaches(
                types,
                c,
                #[trigger] parent_chain(types, c, fuel)[i],
                fuel,
            ) by {
                if i > 0 {
                    assert(parent_chain(types, c, fuel)[i] == rest[i - 1]);
                }
            }
        }
    }
}

proof fn lemma_first_common(a1: Seq<Seq<char>>, a2: Seq<Seq<char>>)
    ensures
        first_common(a1, a2) matches Some(a) ==> a1.contains(a) && a2.contains(a),
    decreases a1.len(),
{
    if a1.len() > 0 && !a2.contains(a1[0]) {
        lemma_first_common(a1.drop_first(), a2);
        if let Some(a) = first_common(a1.drop_first(), a2) {
            let i = choose|i: int| 0 <= i < a1.drop_first().len() && a1.drop_first()[i] == a;
            assert(a1[i + 1] == a);
        }
    }
}

/// A class conforms to every one of its ancestors.
pub proof fn lemma_conforms_ancestor(
    types: Seq<(String, TypeInfo)>,
    protos: Seq<(String, ProtocolInfo)>,
    c: Seq<char>,
    a: Seq<char>,
    fuel: nat,
)
    requires
        ancestors(types, c).contains(a),
    ensures
        conforms(types, protos, TypeView::Class(c), TypeView::Class(a), fuel),
{
    lemma_chain_reaches(types, c, types.len() as nat);
    let i = choose|i: int| 0 <= i < ancestors(types, c).len() && ancestors(types, c)[i] == a;
    if i > 0 {
        assert(parent_chain(types, c, types.len() as nat)[i - 1] == a);
    }
}

/// Joining two classes gives a type that both conform to.
pub proof fn lemma_join_is_upper_bound(
    types: Seq<(String, TypeInfo)>,
    protos: Seq<(String, ProtocolInfo)>,
    c1: Seq<char>,
    c2: Seq<char>,
    fuel: nat,
)
    ensures
        conforms(types, protos, TypeView::Class(c1), join(types, protos, TypeView::Class(c1), TypeView::Class(c2), fuel), fuel),
        conforms(types, protos, TypeView::Class(c2), join(types, protos, TypeView::Class(c1), TypeView::Class(c2), fuel), fuel),
{
    let t1 = TypeView::Class(c1);
    let t2 = TypeView::Class(c2);
    if t1 == t2 {
    } else if conforms(types, protos, t1, t2, fuel) {
    } else if conforms(types, protos, t2, t1, fuel) {
    } else {
        lemma_first_common(ancestors(types, c1), ancestors(types, c2));
        if let Some(a) = first_common(ancestors(types, c1), ancestors(types, c2)) {
            lemma_conforms_ancestor(types, protos, c1, a, fuel);
            lemma_conforms_ancestor(types, protos, c2, a, fuel);
        }
    }
}

proof fn lemma_reaches_more_fuel(types: Seq<(String, TypeInfo)>, c: Seq<char>, t: Seq<char>, f: nat, g: nat)
    requires
        class_reaches(types, c, t, f),
        f <= g,
    ensures
        class_reaches(types, c, t, g),
    decreases f,
{
    if let Some(p) = class_parent(types, c) {
        if p != t {
            lemma_reaches_more_fuel(types, p, t, (f - 1) as nat, (g - 1) as nat);
        }
    }
}

proof fn lemma_reaches_in_chain(types: Seq<(String, TypeInfo)>, c: Seq<char>, t: Seq<char>, f: nat)
    requires
        class_reaches(types, c, t, f),
    ensures
        parent_chain(types, c, f).contains(t),
    decreases f,
{
    let p = class_parent(types, c)->Some_0;
    let chain = parent_chain(types, c, f);
    assert(chain[0] == p);
    if p != t {
        lemma_reaches_in_chain(types, p, t, (f - 1) as nat);
        let rest = parent_chain(types, p, (f - 1) as nat);
        let i = choose|i: int| 0 <= i < rest.len() && rest[i] == t;
        assert(chain[i + 1] == t);
    }
}

proof fn lemma_chain_later_reached(types: Seq<(String, TypeInfo)>, c: Seq<char>, f: nat, p: int, q: int)
    requires
        0 <= p < q < parent_chain(types, c, f).len(),
    ensures
        class_reaches(types, parent_chain(types, c, f)[p], parent_chain(types, c, f)[q], f),
    decreases f,
{
    let par = class_parent(types, c)->Some_0;
    let rest = parent_chain(types, par, (f - 1) as nat);
    assert(parent_chain(types, c, f)[q] == rest[q - 1]);
    if p == 0 {
        lemma_chain_reaches(types, par, (f - 1) as nat);
        assert(class_reaches(types, par, rest[q - 1], (f - 1) as nat));
        lemma_reaches_more_fuel(types, par, rest[q - 1], (f - 1) as nat, f);
    } else {
        assert(parent_chain(types, c, f)[p] == rest[p - 1]);
        lemma_chain_later_reached(types, par, (f - 1) as nat, p - 1, q - 1);
        lemma_reaches_more_fuel(types, rest[p - 1], rest[q - 1], (f - 1) as nat, f);
    }
}

proof fn lemma_first_common_earliest(a1: Seq<Seq<char>>, a2: Seq<Seq<char>>, q: int)
    requires
        0 <= q < a1.len(),
        a2.contains(a1[q]),
    ensures
        exists|p: int| 0 <= p <= q && first_common(a1, a2) == Some(#[trigger] a1[p]),
    decreases a1.len(),
{
    if a2.contains(a1[0]) {
        assert(first_common(a1, a2) == Some(a1[0]));
    } else {
        let d = a1.drop_first();
        assert(d[q - 1] == a1[q]);
        lemma_first_common_earliest(d, a2, q - 1);
        let p = choose|p: int| 0 <= p <= q - 1 && first_common(d, a2) == Some(#[trigger] d[p]);
        assert(a1[p + 1] == d[p]);
    }
}

/// Joining two classes gives the least of their common supertypes among classes: every
/// class that both conform to is conformed to by their join.
pub proof fn lemma_join_is_least(
    types: Seq<(String, TypeInfo)>,
    protos: Seq<(String, ProtocolInfo)>,
    c1: Seq<char>,
    c2: Seq<char>,
    a: Seq<char>,
    fuel: nat,
)
    requires
        conforms(types, protos, TypeView::Class(c1), TypeView::Class(a), fuel),
        conforms(types, protos, TypeView::Class(c2), TypeView::Class(a), fuel),
    ensures
        conforms(types, protos, join(types, protos, TypeView::Class(c1), TypeView::Class(c2), fuel), TypeView::Class(a), fuel),
{
    let t1 = TypeView::Class(c1);
    let t2 = TypeView::Class(c2);
    let n = types.len() as nat;
    if t1 == t2 {
    } else if conforms(types, protos, t1, t2, fuel) {
    } else if conforms(types, protos, t2, t1, fuel) {
    } else {
        let a1 = ancestors(types, c1);
        let a2 = ancestors(types, c2);
        assert(a1[0] == c1 && a2[0] == c2);
        // `a` is an ancestor of both
        let q: int = if a == c1 {
            0
        } else {
            lemma_reaches_in_chain(types, c1, a, n);
            let i = choose|i: int| 0 <= i < parent_chain(types, c1, n).len() && parent_chain(types, c1, n)[i] == a;
            assert(a1[i + 1] == a);
            i + 1
        };
        assert(a1[q] == a);
        if a == c2 {
            assert(a2[0] == a);
        } else {
            lemma_reaches_in_chain(types, c2, a, n);
            let i = choose|i: int| 0 <= i < parent_chain(types, c2, n).len() && parent_chain(types, c2, n)[i] == a;
            assert(a2[i + 1] == a);
        }
        assert(a2.contains(a1[q]));
        lemma_first_common_earliest(a1, a2, q);
        let p = choose|p: int| 0 <= p <= q && first_common(a1, a2) == Some(#[trigger] a1[p]);
        let j = a1[p];
        if p < q {
            if p == 0 {
                assert(j == c1);
            } else {
                assert(a1[p] == parent_chain(types, c1, n)[p - 1]);
                assert(a1[q] == parent_chain(types, c1, n)[q - 1]);
                lemma_chain_later_reached(types, c1, n, p - 1, q - 1);
            }
        }
    }
}

proof fn lemma_reaches_trans(types: Seq<(String, TypeInfo)>, x: Seq<char>, y: Seq<char>, z: Seq<char>, f: nat, g: nat)
    requires
        class_reaches(types, x, y, f),
        class_reaches(types, y, z, g),
    ensures
        class_reaches(types, x, z, f + g),
    decreases f,
{
    let p = class_parent(types, x)->Some_0;
    if p == y {
        lemma_reaches_more_fuel(types, y, z, g, (f + g - 1) as nat);
        if p != z {
            assert(class_reaches(types, p, z, (f + g - 1) as nat));
        }
    } else {
        lemma_reaches_trans(types, p, y, z, (f - 1) as nat, g);
    }
}

/// The position, in `a1`, of the result of `first_common`.
proof fn lemma_first_common_position(a1: Seq<Seq<char>>, a2: Seq<Seq<char>>)
    ensures
        first_common(a1, a2) matches Some(j) ==> exists|p: int|
            0 <= p < a1.len() && #[trigger] a1[p] == j && a2.contains(j) && forall|r: int|
                0 <= r < p ==> !a2.contains(#[trigger] a1[r]),
        first_common(a1, a2) is None ==> forall|r: int| 0 <= r < a1.len() ==> !a2.contains(#[trigger] a1[r]),
    decreases a1.len(),
{
    if a1.len() > 0 {
        if a2.contains(a1[0]) {
            assert(a1[0] == a1[0]);
        } else {
            let d = a1.drop_first();
            lemma_first_common_position(d, a2);
            if let Some(j) = first_common(d, a2) {
                let p = choose|p: int|
                    0 <= p < d.len() && #[trigger] d[p] == j && a2.contains(j) && forall|r: int|
                        0 <= r < p ==> !a2.contains(#[trigger] d[r]);
                assert(a1[p + 1] == j);
                assert forall|r: int| 0 <= r < p + 1 implies !a2.contains(#[trigger] a1[r]) by {
                    if r > 0 {
                        assert(a1[r] == d[r - 1]);
                    }
                }
            } else {
                assert forall|r: int| 0 <= r < a1.len() implies !a2.contains(#[trigger] a1[r]) by {
                    if r > 0 {
                        assert(a1[r] == d[r - 1]);
                    }
                }
            }
        }
    }
}

/// An ancestor at position `q` is reached from the one at position `p < q`.
proof fn lemma_ancestor_later_reached(types: Seq<(String, TypeInfo)>, c: Seq<char>, p: int, q: int)
    requires
        0 <= p < q < ancestors(types, c).len(),
    ensures
        class_reaches(types, ancestors(types, c)[p], ancestors(types, c)[q], types.len() as nat),
{
    let n = types.len() as nat;
    let a = ancestors(types, c);
    assert(a[q] == parent_chain(types, c, n)[q - 1]);
    if p == 0 {
        lemma_chain_reaches(types, c, n);
        assert(class_reaches(types, c, parent_chain(types, c, n)[q - 1], n));
    } else {
        assert(a[p] == parent_chain(types, c, n)[p - 1]);
        lemma_chain_later_reached(types, c, n, p - 1, q - 1);
    }
}

/// In a class hierarchy without cycles, joining two classes does not depend on their
/// order.
pub proof fn lemma_join_symmetric(
    types: Seq<(String, TypeInfo)>,
    protos: Seq<(String, ProtocolInfo)>,
    c1: Seq<char>,
    c2: Seq<char>,
    fuel: nat,
)
    requires
        forall|x: Seq<char>| !#[trigger] class_reaches(types, x, x, (2 * types.len()) as nat),
    ensures
        join(types, protos, TypeView::Class(c1), TypeView::Class(c2), fuel) == join(
            types,
            protos,
            TypeView::Class(c2),
            TypeView::Class(c1),
            fuel,
        ),
{
    let n = types.len() as nat;
    let t1 = TypeView::Class(c1);
    let t2 = TypeView::Class(c2);
    if t1 != t2 && conforms(types, protos, t1, t2, fuel) && conforms(types, protos, t2, t1, fuel) {
        lemma_reaches_trans(types, c1, c2, c1, n, n);
        assert(n + n == (2 * types.len()) as nat);
        assert(!class_reaches(types, c1, c1, (2 * types.len()) as nat));
        assert(false);
    }
    if t1 != t2 && !conforms(types, protos, t1, t2, fuel) && !conforms(types, protos, t2, t1, fuel) {
        let a1 = ancestors(types, c1);
        let a2 = ancestors(types, c2);
        lemma_first_common_position(a1, a2);
        lemma_first_common_position(a2, a1);
        match (first_common(a1, a2), first_common(a2, a1)) {
            (Some(j1), Some(j2)) => {
                let p1 = choose|p: int|
                    0 <= p < a1.len() && #[trigger] a1[p] == j1 && a2.contains(j1) && forall|r: int|
                        0 <= r < p ==> !a2.contains(#[trigger] a1[r]);
                let p2 = choose|p: int|
                    0 <= p < a2.len() && #[trigger] a2[p] == j2 && a1.contains(j2) && forall|r: int|
                        0 <= r < p ==> !a1.contains(#[trigger] a2[r]);
                let q1 = choose|q: int| 0 <= q < a2.len() && a2[q] == j1;
                let q2 = choose|q: int| 0 <= q < a1.len() && a1[q] == j2;
                // j1 sits in a2 no earlier than j2, and j2 in a1 no earlier than j1
                if q1 < p2 {
                    assert(!a1.contains(a2[q1]));
                }
                if q2 < p1 {
                    assert(!a2.contains(a1[q2]));
                }
                if j1 != j2 {
                    assert(q1 != p2 && q2 != p1);
                    lemma_ancestor_later_reached(types, c2, p2, q1);
                    lemma_ancestor_later_reached(types, c1, p1, q2);
                    lemma_reaches_trans(types, j1, j2, j1, n, n);
                    assert(n + n == (2 * types.len()) as nat);
                    assert(!class_reaches(types, j1, j1, (2 * types.len()) as nat));
                    assert(false);
                }
            },
            (Some(j1), None) => {
                let p1 = choose|p: int|
                    0 <= p < a1.len() && #[trigger] a1[p] == j1 && a2.contains(j1) && forall|r: int|
                        0 <= r < p ==> !a2.contains(#[trigger] a1[r]);
                let q1 = choose|q: int| 0 <= q < a2.len() && a2[q] == j1;
                assert(!a1.contains(a2[q1]));
                assert(false);
            },
            (None, Some(j2)) => {
                let p2 = choose|p: int|
                    0 <= p < a2.len() && #[trigger] a2[p] == j2 && a1.contains(j2) && forall|r: int|
                        0 <= r < p ==> !a1.contains(#[trigger] a2[r]);
                let q2 = choose|q: int| 0 <= q < a1.len() && a1[q] == j2;
                assert(!a2.contains(a1[q2]));
                assert(false);
            },
            (None, None) => {},
        }
    }
}

/// Every type but `Error` conforms to `Object`.
pub proof fn lemma_object_is_top(
    types: Seq<(String, TypeInfo)>,
    protos: Seq<(String, ProtocolInfo)>,
    t: TypeView,
    fuel: nat,
)
    requires
        !(t is Error),
    ensures
        conforms(types, protos, t, TypeView::Object, fuel),
{
}

/// Conformance is reflexive on primitive types, classes, protocols and type variables.
pub proof fn lemma_conforms_reflexive(
    types: Seq<(String, TypeInfo)>,
    protos: Seq<(String, ProtocolInfo)>,
    t: TypeView,
    fuel: nat,
)
    requires
        t is Number || t is String || t is Boolean || t is Object || t is Class || t is Protocol || t is Var,
    ensures
        conforms(types, protos, t, t, fuel),
{
}

/// `Error` conforms to nothing, and nothing conforms to it.
pub proof fn lemma_error_conforms_to_nothing(
    types: Seq<(String, TypeInfo)>,
    protos: Seq<(String, ProtocolInfo)>,
    t: TypeView,
    fuel: nat,
)
    ensures
        !conforms(types, protos, TypeView::Error, t, fuel),
        !conforms(types, protos, t, TypeView::Error, fuel),
{
}

/// `self.<name>` in the body of a built-in method.
fn self_attribute(name: &str) -> (res: Box<Expr>) {
    let sp = crate::span::Span::new(0, 0);
    Box::new(Expr::AttributeAccess(crate::ast::AttributeAccessExpr {
        object: Box::new(Expr::SelfExpr(crate::ast::SelfExpr { span: sp, ty: None })),
        attribute: String::from_str(name),
        span: sp,
        ty: None,
    }))
}

/// A numeric attribute of the built-in range class, starting at zero.
fn range_attribute(name: &str) -> (res: Attribute)
    ensures
        res.name@ == name@,
{
    let sp = crate::span::Span::new(0, 0);
    Attribute {
        name: String::from_str(name),
        init_expr: Box::new(Expr::Number(crate::ast::NumberExpr { value: String::from_str("0"), span: sp, ty: None })),
        span: sp,
        ty: None,
        ty_annotation: Some(HulkType::Number),
    }
}

/// The definition of the built-in class `_Range` that `range(min, max)` makes: numeric
/// attributes `min`, `max` and `current`; `next(): Boolean` advances `current` and tells
/// whether it is still below `max`; `current(): Number` gives it.
fn range_type_def() -> (res: TypeDef)
    ensures
        res.name@ == "_Range"@,
        res.parent is None,
        res.params@.len() == 0,
        crate::flatten::distinct_names(res.attributes@),
{
    let sp = crate::span::Span::new(0, 0);
    let one = Box::new(Expr::Number(crate::ast::NumberExpr { value: String::from_str("1"), span: sp, ty: None }));
    let step = Box::new(Expr::BinaryOp(crate::ast::BinaryOpExpr {
        left: self_attribute("current"),
        op: crate::ast::BinOp::Add,
        right: one,
        span: sp,
        ty: None,
    }));
    let advance = Box::new(Expr::DestructiveAssign(crate::ast::DestructiveAssignExpr {
        lhs: self_attribute("current"),
        value: step,
        span: sp,
        ty: None,
    }));
    let next_body = Box::new(Expr::BinaryOp(crate::ast::BinaryOpExpr {
        left: advance,
        op: crate::ast::BinOp::Lt,
        right: self_attribute("max"),
        span: sp,
        ty: None,
    }));
    proof {
        reveal_strlit("min");
        reveal_strlit("max");
        reveal_strlit("current");
        assert("min"@[1] != "max"@[1]);
        assert("min"@[0] != "current"@[0]);
        assert("max"@[0] != "current"@[0]);
    }
    let mut attributes: Vec<Attribute> = Vec::new();
    attributes.push(range_attribute("min"));
    attributes.push(range_attribute("max"));
    attributes.push(range_attribute("current"));
    let mut methods: Vec<Method> = Vec::new();
    methods.push(Method {
        name: String::from_str("next"),
        owner: Some(String::from_str("_Range")),
        params: Vec::new(),
        body: next_body,
        span: sp,
        ty: Some(HulkType::Boolean),
        ty_annotation: Some(HulkType::Boolean),
    });
    methods.push(Method {
        name: String::from_str("current"),
        owner: Some(String::from_str("_Range")),
        params: Vec::new(),
        body: self_attribute("current"),
        span: sp,
        ty: Some(HulkType::Number),
        ty_annotation: Some(HulkType::Number),
    });
    TypeDef {
        name: String::from_str("_Range"),
        params: Vec::new(),
        param_types: Vec::new(),
        parent: None,
        attributes,
        methods,
        span: sp,
        ty: None,
    }
}

/// The class entry of `_Range`.
fn range_type_info() -> (res: TypeInfo)
    ensures
        res.parent is None,
{
    let mut attributes: Vec<(String, HulkType)> = Vec::new();
    let mut attr_order: Vec<String> = Vec::new();
    let mut own_attributes: Vec<String> = Vec::new();
    attributes.push((String::from_str("min"), HulkType::Number));
    attributes.push((String::from_str("max"), HulkType::Number));
    attributes.push((String::from_str("current"), HulkType::Number));
    attr_order.push(String::from_str("min"));
    attr_order.push(String::from_str("max"));
    attr_order.push(String::from_str("current"));
    own_attributes.push(String::from_str("min"));
    own_attributes.push(String::from_str("max"));
    own_attributes.push(String::from_str("current"));
    let mut methods: Vec<(String, MethodInfo)> = Vec::new();
    methods.push((String::from_str("next"), MethodInfo { param_types: Vec::new(), return_type: HulkType::Boolean }));
    methods.push((String::from_str("current"), MethodInfo { param_types: Vec::new(), return_type: HulkType::Number }));
    TypeInfo { parent: None, param_vars: Vec::new(), attributes, attr_order, methods, own_attributes }
}

impl TypeChecker {
    /// A checker that knows the built-in classes: `Object`, and `_Range`, the class of
    /// what `range(min, max)` gives.
    pub fn new() -> (res: Self)
        ensures
            res.errors_seq().len() == 0,
            res.protos_seq().len() == 0,
            res.types_seq().len() == 2,
            res.types_seq()[0].0@ == "Object"@,
            res.types_seq()[0].1.parent is None,
            res.types_seq()[0].1.methods@.len() == 0,
            res.types_seq()[1].0@ == "_Range"@,
            res.types_seq()[1].1.parent is None,
            lookup(res.type_defs_seq(), "_Range"@) is Some,
            res.wf(),
            res.builtin_only(),
    {
        let mut scopes: Vec<Vec<(String, HulkType)>> = Vec::new();
        scopes.push(Vec::new());
        let mut tc = TypeChecker {
            errors: Vec::new(),
            scopes,
            functions: Vec::new(),
            unifier: Unifier::default(),
            param_vars: Vec::new(),
            return_var: Vec::new(),
            types: Vec::new(),
            current_type: None,
            self_type: None,
            flattened_types: Vec::new(),
            type_defs: Vec::new(),
            current_method: None,
            protocols: Vec::new(),
            current_method_params: None,
            next_type_id: 0,
        };
        tc.register_builtin_types();
        proof {
            reveal_strlit("Object");
            reveal_strlit("_Range");
            assert("Object"@[0] != "_Range"@[0]);
            lemma_key_index(tc.types@, "_Range"@);
            tc.reveal_wf();
        }
        let ghost t1 = tc.types@;
        let ghost d1 = tc.type_defs@;
        proof {
            lemma_key_index(d1, "_Range"@);
            lemma_key_index(t1, "Object"@);
            lemma_key_index(d1, "Object"@);
        }
        assoc_insert(&mut tc.types, String::from_str("_Range"), range_type_info());
        assoc_insert(&mut tc.type_defs, String::from_str("_Range"), range_type_def());
        proof {
            tc.reveal_wf();
            tc.reveal_views();
            tc.reveal_flatten_ready();
            let types = tc.types@;
            let defs = tc.type_defs@;
            assert(lookup(t1, "Object"@) is Some);
            assert(lookup(d1, "Object"@) is Some);
            assert forall|q: Seq<char>| #[trigger] lookup(types, q) is Some implies lookup(types, q)->Some_0.parent is None
                && lookup(defs, q) is Some && lookup(defs, q)->Some_0.parent is None && crate::flatten::distinct_names(
                lookup(defs, q)->Some_0.attributes@,
            ) by {
                if q != "_Range"@ {
                    assert(lookup(t1, q) is Some);
                    lemma_key_index(t1, q);
                    assert(q == "Object"@);
                }
            }
            assert(crate::flatten::parentless_distinct(tc.types_seq(), tc.type_defs_seq()));
            assert(t1.len() == 1);
            assert(key_index(t1, "_Range"@) < 0);
            assert(types.len() == 2);
            assert(tc.next_type_id == 0);
            let f: nat = 3;
            assert forall|x: Seq<char>| !#[trigger] class_reaches(types, x, x, f) by {
                if lookup(types, x) is Some {
                    assert(class_parent(types, x) is None);
                }
            }
            assert(crate::flatten::ready(types, defs, tc.flattened_types@, "Object"@, f));
            assert forall|k: int| 0 <= k < types.len() implies crate::flatten::ready(
                types,
                defs,
                tc.flattened_types@,
                (#[trigger] types[k]).0@,
                f,
            ) by {
                lemma_key_index(types, types[k].0@);
                assert(lookup(types, types[k].0@) is Some);
            }
            assert(crate::flatten::all_ready(types, defs, tc.flattened_types@));
            assert(tc.flatten_ready());
        }
        tc
    }

    /// Internal consistency: the unifier is consistent and the name tables have no
    /// repeated names.
    pub closed spec fn wf(&self) -> bool {
        &&& self.unifier.wf()
        &&& keys_unique(self.types@)
        &&& keys_unique(self.protocols@)
        &&& keys_unique(self.functions@)
        &&& keys_unique(self.type_defs@)
        &&& keys_unique(self.flattened_types@)
        &&& self.scopes@.len() >= 1
        &&& signatures_fit(self.functions@, self.param_vars@)
    }

    pub(crate) proof fn reveal_views(&self)
        ensures
            self.types_seq() == self.types@,
            self.protos_seq() == self.protocols@,
            self.errors_seq() == self.errors@,
            self.unifier_spec() == self.unifier,
            self.type_defs_seq() == self.type_defs@,
            self.flattened_seq() == self.flattened_types@,
            self.scopes_seq() == self.scopes@,
            self.type_id_counter() == self.next_type_id,
    {
    }

    /// A well-formed checker has a well-formed unifier.
    pub proof fn lemma_wf_unifier(&self)
        requires
            self.wf(),
        ensures
            self.unifier_spec().wf(),
    {
    }

    pub(crate) proof fn reveal_wf(&self)
        ensures
            self.wf() == (self.unifier.wf() && keys_unique(self.types@) && keys_unique(self.protocols@)
                && keys_unique(self.functions@) && keys_unique(self.type_defs@) && keys_unique(
                self.flattened_types@,
            ) && self.scopes@.len() >= 1 && signatures_fit(self.functions@, self.param_vars@)),
    {
    }

    pub(crate) fn register_builtin_types(&mut self)
        requires
            old(self).wf() || (old(self).unifier.wf() && old(self).types@.len() == 0 && old(self).protocols@.len() == 0 && old(self).functions@.len() == 0 && old(self).param_vars@.len() == 0 && old(self).type_defs@.len() == 0 && old(self).flattened_types@.len() == 0 && old(self).scopes@.len() >= 1),
        ensures
            final(self).flattened_types == old(self).flattened_types,
            final(self).wf(),
            lookup(final(self).types@, "Object"@) is Some,
            old(self).types@.len() == 0 ==> final(self).types@.len() == 1 && final(self).types@[0].1.parent is None && final(self).types@[0].1.methods@.len() == 0 && final(self).types@[0].0@ == "Object"@,
            final(self).protocols@ == old(self).protocols@,
            final(self).errors == old(self).errors,
            final(self).scopes == old(self).scopes,
            forall|q: Seq<char>| q != "Object"@ ==> #[trigger] lookup(final(self).types@, q) == lookup(old(self).types@, q),
            lookup(old(self).types@, "Object"@) is Some ==> *final(self) == *old(self),
            final(self).next_type_id == old(self).next_type_id,
            old(self).types@.len() == 0 && old(self).type_defs@.len() == 0 ==> final(self).type_defs@.len() == 1
                && final(self).type_defs@[0].0@ == "Object"@ && final(self).type_defs@[0].1.parent is None
                && final(self).type_defs@[0].1.attributes@.len() == 0,
    {
        let ghost s0 = *self;
        proof {
            if s0.wf() {
                s0.reveal_wf();
            }
        }
        if !assoc_has(&self.types, "Object") {
            let ghost before = self.types@;
            assoc_insert(
                &mut self.types,
                String::from_str("Object"),
                TypeInfo {
                    parent: None,
                    param_vars: Vec::new(),
                    attributes: Vec::new(),
                    attr_order: Vec::new(),
                    methods: Vec::new(),
                    own_attributes: Vec::new(),
                },
            );
            proof {
                if before.len() == 0 {
                    lemma_key_index(before, "Object"@);
                }
            }
            assoc_insert(
                &mut self.type_defs,
                String::from_str("Object"),
                TypeDef {
                    name: String::from_str("Object"),
                    params: Vec::new(),
                    param_types: Vec::new(),
                    parent: None,
                    attributes: Vec::new(),
                    methods: Vec::new(),
                    span: crate::span::Span::new(0, 0),
                    ty: None,
                },
            );
        }
    }

    /// What an annotation denotes in the current tables.
    pub(crate) fn resolve_annotation(&self, ty: &HulkType) -> (res: HulkType)
        ensures
            res@ == annotation_meaning(self.types@, self.protocols@, ty@),
    {
        match ty {
            HulkType::UserDefined(name) => {
                if assoc_has(&self.types, name.as_str()) {
                    HulkType::Class(name.clone())
                } else if assoc_has(&self.protocols, name.as_str()) {
                    HulkType::Protocol(name.clone())
                } else {
                    HulkType::Error
                }
            },
            _ => ty.clone(),
        }
    }

    /// A class followed by its ancestors, nearest first.
    fn get_ancestors(&self, class_name: &str) -> (res: Vec<String>)
        ensures
            names(res@) == ancestors(self.types@, class_name@),
    {
        let n = self.types.len();
        let mut list: Vec<String> = Vec::new();
        let mut current = String::from_str(class_name);
        list.push(current.clone());
        let mut steps: usize = 0;
        while steps < n
            invariant
                steps <= n,
                n == self.types@.len(),
                names(list@) + parent_chain(self.types@, current@, (n - steps) as nat) == ancestors(
                    self.types@,
                    class_name@,
                ),
            decreases n - steps,
        {
            let ghost before = names(list@);
            let ghost cur = current@;
            match assoc_get(&self.types, current.as_str()) {
                Some(info) => match &info.parent {
                    Some(p) => {
                        list.push(p.clone());
                        current = p.clone();
                        proof {
                            assert(names(list@) =~= before.push(p@));
                            assert(parent_chain(self.types@, cur, (n - steps) as nat) =~= seq![p@]
                                + parent_chain(self.types@, p@, (n - steps - 1) as nat));
                            assert(before + (seq![p@] + parent_chain(self.types@, p@, (n - steps - 1) as nat))
                                =~= before.push(p@) + parent_chain(self.types@, p@, (n - steps - 1) as nat));
                        }
                    },
                    None => {
                        proof {
                            assert(parent_chain(self.types@, cur, (n - steps) as nat) =~= Seq::<Seq<char>>::empty());
                            assert(names(list@) + Seq::<Seq<char>>::empty() =~= names(list@));
                        }
                        return list;
                    },
                },
                None => {
                    proof {
                        assert(parent_chain(self.types@, cur, (n - steps) as nat) =~= Seq::<Seq<char>>::empty());
                        assert(names(list@) + Seq::<Seq<char>>::empty() =~= names(list@));
                    }
                    return list;
                },
            }
            steps = steps + 1;
        }
        proof {
            assert(names(list@) + Seq::<Seq<char>>::empty() =~= names(list@));
        }
        list
    }

    /// The most specific type that both types conform to: the result is `join` of the two
    /// (`Object` for two classes with no common ancestor). For two classes, both conform to
    /// it (`lemma_join_is_upper_bound`), it conforms to every class that both conform to
    /// (`lemma_join_is_least`), and, in a hierarchy without cycles, it does not depend on
    /// the order of the arguments (`lemma_join_symmetric`).
    pub fn lowest_common_ancestor(&self, t1: &HulkType, t2: &HulkType) -> (res: Option<HulkType>)
        ensures
            res matches Some(r) && r@ == join(self.types_seq(), self.protos_seq(), t1@, t2@, self.depth()),
    {
        if t1.same(t2) {
            return Some(t1.clone());
        }
        if self.conforms_to(t1, t2) {
            return Some(t2.clone());
        }
        if self.conforms_to(t2, t1) {
            return Some(t1.clone());
        }
        match (t1, t2) {
            (HulkType::Class(c1), HulkType::Class(c2)) => {
                let anc1 = self.get_ancestors(c1.as_str());
                let anc2 = self.get_ancestors(c2.as_str());
                let mut i: usize = 0;
                proof {
                    assert(names(anc1@).subrange(0, anc1@.len() as int) =~= names(anc1@));
                }
                while i < anc1.len()
                    invariant
                        i <= anc1@.len(),
                        t1@ == TypeView::Class(c1@),
                        t2@ == TypeView::Class(c2@),
                        t1@ != t2@,
                        !self.conforms_spec(t1@, t2@),
                        !self.conforms_spec(t2@, t1@),
                        names(anc1@) == ancestors(self.types@, c1@),
                        names(anc2@) == ancestors(self.types@, c2@),
                        first_common(names(anc1@), names(anc2@)) == first_common(
                            names(anc1@).subrange(i as int, anc1@.len() as int),
                            names(anc2@),
                        ),
                    decreases anc1@.len() - i,
                {
                    let ghost rest = names(anc1@).subrange(i as int, anc1@.len() as int);
                    if contains_name(&anc2, anc1[i].as_str()) {
                        proof {
                            assert(rest[0] == anc1@[i as int]@);
                        }
                        return Some(HulkType::Class(anc1[i].clone()));
                    }
                    proof {
                        assert(rest.drop_first() =~= names(anc1@).subrange(i + 1, anc1@.len() as int));
                    }
                    i = i + 1;
                }
                Some(HulkType::Object)
            },
            _ => Some(HulkType::Object),
        }
    }
}

/// Whether a list of strings contains the name.
fn contains_name(v: &Vec<String>, name: &str) -> (res: bool)
    ensures
        res == names(v@).contains(name@),
{
    let mut k: usize = 0;
    while k < v.len()
        invariant
            k <= v@.len(),
            forall|j: int| 0 <= j < k ==> v@[j]@ != name@,
        decreases v@.len() - k,
    {
        if crate::text::str_eq(v[k].as_str(), name) {
            assert(names(v@)[k as int] == name@);
            return true;
        }
        k = k + 1;
    }
    proof {
        if names(v@).contains(name@) {
            let j = choose|j: int| 0 <= j < names(v@).len() && names(v@)[j] == name@;
            assert(v@[j]@ == name@);
        }
    }
    false
}

} // verus!
