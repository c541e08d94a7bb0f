use vstd::prelude::*;
use crate::text::{str_debug, debug_str, decimal, push_decimal};

verus! {

/// The types of the language, including the auxiliary forms used during inference.
#[derive(Debug)]
pub enum HulkType {
    Number,
    String,
    Boolean,
    Object,
    UserDefined(String),
    Error,
    Var(usize),
    Class(String),
    Protocol(String),
    GenericPlaceholder,
    Iterable(Box<HulkType>),
}

/// Mathematical model of a type: names are character sequences.
pub enum TypeView {
    Number,
    String,
    Boolean,
    Object,
    UserDefined(Seq<char>),
    Error,
    Var(usize),
    Class(Seq<char>),
    Protocol(Seq<char>),
    GenericPlaceholder,
    Iterable(Box<TypeView>),
}

/// The model of a type.
pub open spec fn type_view(t: HulkType) -> TypeView
    decreases t,
{
    match t {
        HulkType::Number => TypeView::Number,
        HulkType::String => TypeView::String,
        HulkType::Boolean => TypeView::Boolean,
        HulkType::Object => TypeView::Object,
        HulkType::UserDefined(s) => TypeView::UserDefined(s@),
        HulkType::Error => TypeView::Error,
        HulkType::Var(id) => TypeView::Var(id),
        HulkType::Class(s) => TypeView::Class(s@),
        HulkType::Protocol(s) => TypeView::Protocol(s@),
        HulkType::GenericPlaceholder => TypeView::GenericPlaceholder,
        HulkType::Iterable(inner) => TypeView::Iterable(Box::new(type_view(*inner))),
    }
}

impl View for HulkType {
    type V = TypeView;

    open spec fn view(&self) -> TypeView {
        type_view(*self)
    }
}

/// Assignment compatibility of two types: equal primitive types, anything with
/// `Object`, and anything with a type variable.
pub open spec fn compatible(a: TypeView, b: TypeView) -> bool {
    match (a, b) {
        (TypeView::Number, TypeView::Number) => true,
        (TypeView::String, TypeView::String) => true,
        (TypeView::Boolean, TypeView::Boolean) => true,
        (TypeView::Object, _) => true,
        (_, TypeView::Object) => true,
        (TypeView::Var(_), _) => true,
        (_, TypeView::Var(_)) => true,
        _ => false,
    }
}

impl Clone for HulkType {
    fn clone(&self) -> (res: Self)
        ensures
            res == *self,
            res@ == self@,
        decreases self,
    {
        match self {
            HulkType::Number => HulkType::Number,
            HulkType::String => HulkType::String,
            HulkType::Boolean => HulkType::Boolean,
            HulkType::Object => HulkType::Object,
            HulkType::UserDefined(s) => HulkType::UserDefined(s.clone()),
            HulkType::Error => HulkType::Error,
            HulkType::Var(id) => HulkType::Var(*id),
            HulkType::Class(s) => HulkType::Class(s.clone()),
            HulkType::Protocol(s) => HulkType::Protocol(s.clone()),
            HulkType::GenericPlaceholder => HulkType::GenericPlaceholder,
            HulkType::Iterable(inner) => {
                let c = (**inner).clone();
                HulkType::Iterable(Box::new(c))
            },
        }
    }
}

impl HulkType {
    /// Whether a type is compatible with another (for assignments, arguments, ...).
    pub fn is_compatible_with(&self, other: &HulkType) -> (res: bool)
        ensures
            res == compatible(self@, other@),
    {
        match (self, other) {
            (HulkType::Number, HulkType::Number) => true,
            (HulkType::String, HulkType::String) => true,
            (HulkType::Boolean, HulkType::Boolean) => true,
            (HulkType::Object, _) => true,
            (_, HulkType::Object) => true,
            (HulkType::Var(_), _) => true,
            (_, HulkType::Var(_)) => true,
            _ => false,
        }
    }

    /// The id of a type variable, `None` for any other type.
    pub fn get_var_id(&self) -> (res: Option<usize>)
        ensures
            res == (match self@ {
                TypeView::Var(id) => Some(id),
                _ => None,
            }),
    {
        if let HulkType::Var(id) = self {
            Some(*id)
        } else {
            None
        }
    }

    /// Structural equality of two types (names compared by their characters).
    pub fn same(&self, other: &HulkType) -> (res: bool)
        ensures
            res == (self@ == other@),
        decreases self,
    {
        match (self, other) {
            (HulkType::Number, HulkType::Number) => true,
            (HulkType::String, HulkType::String) => true,
            (HulkType::Boolean, HulkType::Boolean) => true,
            (HulkType::Object, HulkType::Object) => true,
            (HulkType::UserDefined(a), HulkType::UserDefined(b)) => a.eq(b),
            (HulkType::Error, HulkType::Error) => true,
            (HulkType::Var(a), HulkType::Var(b)) => a == b,
            (HulkType::Class(a), HulkType::Class(b)) => a.eq(b),
            (HulkType::Protocol(a), HulkType::Protocol(b)) => a.eq(b),
            (HulkType::GenericPlaceholder, HulkType::GenericPlaceholder) => true,
            (HulkType::Iterable(a), HulkType::Iterable(b)) => {
                let r = (**a).same(&**b);
                proof {
                    if !r {
                        assert(type_view(**a) != type_view(**b));
                    }
                }
                r
            },
            _ => false,
        }
    }
}

/// The text that `{:?}` formatting gives for a type: the variant's name, followed by its
/// field in parentheses (a name quoted and escaped as for a string, an identifier in
/// decimal, an inner type as text).
#[verifier::opaque]
pub open spec fn type_debug(t: TypeView) -> Seq<char>
    decreases t,
{
    match t {
        TypeView::Number => "Number"@,
        TypeView::String => "String"@,
        TypeView::Boolean => "Boolean"@,
        TypeView::Object => "Object"@,
        TypeView::UserDefined(s) => "UserDefined"@ + "("@ + str_debug(s) + ")"@,
        TypeView::Error => "Error"@,
        TypeView::Var(id) => "Var"@ + "("@ + decimal(id as nat) + ")"@,
        TypeView::Class(s) => "Class"@ + "("@ + str_debug(s) + ")"@,
        TypeView::Protocol(s) => "Protocol"@ + "("@ + str_debug(s) + ")"@,
        TypeView::GenericPlaceholder => "GenericPlaceholder"@,
        TypeView::Iterable(inner) => "Iterable"@ + "("@ + type_debug(*inner) + ")"@,
    }
}

fn named(name: &str, field: &str) -> (res: String)
    ensures
        res@ == name@ + "("@ + field@ + ")"@,
{
    let mut r = String::from_str(name);
    r.append("(");
    r.append(field);
    r.append(")");
    r
}

/// Formats a type as `{:?}` formatting does.
pub(crate) fn debug_string(t: &HulkType) -> (res: String)
    ensures
        res@ == type_debug(t@),
    decreases t,
{
    proof {
        reveal(type_debug);
    }
    match t {
        HulkType::Number => String::from_str("Number"),
        HulkType::String => String::from_str("String"),
        HulkType::Boolean => String::from_str("Boolean"),
        HulkType::Object => String::from_str("Object"),
        HulkType::UserDefined(s) => named("UserDefined", debug_str(s.as_str()).as_str()),
        HulkType::Error => String::from_str("Error"),
        HulkType::Var(id) => {
            let mut d = String::new();
            push_decimal(&mut d, *id);
            assert(d@ =~= decimal(*id as nat));
            named("Var", d.as_str())
        },
        HulkType::Class(s) => named("Class", debug_str(s.as_str()).as_str()),
        HulkType::Protocol(s) => named("Protocol", debug_str(s.as_str()).as_str()),
        HulkType::GenericPlaceholder => String::from_str("GenericPlaceholder"),
        HulkType::Iterable(inner) => named("Iterable", debug_string(inner).as_str()),
    }
}

} // verus!
