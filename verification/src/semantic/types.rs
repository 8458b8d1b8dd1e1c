//! The types of the HULK type system.

use vstd::prelude::*;
use crate::text::str_eq;

verus! {

/// Internal representation of types in the HULK type system.
#[derive(Debug)]
pub enum HulkType {
    /// Built-in numeric type.
    Number,
    /// Built-in string type.
    String,
    /// Built-in boolean type.
    Boolean,
    /// The void/unit type, the result of `print`, a `while` without else, etc.
    Void,
    /// A user-defined or built-in class type, identified by name.
    Class(std::string::String),
    /// Array of elements with a given element type.
    Array(Box<HulkType>),
    /// The `self` pseudo-type used inside method bodies.
    SelfType,
    /// Sentinel type used for error recovery; conforms to everything.
    Error,
    /// Type not yet determined (for inference).
    Unknown,
    /// The root type; every type conforms to Object.
    Object,
}

/// The mathematical model of a `HulkType`: class names are character sequences.
pub enum TypeV {
    Number,
    Str,
    Boolean,
    Void,
    Class(Seq<char>),
    Array(Box<TypeV>),
    SelfType,
    Error,
    Unknown,
    Object,
}

pub open spec fn type_view(t: HulkType) -> TypeV
    decreases t,
{
    match t {
        HulkType::Number => TypeV::Number,
        HulkType::String => TypeV::Str,
        HulkType::Boolean => TypeV::Boolean,
        HulkType::Void => TypeV::Void,
        HulkType::Class(n) => TypeV::Class(n@),
        HulkType::Array(inner) => TypeV::Array(Box::new(type_view(*inner))),
        HulkType::SelfType => TypeV::SelfType,
        HulkType::Error => TypeV::Error,
        HulkType::Unknown => TypeV::Unknown,
        HulkType::Object => TypeV::Object,
    }
}

impl View for HulkType {
    type V = TypeV;

    open spec fn view(&self) -> TypeV {
        type_view(*self)
    }
}

/// The printed name of a type.
pub open spec fn spec_type_name(t: TypeV) -> Seq<char>
    decreases t,
{
    match t {
        TypeV::Number => "Number"@,
        TypeV::Str => "String"@,
        TypeV::Boolean => "Boolean"@,
        TypeV::Void => "Void"@,
        TypeV::Object => "Object"@,
        TypeV::Class(name) => name,
        TypeV::Array(inner) => spec_type_name(*inner) + "[]"@,
        TypeV::SelfType => "Self"@,
        TypeV::Error => "<error>"@,
        TypeV::Unknown => "<unknown>"@,
    }
}

/// The type that a type annotation names.
pub open spec fn spec_from_name(name: Seq<char>) -> TypeV {
    if name == "Number"@ {
        TypeV::Number
    } else if name == "String"@ {
        TypeV::Str
    } else if name == "Boolean"@ || name == "Bool"@ {
        TypeV::Boolean
    } else if name == "Void"@ {
        TypeV::Void
    } else if name == "Object"@ {
        TypeV::Object
    } else {
        TypeV::Class(name)
    }
}

pub open spec fn spec_is_resolved(t: TypeV) -> bool {
    !(t is Unknown) && !(t is Error)
}

impl HulkType {
    /// Returns `true` if this is the error sentinel (used for recovery).
    pub fn is_error(&self) -> (r: bool)
        ensures
            r == (self@ is Error),
    {
        matches!(self, HulkType::Error)
    }

    /// Returns `true` if this is a concrete (fully resolved) type.
    pub fn is_resolved(&self) -> (r: bool)
        ensures
            r == spec_is_resolved(self@),
    {
        !matches!(self, HulkType::Unknown | HulkType::Error)
    }

    /// A copy of this type.
    pub fn duplicate(&self) -> (r: HulkType)
        ensures
            r == *self,
        decreases self,
    {
        match self {
            HulkType::Number => HulkType::Number,
            HulkType::String => HulkType::String,
            HulkType::Boolean => HulkType::Boolean,
            HulkType::Void => HulkType::Void,
            HulkType::Class(n) => HulkType::Class(n.clone()),
            HulkType::Array(inner) => HulkType::Array(Box::new(inner.duplicate())),
            HulkType::SelfType => HulkType::SelfType,
            HulkType::Error => HulkType::Error,
            HulkType::Unknown => HulkType::Unknown,
            HulkType::Object => HulkType::Object,
        }
    }

    /// Structural equality of two types.
    pub fn same_as(&self, other: &HulkType) -> (r: bool)
        ensures
            r == (self@ == other@),
        decreases self,
    {
        match (self, other) {
            (HulkType::Number, HulkType::Number) => true,
            (HulkType::String, HulkType::String) => true,
            (HulkType::Boolean, HulkType::Boolean) => true,
            (HulkType::Void, HulkType::Void) => true,
            (HulkType::Class(a), HulkType::Class(b)) => {
                let r = *a == *b;
                assert(r == (a@ == b@));
                r
            },
            (HulkType::Array(a), HulkType::Array(b)) => {
                let r = a.same_as(b);
                proof {
                    if !r {
                        assert(type_view(**a) != type_view(**b));
                        if self@ == other@ {
                            assert(TypeV::Array(Box::new(type_view(**a))) == TypeV::Array(
                                Box::new(type_view(**b)),
                            ));
                        }
                    }
                }
                r
            },
            (HulkType::SelfType, HulkType::SelfType) => true,
            (HulkType::Error, HulkType::Error) => true,
            (HulkType::Unknown, HulkType::Unknown) => true,
            (HulkType::Object, HulkType::Object) => true,
            _ => {
                assert(self@ != other@);
                false
            },
        }
    }

    /// Returns the human-readable name of this type.
    pub fn display_name(&self) -> (r: std::string::String)
        ensures
            r@ == spec_type_name(self@),
        decreases self,
    {
        match self {
            HulkType::Number => std::string::String::from_str("Number"),
            HulkType::String => std::string::String::from_str("String"),
            HulkType::Boolean => std::string::String::from_str("Boolean"),
            HulkType::Void => std::string::String::from_str("Void"),
            HulkType::Object => std::string::String::from_str("Object"),
            HulkType::Class(name) => name.clone(),
            HulkType::Array(inner) => {
                let mut s = inner.display_name();
                s.append("[]");
                s
            },
            HulkType::SelfType => std::string::String::from_str("Self"),
            HulkType::Error => std::string::String::from_str("<error>"),
            HulkType::Unknown => std::string::String::from_str("<unknown>"),
        }
    }

    /// Converts a type-annotation string from the AST into a HulkType.
    pub fn from_name(name: &str) -> (r: HulkType)
        ensures
            r@ == spec_from_name(name@),
    {
        if str_eq(name, "Number") {
            HulkType::Number
        } else if str_eq(name, "String") {
            HulkType::String
        } else if str_eq(name, "Boolean") || str_eq(name, "Bool") {
            HulkType::Boolean
        } else if str_eq(name, "Void") {
            HulkType::Void
        } else if str_eq(name, "Object") {
            HulkType::Object
        } else {
            HulkType::Class(name.to_owned())
        }
    }
}

} // verus!
