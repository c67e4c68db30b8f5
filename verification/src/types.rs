use vstd::prelude::*;

verus! {

/// The types of the test language.
#[derive(Debug, PartialEq, Eq)]
pub enum Type {
    String,
    Regex,
    Int,
    Float,
    Bool,
    Nothing,
    Iterable(Box<Type>),
    Any,
}

/// The type that a type keyword of the language names, if it names one.
pub open spec fn type_named(name: Seq<char>) -> Option<Type> {
    if name == seq!['s', 't', 'r', 'i', 'n', 'g'] {
        Some(Type::String)
    } else if name == seq!['r', 'e', 'g', 'e', 'x'] {
        Some(Type::Regex)
    } else if name == seq!['i', 'n', 't'] {
        Some(Type::Int)
    } else if name == seq!['f', 'l', 'o', 'a', 't'] {
        Some(Type::Float)
    } else if name == seq!['b', 'o', 'o', 'l'] {
        Some(Type::Bool)
    } else if name == seq!['n', 'o', 'n', 'e'] {
        Some(Type::Nothing)
    } else {
        None
    }
}

/// Whether a value of type `from` may be cast to type `to`.
pub open spec fn castable(from: Type, to: Type) -> bool {
    if to == Type::String {
        true
    } else {
        match from {
            Type::String => to == Type::Int || to == Type::Float || to == Type::Bool,
            Type::Int => to == Type::Float || to == Type::Bool,
            Type::Float => to == Type::Int || to == Type::Bool,
            Type::Bool => to == Type::Int || to == Type::Float,
            _ => false,
        }
    }
}

/// Every type casts to a text; otherwise a cast goes from one of text, integer,
/// float and boolean to a different one of integer, float and boolean, and from no
/// other type.
pub proof fn law_casts(from: Type, to: Type)
    ensures
        castable(from, Type::String),
        to != Type::String ==> (castable(from, to) <==> (from != to && (from == Type::String || from
            == Type::Int || from == Type::Float || from == Type::Bool) && (to == Type::Int || to == Type::Float
            || to == Type::Bool))),
{
}

impl Clone for Type {
    fn clone(&self) -> (r: Type)
        ensures
            r == *self,
    {
        self.duplicate()
    }
}

impl Type {
    /// A copy of this type.
    pub fn duplicate(&self) -> (r: Type)
        ensures
            r == *self,
        decreases self,
    {
        match self {
            Type::String => Type::String,
            Type::Regex => Type::Regex,
            Type::Int => Type::Int,
            Type::Float => Type::Float,
            Type::Bool => Type::Bool,
            Type::Nothing => Type::Nothing,
            Type::Iterable(inner) => Type::Iterable(Box::new(inner.duplicate())),
            Type::Any => Type::Any,
        }
    }

    /// Whether this type is the same as `other`.
    pub fn same(&self, other: &Type) -> (r: bool)
        ensures
            r == (*self == *other),
        decreases self,
    {
        match (self, other) {
            (Type::String, Type::String) => true,
            (Type::Regex, Type::Regex) => true,
            (Type::Int, Type::Int) => true,
            (Type::Float, Type::Float) => true,
            (Type::Bool, Type::Bool) => true,
            (Type::Nothing, Type::Nothing) => true,
            (Type::Iterable(a), Type::Iterable(b)) => a.same(b),
            (Type::Any, Type::Any) => true,
            _ => false,
        }
    }

    /// The type named by a type keyword; `value` must be one of them.
    pub fn from(value: &str) -> (r: Type)
        requires
            type_named(value@) is Some,
        ensures
            Some(r) == type_named(value@),
    {
        let chars = crate::text::chars_of(value);
        proof {
            reveal_strlit("string");
            reveal_strlit("regex");
            reveal_strlit("int");
            reveal_strlit("float");
            reveal_strlit("bool");
            assert("string"@ =~= seq!['s', 't', 'r', 'i', 'n', 'g']);
            assert("regex"@ =~= seq!['r', 'e', 'g', 'e', 'x']);
            assert("int"@ =~= seq!['i', 'n', 't']);
            assert("float"@ =~= seq!['f', 'l', 'o', 'a', 't']);
            assert("bool"@ =~= seq!['b', 'o', 'o', 'l']);
        }
        if crate::text::chars_equal(&chars, "string") {
            Type::String
        } else if crate::text::chars_equal(&chars, "regex") {
            Type::Regex
        } else if crate::text::chars_equal(&chars, "int") {
            Type::Int
        } else if crate::text::chars_equal(&chars, "float") {
            Type::Float
        } else if crate::text::chars_equal(&chars, "bool") {
            Type::Bool
        } else {
            Type::Nothing
        }
    }

    /// Whether a value of this type may be cast to `other`.
    pub fn can_cast_to(&self, other: &Type) -> (r: bool)
        ensures
            r == castable(*self, *other),
    {
        if matches!(other, Type::String) {
            return true;
        }
        match self {
            Type::String => matches!(other, Type::Int | Type::Float | Type::Bool),
            Type::Int => matches!(other, Type::Float | Type::Bool),
            Type::Float => matches!(other, Type::Int | Type::Bool),
            Type::Bool => matches!(other, Type::Int | Type::Float),
            _ => false,
        }
    }

    /// Whether a `for` loop can iterate over a value of this type.
    pub fn is_iterable(&self) -> (r: bool)
        ensures
            r == (*self is Regex),
    {
        matches!(self, Type::Regex)
    }

    /// The type of the items of an iterable type.
    pub fn get_iterable_inner_type(&self) -> (r: Type)
        requires
            *self is Regex || *self is Iterable,
        ensures
            *self is Regex ==> r == Type::String,
            *self is Iterable ==> r == *self->Iterable_0,
    {
        match self {
            Type::Regex => Type::String,
            Type::Iterable(inner) => inner.duplicate(),
            _ => Type::Any,
        }
    }
}

} // verus!
