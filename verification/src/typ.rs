//! Types of node and value objects.
use vstd::prelude::*;
use crate::id::{Id, ValidId};
use crate::value;

verus! {

/// Type of a node or value object.
#[derive(Clone, PartialEq, Eq, Hash, Debug)]
pub enum Type<T, B> {
    /// A JSON literal.
    Json,
    /// A type given by an IRI.
    Id(T),
    /// A blank node identifier.
    Blank(B),
    /// The value is invalid.
    Invalid(String),
}

impl<T, B> Type<T, B> {
    /// Builds a type from the type of a value object.
    pub fn from_value_type(value_ty: value::Type<T>) -> (t: Self)
        ensures
            match value_ty {
                value::Type::Json => t == Type::<T, B>::Json,
                value::Type::Id(id) => t == Type::<T, B>::Id(id),
            },
    {
        match value_ty {
            value::Type::Json => Type::Json,
            value::Type::Id(id) => Type::Id(id),
        }
    }

    /// Builds a type from a node identifier.
    pub fn from_reference(r: Id<T, B>) -> (t: Self)
        ensures
            match r {
                Id::Valid(ValidId::Iri(i)) => t == Type::<T, B>::Id(i),
                Id::Valid(ValidId::Blank(b)) => t == Type::<T, B>::Blank(b),
                Id::Invalid(s) => t == Type::<T, B>::Invalid(s),
            },
    {
        match r {
            Id::Valid(ValidId::Iri(id)) => Type::Id(id),
            Id::Valid(ValidId::Blank(id)) => Type::Blank(id),
            Id::Invalid(id) => Type::Invalid(id),
        }
    }

    /// Consumes this type, returning the node identifier it names; the
    /// `@json` type names none and is handed back.
    pub fn into_reference(self) -> (r: Result<Id<T, B>, Self>)
        ensures
            match self {
                Type::Json => r == Err::<Id<T, B>, Self>(self),
                Type::Id(i) => r == Ok::<Id<T, B>, Self>(Id::Valid(ValidId::Iri(i))),
                Type::Blank(b) => r == Ok::<Id<T, B>, Self>(Id::Valid(ValidId::Blank(b))),
                Type::Invalid(s) => r == Ok::<Id<T, B>, Self>(Id::Invalid(s)),
            },
    {
        match self {
            Type::Id(id) => Ok(Id::Valid(ValidId::Iri(id))),
            Type::Blank(id) => Ok(Id::Valid(ValidId::Blank(id))),
            Type::Invalid(id) => Ok(Id::Invalid(id)),
            typ => Err(typ),
        }
    }

    /// Borrows this type as IRI, if it is one.
    pub fn as_iri(&self) -> (r: Option<&T>)
        ensures
            match *self {
                Type::Id(i) => r == Some(&i),
                _ => r is None,
            },
    {
        match self {
            Type::Id(id) => Some(id),
            _ => None,
        }
    }

    /// Borrows this type.
    pub fn as_type_ref(&self) -> (r: TypeRef<'_, T, B>)
        ensures
            r.refers_to(*self),
    {
        match self {
            Type::Json => TypeRef::Json,
            Type::Id(id) => TypeRef::Id(id),
            Type::Blank(id) => TypeRef::Blank(id),
            Type::Invalid(id) => TypeRef::Invalid(id.as_str()),
        }
    }
}

/// Spelling of a type whose identifiers are given by their text.
pub open spec fn type_text(t: Type<String, String>) -> Seq<char> {
    match t {
        Type::Json => seq!['@', 'j', 's', 'o', 'n'],
        Type::Id(i) => i@,
        Type::Blank(b) => b@,
        Type::Invalid(s) => s@,
    }
}

impl Type<String, String> {
    /// Returns this type as a string slice.
    pub fn as_str(&self) -> (s: &str)
        ensures
            s@ == type_text(*self),
    {
        match self {
            Type::Json => {
                proof { reveal_strlit("@json"); }
                "@json"
            },
            Type::Id(id) => id.as_str(),
            Type::Blank(id) => id.as_str(),
            Type::Invalid(id) => id.as_str(),
        }
    }
}

/// Borrowed type of a node or value object.
#[derive(Clone, Copy, PartialEq, Eq, Hash, Debug)]
pub enum TypeRef<'a, T, B> {
    /// A JSON literal.
    Json,
    /// A type given by an IRI.
    Id(&'a T),
    /// A blank node identifier.
    Blank(&'a B),
    /// The value is invalid.
    Invalid(&'a str),
}

impl<'a, T, B> TypeRef<'a, T, B> {
    /// Whether this borrowed type stands for the owned type `t`.
    pub open spec fn refers_to(self, t: Type<T, B>) -> bool {
        match (self, t) {
            (TypeRef::Json, Type::Json) => true,
            (TypeRef::Id(a), Type::Id(b)) => *a == b,
            (TypeRef::Blank(a), Type::Blank(b)) => *a == b,
            (TypeRef::Invalid(a), Type::Invalid(b)) => a@ == b@,
            _ => false,
        }
    }

    /// Builds a borrowed type from the type of a value object.
    pub fn from_value_type(value_ty: value::TypeRef<'a, T>) -> (t: Self)
        ensures
            match value_ty {
                value::TypeRef::Json => t == TypeRef::<'a, T, B>::Json,
                value::TypeRef::Id(id) => t == TypeRef::<'a, T, B>::Id(id),
            },
    {
        match value_ty {
            value::TypeRef::Json => TypeRef::Json,
            value::TypeRef::Id(id) => TypeRef::Id(id),
        }
    }

    /// Builds a borrowed type from a node identifier.
    pub fn from_reference(r: &'a Id<T, B>) -> (t: Self)
        ensures
            match *r {
                Id::Valid(ValidId::Iri(i)) => t == TypeRef::<'a, T, B>::Id(&i),
                Id::Valid(ValidId::Blank(b)) => t == TypeRef::<'a, T, B>::Blank(&b),
                Id::Invalid(s) => t is Invalid && t->Invalid_0@ == s@,
            },
    {
        match r {
            Id::Valid(ValidId::Iri(id)) => TypeRef::Id(id),
            Id::Valid(ValidId::Blank(id)) => TypeRef::Blank(id),
            Id::Invalid(id) => TypeRef::Invalid(id.as_str()),
        }
    }

    /// Borrows this type as IRI, if it is one.
    pub fn as_iri(&self) -> (r: Option<&'a T>)
        ensures
            match *self {
                TypeRef::Id(i) => r == Some(i),
                _ => r is None,
            },
    {
        match self {
            TypeRef::Id(id) => Some(*id),
            _ => None,
        }
    }
}

impl<'a> TypeRef<'a, String, String> {
    /// Clones this borrowed type into an owned one.
    pub fn cloned(self) -> (t: Type<String, String>)
        ensures
            self.refers_to(t),
            match self {
                TypeRef::Json => t is Json,
                TypeRef::Id(i) => t == Type::<String, String>::Id(*i),
                TypeRef::Blank(b) => t == Type::<String, String>::Blank(*b),
                TypeRef::Invalid(s) => t is Invalid && t->Invalid_0@ == s@,
            },
    {
        match self {
            TypeRef::Json => Type::Json,
            TypeRef::Id(id) => Type::Id(id.clone()),
            TypeRef::Blank(id) => Type::Blank(id.clone()),
            TypeRef::Invalid(id) => Type::Invalid(id.to_string()),
        }
    }

    /// Returns this value as a string slice.
    pub fn as_str(&self) -> (s: &str)
        ensures
            forall|t: Type<String, String>| self.refers_to(t) ==> s@ == type_text(t),
    {
        match self {
            TypeRef::Json => {
                proof { reveal_strlit("@json"); }
                "@json"
            },
            TypeRef::Id(id) => id.as_str(),
            TypeRef::Blank(id) => id.as_str(),
            TypeRef::Invalid(id) => *id,
        }
    }
}

} // verus!
