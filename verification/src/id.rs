//! Node identifiers, valid or not, and the terms they expand to.
use vstd::prelude::*;
use crate::iri::{blank_id_valid, iri_valid, is_blank_id, is_iri};
use crate::syntax::{keyword_text, Keyword};

verus! {

/// Valid node identifier (IRI or blank node).
#[derive(Clone, PartialEq, Eq, Hash, Debug)]
pub enum ValidId<I, B> {
    /// An IRI.
    Iri(I),
    /// A blank node identifier.
    Blank(B),
}

impl<I, B> ValidId<I, B> {
    /// Checks whether this identifier is a blank node identifier.
    pub fn is_blank(&self) -> (b: bool)
        ensures
            b == (*self is Blank),
    {
        match self {
            ValidId::Blank(_) => true,
            _ => false,
        }
    }

    /// Checks whether this identifier is an IRI.
    pub fn is_iri(&self) -> (b: bool)
        ensures
            b == (*self is Iri),
    {
        match self {
            ValidId::Iri(_) => true,
            _ => false,
        }
    }
}

/// Node identifier: a valid one, or a string that is neither an IRI nor a
/// blank node identifier.
#[derive(Clone, PartialEq, Eq, Hash, Debug)]
pub enum Id<I, B> {
    /// Valid node identifier.
    Valid(ValidId<I, B>),
    /// Invalid reference.
    Invalid(String),
}

impl<I, B> Id<I, B> {
    /// Builds an identifier from an IRI.
    pub fn iri(iri: I) -> (id: Self)
        ensures
            id == Id::<I, B>::Valid(ValidId::Iri(iri)),
    {
        Id::Valid(ValidId::Iri(iri))
    }

    /// Builds an identifier from a blank node identifier.
    pub fn blank(b: B) -> (id: Self)
        ensures
            id == Id::<I, B>::Valid(ValidId::Blank(b)),
    {
        Id::Valid(ValidId::Blank(b))
    }

    /// Borrows this identifier as an IRI, if it is one.
    pub fn as_iri(&self) -> (r: Option<&I>)
        ensures
            match *self {
                Id::Valid(ValidId::Iri(i)) => r == Some(&i),
                _ => r is None,
            },
    {
        match self {
            Id::Valid(ValidId::Iri(i)) => Some(i),
            _ => None,
        }
    }
}

/// An identifier given by its text.
pub type IdBuf = Id<String, String>;

/// The text of an identifier.
pub open spec fn id_text(id: IdBuf) -> Seq<char> {
    match id {
        Id::Valid(ValidId::Iri(i)) => i@,
        Id::Valid(ValidId::Blank(b)) => b@,
        Id::Invalid(s) => s@,
    }
}

/// The identifier a string reads as: an IRI if it is one, else a blank node
/// identifier if it is one, else an invalid reference.
pub open spec fn id_of(s: Seq<char>, text: String) -> IdBuf {
    if iri_valid(s) {
        Id::Valid(ValidId::Iri(text))
    } else if blank_id_valid(s) {
        Id::Valid(ValidId::Blank(text))
    } else {
        Id::Invalid(text)
    }
}

impl Id<String, String> {
    /// Parses an identifier from a string, keeping it as invalid if it is
    /// neither an IRI nor a blank node identifier.
    pub fn from_string(s: String) -> (id: IdBuf)
        ensures
            id == id_of(s@, s),
            id_text(id) == s@,
    {
        if is_iri(s.as_str()) {
            Id::Valid(ValidId::Iri(s))
        } else if is_blank_id(s.as_str()) {
            Id::Valid(ValidId::Blank(s))
        } else {
            Id::Invalid(s)
        }
    }

    /// Returns the text of this identifier.
    pub fn as_str(&self) -> (s: &str)
        ensures
            s@ == id_text(*self),
    {
        match self {
            Id::Valid(ValidId::Iri(i)) => i.as_str(),
            Id::Valid(ValidId::Blank(b)) => b.as_str(),
            Id::Invalid(s) => s.as_str(),
        }
    }
}

/// What a term expands to: `null`, a keyword, or a node identifier.
#[derive(Clone, PartialEq, Eq, Hash, Debug)]
pub enum Term<T, B> {
    /// `null`.
    Null,
    /// A keyword.
    Keyword(Keyword),
    /// A node identifier.
    Id(Id<T, B>),
}

/// A term whose identifiers are given by their text.
pub type TermBuf = Term<String, String>;

/// The text of a term, as it is written in a document; `null` has none.
pub open spec fn term_text(t: TermBuf) -> Seq<char> {
    match t {
        Term::Null => Seq::empty(),
        Term::Keyword(k) => keyword_text(k),
        Term::Id(id) => id_text(id),
    }
}

impl<T, B> Term<T, B> {
    /// Checks whether the term is `null`.
    pub fn is_null(&self) -> (b: bool)
        ensures
            b == (*self is Null),
    {
        match self {
            Term::Null => true,
            _ => false,
        }
    }

    /// Checks whether the term is a keyword.
    pub fn is_keyword(&self) -> (b: bool)
        ensures
            b == (*self is Keyword),
    {
        match self {
            Term::Keyword(_) => true,
            _ => false,
        }
    }

    /// Borrows the term as an IRI, if it is one.
    pub fn as_iri(&self) -> (r: Option<&T>)
        ensures
            match *self {
                Term::Id(Id::Valid(ValidId::Iri(i))) => r == Some(&i),
                _ => r is None,
            },
    {
        match self {
            Term::Id(id) => id.as_iri(),
            _ => None,
        }
    }
}

impl Term<String, String> {
    /// Returns the text of this term; `null` has the empty text.
    pub fn as_str(&self) -> (s: &str)
        ensures
            s@ == term_text(*self),
    {
        match self {
            Term::Null => {
                proof { reveal_strlit(""); }
                ""
            },
            Term::Keyword(k) => k.into_str(),
            Term::Id(id) => id.as_str(),
        }
    }
}

/// Error raised when an identifier generator yields a term that is neither
/// an IRI nor a blank node identifier.
#[derive(Debug, Clone, Copy, PartialEq, Eq, Structural)]
pub enum GeneratedIdError {
    /// The generator yielded an unsupported kind of term.
    UnsupportedTerm,
}

} // verus!
