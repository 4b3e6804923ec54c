//! Value objects: literals, language-tagged strings and JSON literals, with
//! their type and the keys of their entries.
use vstd::prelude::*;
use crate::json::{Json, JsonView};
use crate::syntax::{keyword_text, Direction, Keyword};

verus! {

/// Type of a value object: `@json`, or a datatype IRI.
#[derive(Clone, PartialEq, Eq, Hash, Debug)]
pub enum Type<T> {
    /// A JSON literal.
    Json,
    /// A datatype given by an IRI.
    Id(T),
}

/// Borrowed type of a value object.
#[derive(Clone, Copy, PartialEq, Eq, Hash, Debug)]
pub enum TypeRef<'a, T> {
    /// A JSON literal.
    Json,
    /// A datatype given by an IRI.
    Id(&'a T),
}

/// Type mapping of a term definition, as written in a context.
#[derive(Clone, Copy, PartialEq, Eq, Hash, Debug)]
pub enum SyntaxType<T> {
    /// `@id`.
    Id,
    /// `@json`.
    Json,
    /// `@none`.
    Nothing,
    /// `@vocab`.
    Vocab,
    /// An IRI.
    Iri(T),
}

impl<'a, T> TypeRef<'a, T> {
    /// Converts this value type into the more general term type used by
    /// context definitions.
    pub fn as_syntax_type(&self) -> (t: SyntaxType<&'a T>)
        ensures
            match *self {
                TypeRef::Json => t == SyntaxType::<&'a T>::Json,
                TypeRef::Id(i) => t == SyntaxType::<&'a T>::Iri(i),
            },
    {
        match self {
            TypeRef::Json => SyntaxType::Json,
            TypeRef::Id(id) => SyntaxType::Iri(*id),
        }
    }

    /// Returns the IRI naming this type, or `None` for the `@json` type,
    /// which names a literal rather than a node.
    pub fn into_reference(self) -> (r: Option<&'a T>)
        ensures
            match self {
                TypeRef::Json => r is None,
                TypeRef::Id(i) => r == Some(i),
            },
    {
        match self {
            TypeRef::Json => None,
            TypeRef::Id(t) => Some(t),
        }
    }
}

/// Key of a value object entry.
#[derive(Clone, Copy, PartialEq, Eq, Structural, Hash, Debug)]
pub enum EntryKey {
    /// `@value`.
    Value,
    /// `@type`.
    Type,
    /// `@language`.
    Language,
    /// `@direction`.
    Direction,
}

impl EntryKey {
    /// The keyword this key stands for.
    pub open spec fn keyword_spec(self) -> Keyword {
        match self {
            EntryKey::Value => Keyword::Value,
            EntryKey::Type => Keyword::Type,
            EntryKey::Language => Keyword::Language,
            EntryKey::Direction => Keyword::Direction,
        }
    }

    /// Returns the JSON-LD keyword this key stands for.
    pub fn into_keyword(self) -> (k: Keyword)
        ensures
            k == self.keyword_spec(),
    {
        match self {
            EntryKey::Value => Keyword::Value,
            EntryKey::Type => Keyword::Type,
            EntryKey::Language => Keyword::Language,
            EntryKey::Direction => Keyword::Direction,
        }
    }

    /// Returns the key as a string slice.
    pub fn into_str(&self) -> (s: &'static str)
        ensures
            s@ == keyword_text(self.keyword_spec()),
    {
        self.into_keyword().into_str()
    }

    /// Returns the key as a string slice.
    pub fn as_str(&self) -> (s: &'static str)
        ensures
            s@ == keyword_text(self.keyword_spec()),
    {
        self.into_str()
    }
}

/// Literal value.
#[derive(Debug)]
pub enum Literal {
    /// The `null` value.
    Null,
    /// Boolean value.
    Boolean(bool),
    /// Number, by its lexical form.
    Number(String),
    /// String.
    String(String),
}

/// The JSON value a literal stands for.
pub open spec fn literal_json(l: Literal) -> JsonView {
    match l {
        Literal::Null => JsonView::Null,
        Literal::Boolean(b) => JsonView::Boolean(b),
        Literal::Number(n) => JsonView::Number(n@),
        Literal::String(s) => JsonView::String(s@),
    }
}

impl Literal {
    /// Returns this value as a string if it is one.
    pub fn as_str(&self) -> (r: Option<&str>)
        ensures
            match *self {
                Literal::String(s) => r matches Some(t) && t@ == s@,
                _ => r is None,
            },
    {
        match self {
            Literal::String(s) => Some(s.as_str()),
            _ => None,
        }
    }

    /// Returns this value as a boolean if it is one.
    pub fn as_bool(&self) -> (r: Option<bool>)
        ensures
            match *self {
                Literal::Boolean(b) => r == Some(b),
                _ => r is None,
            },
    {
        match self {
            Literal::Boolean(b) => Some(*b),
            _ => None,
        }
    }

    /// Returns this value as a number if it is one.
    pub fn as_number(&self) -> (r: Option<&String>)
        ensures
            match *self {
                Literal::Number(n) => r == Some(&n),
                _ => r is None,
            },
    {
        match self {
            Literal::Number(n) => Some(n),
            _ => None,
        }
    }

    /// Converts the literal into the equivalent JSON value.
    pub fn into_json(self) -> (j: Json)
        ensures
            j@ == literal_json(self),
    {
        match self {
            Literal::Null => Json::Null,
            Literal::Boolean(b) => Json::Boolean(b),
            Literal::Number(n) => Json::Number(n),
            Literal::String(s) => Json::String(s),
        }
    }
}

/// A string tagged with a language, a base direction, or both.
#[derive(Debug)]
pub struct LangString {
    data: String,
    language: Option<String>,
    direction: Option<Direction>,
}

impl LangString {
    /// A language-tagged string carries a language or a direction.
    #[verifier::type_invariant]
    spec fn tagged(self) -> bool {
        self.language is Some || self.direction is Some
    }

    /// The string.
    pub closed spec fn data_spec(self) -> Seq<char> {
        self.data@
    }

    /// The language tag, if any.
    pub closed spec fn language_spec(self) -> Option<Seq<char>> {
        match self.language {
            Some(l) => Some(l@),
            None => None,
        }
    }

    /// The base direction, if any.
    pub closed spec fn direction_spec(self) -> Option<Direction> {
        self.direction
    }

    /// Tags `data` with `language` and `direction`; there must be at least
    /// one of them, else `data` is handed back.
    pub fn new(data: String, language: Option<String>, direction: Option<Direction>) -> (r: Result<LangString, String>)
        ensures
            language is None && direction is None ==> r == Err::<LangString, String>(data),
            language is Some || direction is Some ==> (r matches Ok(s) && s.data_spec() == data@
                && s.language_spec() == (match language { Some(l) => Some(l@), None => None::<Seq<char>> })
                && s.direction_spec() == direction),
    {
        if language.is_none() && direction.is_none() {
            Err(data)
        } else {
            Ok(LangString { data, language, direction })
        }
    }

    /// The string.
    pub fn as_str(&self) -> (s: &str)
        ensures
            s@ == self.data_spec(),
    {
        self.data.as_str()
    }

    /// The language tag, if any.
    pub fn language(&self) -> (r: Option<&String>)
        ensures
            match self.language_spec() {
                Some(l) => r matches Some(t) && t@ == l,
                None => r is None,
            },
    {
        match &self.language {
            Some(l) => Some(l),
            None => None,
        }
    }

    /// The base direction, if any.
    pub fn direction(&self) -> (r: Option<Direction>)
        ensures
            r == self.direction_spec(),
    {
        self.direction
    }

    /// Whether the string carries a language or a direction; always true.
    pub fn is_tagged(&self) -> (b: bool)
        ensures
            b,
            self.language_spec() is Some || self.direction_spec() is Some,
    {
        proof {
            use_type_invariant(self);
        }
        self.language.is_some() || self.direction.is_some()
    }
}

/// Value object: a typed literal, a language-tagged string, or a JSON
/// literal.
#[derive(Debug)]
pub enum Value<T> {
    /// Typed literal value, with its datatype IRI if any.
    Literal(Literal, Option<T>),
    /// Language-tagged string.
    LangString(LangString),
    /// JSON literal value.
    Json(Json),
}

impl<T> Value<T> {
    /// Creates a `null` value object.
    pub fn null() -> (v: Self)
        ensures
            v == Value::<T>::Literal(Literal::Null, None),
    {
        Value::Literal(Literal::Null, None)
    }

    /// Returns this value as a string slice.
    pub fn as_str(&self) -> (r: Option<&str>)
        ensures
            match *self {
                Value::Literal(Literal::String(s), _) => r matches Some(t) && t@ == s@,
                Value::LangString(s) => r matches Some(t) && t@ == s.data_spec(),
                _ => r is None,
            },
    {
        match self {
            Value::Literal(lit, _) => lit.as_str(),
            Value::LangString(s) => Some(s.as_str()),
            Value::Json(_) => None,
        }
    }

    /// Returns the literal and its type, if this is a typed literal value.
    pub fn as_literal(&self) -> (r: Option<(&Literal, Option<&T>)>)
        ensures
            match *self {
                Value::Literal(l, ty) => r matches Some((m, u)) && *m == l
                    && u == (match ty { Some(t) => Some(&t), None => None::<&T> }),
                _ => r is None,
            },
    {
        match self {
            Value::Literal(lit, ty) => Some((lit, ty.as_ref())),
            _ => None,
        }
    }

    /// Returns the `@type` IRI of this value, if it is a typed literal with
    /// one.
    pub fn literal_type(&self) -> (r: Option<&T>)
        ensures
            match *self {
                Value::Literal(_, Some(t)) => r == Some(&t),
                _ => r is None,
            },
    {
        match self {
            Value::Literal(_, ty) => ty.as_ref(),
            _ => None,
        }
    }

    /// Sets the `@type` IRI of a typed literal value, returning the type it
    /// replaced. Has no effect, and returns `None`, if the value is not a
    /// typed literal.
    pub fn set_literal_type(&mut self, ty: Option<T>) -> (r: Option<T>)
        ensures
            match *old(self) {
                Value::Literal(l, old_ty) => r == old_ty && *final(self) == Value::<T>::Literal(l, ty),
                _ => r is None && *final(self) == *old(self),
            },
    {
        match self {
            Value::Literal(_, old_ty) => {
                let mut t = ty;
                std::mem::swap(old_ty, &mut t);
                t
            },
            _ => None,
        }
    }

    /// Returns the value as a boolean, if it is a literal holding one.
    pub fn as_bool(&self) -> (r: Option<bool>)
        ensures
            match *self {
                Value::Literal(Literal::Boolean(b), _) => r == Some(b),
                _ => r is None,
            },
    {
        match self {
            Value::Literal(lit, _) => lit.as_bool(),
            _ => None,
        }
    }

    /// Returns the value as a number, if it is a literal holding one.
    pub fn as_number(&self) -> (r: Option<&String>)
        ensures
            match *self {
                Value::Literal(Literal::Number(n), _) => r == Some(&n),
                _ => r is None,
            },
    {
        match self {
            Value::Literal(lit, _) => lit.as_number(),
            _ => None,
        }
    }

    /// Returns the `@type` of the value, if it has one: JSON literals have
    /// `@json`, language-tagged strings none.
    pub fn typ(&self) -> (r: Option<TypeRef<'_, T>>)
        ensures
            match *self {
                Value::Literal(_, Some(t)) => r == Some(TypeRef::Id(&t)),
                Value::Json(_) => r == Some(TypeRef::<'_, T>::Json),
                _ => r is None,
            },
    {
        match self {
            Value::Literal(_, Some(ty)) => Some(TypeRef::Id(ty)),
            Value::Json(_) => Some(TypeRef::Json),
            _ => None,
        }
    }

    /// Returns the `@language` of the value, if it is a language-tagged
    /// string carrying one.
    pub fn language(&self) -> (r: Option<&String>)
        ensures
            match *self {
                Value::LangString(s) => match s.language_spec() {
                    Some(l) => r matches Some(t) && t@ == l,
                    None => r is None,
                },
                _ => r is None,
            },
    {
        match self {
            Value::LangString(s) => s.language(),
            _ => None,
        }
    }

    /// Returns the `@direction` of the value, if it is a language-tagged
    /// string carrying one.
    pub fn direction(&self) -> (r: Option<Direction>)
        ensures
            match *self {
                Value::LangString(s) => r == s.direction_spec(),
                _ => r is None,
            },
    {
        match self {
            Value::LangString(s) => s.direction(),
            _ => None,
        }
    }
}

} // verus!
