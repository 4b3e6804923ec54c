//! Options, warnings and literals of the RDF serialization.
use vstd::prelude::*;
use crate::compaction::direction_text;
use crate::expand::concat;
use crate::iri::{iri_equivalent, iri_eq, iri_valid, is_iri};
use crate::syntax::Direction;
use crate::text::{chars_eq, chars_of};
use crate::value::{Literal, Value};

verus! {

broadcast use vstd::string::group_string_axioms;

/// How a language-tagged string's base direction is encoded in RDF.
#[derive(Clone, Copy, PartialEq, Eq, Structural, PartialOrd, Ord, Hash, Debug)]
pub enum RdfDirection {
    /// Encode direction in the datatype IRI, under the
    /// `https://www.w3.org/ns/i18n#` prefix.
    I18nDatatype,
    /// Encode the direction with a compound literal value.
    CompoundLiteral,
}

/// Error raised when a string names no RDF direction encoding; it carries
/// the string.
#[derive(Debug, Clone)]
pub struct InvalidRdfDirection(pub String);

/// The encoding that `s` names, if any.
pub open spec fn rdf_direction_named(s: Seq<char>) -> Option<RdfDirection> {
    if s == "i18n-datatype"@ {
        Some(RdfDirection::I18nDatatype)
    } else if s == "compound-literal"@ {
        Some(RdfDirection::CompoundLiteral)
    } else {
        None
    }
}

impl RdfDirection {
    /// Parses `i18n-datatype` or `compound-literal`; any other string is
    /// refused and handed back in the error.
    pub fn parse(s: &str) -> (r: Result<RdfDirection, InvalidRdfDirection>)
        ensures
            r matches Ok(d) ==> rdf_direction_named(s@) == Some(d),
            r matches Err(e) ==> rdf_direction_named(s@) is None && e.0@ == s@,
    {
        let cs = chars_of(s);
        let a = chars_of("i18n-datatype");
        if chars_eq(&cs, &a) {
            return Ok(RdfDirection::I18nDatatype);
        }
        let b = chars_of("compound-literal");
        if chars_eq(&cs, &b) {
            return Ok(RdfDirection::CompoundLiteral);
        }
        Err(InvalidRdfDirection(s.to_string()))
    }
}

impl std::str::FromStr for RdfDirection {
    type Err = InvalidRdfDirection;

    fn from_str(s: &str) -> (r: Result<Self, Self::Err>)
        ensures
            r matches Ok(d) ==> rdf_direction_named(s@) == Some(d),
            r matches Err(e) ==> rdf_direction_named(s@) is None && e.0@ == s@,
    {
        RdfDirection::parse(s)
    }
}

/// Warning raised while serializing a document as RDF quads.
#[derive(Debug, Clone, Copy, PartialEq, Eq, Structural)]
pub enum Warning {
    /// A value could not be represented as an RDF term; the quad that
    /// would have carried it was dropped from the stream.
    ValueSerializationFailed,
}

impl Warning {
    /// The text describing the warning.
    pub fn message(&self) -> (s: String)
        ensures
            s@ == "value not representable as an RDF term, quad dropped"@,
    {
        "value not representable as an RDF term, quad dropped".to_string()
    }
}


/// Name for whether `s` is a well-formed language tag under the grammar of
/// the `langtag` crate.
pub uninterp spec fn lang_tag_valid(s: Seq<char>) -> bool;

/// Checks `s` with `langtag::LangTag::new`.
///
/// Trusted: the result is the named well-formedness of the text.
#[verifier::external_body]
fn is_lang_tag(s: &str) -> (b: bool)
    ensures
        b == lang_tag_valid(s@),
{
    langtag::LangTag::new(s).is_ok()
}

/// An RDF literal that a value object stands for.
#[derive(Debug, PartialEq)]
pub enum RdfLiteral {
    /// A lexical form with its datatype IRI.
    Typed(String, String),
    /// A lexical form with its language tag.
    LangString(String, String),
    /// A compound literal: a fresh blank node carries the value and the
    /// direction.
    Compound,
}

/// The view of an RDF literal.
pub enum RdfLiteralView {
    /// A lexical form with its datatype IRI.
    Typed(Seq<char>, Seq<char>),
    /// A lexical form with its language tag.
    LangString(Seq<char>, Seq<char>),
    /// A compound literal.
    Compound,
}

impl View for RdfLiteral {
    type V = RdfLiteralView;

    open spec fn view(&self) -> RdfLiteralView {
        match self {
            RdfLiteral::Typed(t, d) => RdfLiteralView::Typed(t@, d@),
            RdfLiteral::LangString(t, l) => RdfLiteralView::LangString(t@, l@),
            RdfLiteral::Compound => RdfLiteralView::Compound,
        }
    }
}

/// The datatype IRI of `xsd:double`.
pub open spec fn xsd_double() -> Seq<char> {
    "http://www.w3.org/2001/XMLSchema#double"@
}

/// The datatype IRI that an `i18n` encoding gives a string with the
/// direction `d` and, perhaps, the language tag `lang`.
pub open spec fn i18n_datatype(lang: Option<Seq<char>>, d: Direction) -> Seq<char> {
    match lang {
        Some(l) => "https://www.w3.org/ns/i18n#"@ + l + seq!['_'] + direction_text(d),
        None => "https://www.w3.org/ns/i18n#"@ + direction_text(d),
    }
}

/// Whether the datatype `ty` is `xsd:double`.
pub open spec fn is_xsd_double(ty: Option<Seq<char>>) -> bool {
    ty matches Some(t) && iri_valid(t) && iri_valid(xsd_double()) && iri_equivalent(t, xsd_double())
}

/// The lexical form and preferred datatype of a typed literal; `None` for
/// a number that must be written as a double when no such form is given.
pub open spec fn literal_form(
    lit: Literal,
    ty: Option<Seq<char>>,
    number_is_i64: bool,
    double_text: Option<Seq<char>>,
) -> Option<(Seq<char>, Option<Seq<char>>)> {
    match lit {
        Literal::Boolean(b) => Some((
            if b { "true"@ } else { "false"@ },
            Some("http://www.w3.org/2001/XMLSchema#boolean"@),
        )),
        Literal::Null => Some(("null"@, None)),
        Literal::Number(n) => if number_is_i64 && !is_xsd_double(ty) {
            Some((n@, Some("http://www.w3.org/2001/XMLSchema#integer"@)))
        } else {
            match double_text {
                Some(t) => Some((t, Some(xsd_double()))),
                None => None,
            }
        },
        Literal::String(s) => Some((s@, None)),
    }
}

/// The RDF literal that the value object `v` stands for, the base direction
/// of strings encoded as `dir` says:
/// - a JSON literal is its printed form `json_text` typed `rdf:JSON`;
/// - a language-tagged string with an ill-formed tag has none; one with a
///   direction under `i18n-datatype` is typed by [`i18n_datatype`], under
///   `compound-literal` is a compound literal, and otherwise is tagged with
///   its language, or typed `xsd:string` when it has none;
/// - a typed literal takes its datatype, else the one its kind prefers, else
///   `xsd:string`; a number is an `xsd:integer` when it reads as a 64-bit
///   integer and is not typed `xsd:double`, and otherwise the double form
///   `double_text`.
pub open spec fn rdf_literal_spec(
    v: Value<String>,
    dir: Option<RdfDirection>,
    json_text: Option<Seq<char>>,
    number_is_i64: bool,
    double_text: Option<Seq<char>>,
) -> Option<RdfLiteralView> {
    match v {
        Value::Json(_) => match json_text {
            Some(t) => Some(RdfLiteralView::Typed(t, "http://www.w3.org/1999/02/22-rdf-syntax-ns#JSON"@)),
            None => None,
        },
        Value::LangString(ls) => {
            let lang = ls.language_spec();
            if lang matches Some(l) && !lang_tag_valid(l) {
                None
            } else {
                match (ls.direction_spec(), dir) {
                    (Some(d), Some(RdfDirection::I18nDatatype)) => Some(RdfLiteralView::Typed(ls.data_spec(), i18n_datatype(lang, d))),
                    (Some(_), Some(RdfDirection::CompoundLiteral)) => Some(RdfLiteralView::Compound),
                    _ => match lang {
                        Some(l) => Some(RdfLiteralView::LangString(ls.data_spec(), l)),
                        None => Some(RdfLiteralView::Typed(ls.data_spec(), "http://www.w3.org/2001/XMLSchema#string"@)),
                    },
                }
            }
        },
        Value::Literal(lit, ty) => {
            let tyv = match ty {
                Some(t) => Some(t@),
                None => None,
            };
            match literal_form(lit, tyv, number_is_i64, double_text) {
                Some((text, preferred)) => Some(RdfLiteralView::Typed(
                    text,
                    match tyv {
                        Some(t) => t,
                        None => match preferred {
                            Some(p) => p,
                            None => "http://www.w3.org/2001/XMLSchema#string"@,
                        },
                    },
                )),
                None => None,
            }
        },
    }
}

/// The boolean that the text `t` denotes in the lexical space of
/// `xsd:boolean`, if any.
pub open spec fn xsd_boolean_value(t: Seq<char>) -> Option<bool> {
    if t == "true"@ || t == "1"@ {
        Some(true)
    } else if t == "false"@ || t == "0"@ {
        Some(false)
    } else {
        None
    }
}

/// A boolean value object becomes a typed literal whose lexical form reads
/// back, as an `xsd:boolean`, as that very boolean; without a datatype of
/// its own it is typed `xsd:boolean`.
pub proof fn lemma_boolean_literal_reads_back(
    b: bool,
    ty: Option<String>,
    dir: Option<RdfDirection>,
    json_text: Option<Seq<char>>,
    number_is_i64: bool,
    double_text: Option<Seq<char>>,
)
    ensures
        rdf_literal_spec(Value::Literal(Literal::Boolean(b), ty), dir, json_text, number_is_i64, double_text) matches Some(
            RdfLiteralView::Typed(text, datatype),
        ) && xsd_boolean_value(text) == Some(b) && (ty is None ==> datatype == "http://www.w3.org/2001/XMLSchema#boolean"@),
{
    reveal_strlit("true");
    reveal_strlit("false");
    reveal_strlit("1");
    reveal_strlit("0");
    let text: Seq<char> = if b { "true"@ } else { "false"@ };
    assert("true"@.len() == 4 && "false"@.len() == 5 && "1"@.len() == 1 && "0"@.len() == 1);
    assert(xsd_boolean_value("true"@) == Some(true));
    assert("false"@ != "true"@);
    assert(xsd_boolean_value("false"@) == Some(false));
    let tyv = match ty {
        Some(t) => Some(t@),
        None => None,
    };
    assert(literal_form(Literal::Boolean(b), tyv, number_is_i64, double_text) == Some((
        text,
        Some("http://www.w3.org/2001/XMLSchema#boolean"@),
    )));
}

/// A value object with a datatype of its own keeps that datatype as the
/// literal's datatype IRI, whatever its kind; and a string keeps its text as
/// the lexical form.
pub proof fn lemma_datatype_kept(
    lit: Literal,
    t: String,
    dir: Option<RdfDirection>,
    json_text: Option<Seq<char>>,
    number_is_i64: bool,
    double_text: Option<Seq<char>>,
)
    ensures
        rdf_literal_spec(Value::Literal(lit, Some(t)), dir, json_text, number_is_i64, double_text) matches Some(l) ==> (l matches RdfLiteralView::Typed(_, d) && d == t@),
        !(lit is Number) ==> rdf_literal_spec(Value::Literal(lit, Some(t)), dir, json_text, number_is_i64, double_text) is Some,
        lit matches Literal::String(x) ==> rdf_literal_spec(Value::Literal(lit, Some(t)), dir, json_text, number_is_i64, double_text) == Some(
            RdfLiteralView::Typed(x@, t@),
        ),
{
}

/// The view of an optional string.
pub open spec fn opt_text(s: Option<String>) -> Option<Seq<char>> {
    match s {
        Some(t) => Some(t@),
        None => None,
    }
}

/// Appends the text of `d` to `s`.
fn with_direction(s: &str, d: Direction) -> (r: String)
    ensures
        r@ == s@ + direction_text(d),
{
    let cs: Vec<char> = match d {
        Direction::Ltr => vec!['l', 't', 'r'],
        Direction::Rtl => vec!['r', 't', 'l'],
    };
    proof {
        assert(cs@ =~= direction_text(d));
    }
    concat(s, cs.as_slice())
}

/// Whether the datatype `ty` is `xsd:double`.
fn typed_double(ty: &Option<String>) -> (b: bool)
    ensures
        b == is_xsd_double(opt_text(*ty)),
{
    match ty {
        Some(t) => {
            let d = "http://www.w3.org/2001/XMLSchema#double";
            is_iri(t.as_str()) && is_iri(d) && iri_eq(t.as_str(), d)
        },
        None => false,
    }
}

/// The RDF literal that the value object `value` stands for (see
/// [`rdf_literal_spec`]). What only other crates compute comes in as
/// arguments: `json_text`, the printed form of a JSON literal;
/// `number_is_i64`, whether a number reads as a 64-bit integer; and
/// `double_text`, the canonical double form of a number.
pub fn rdf_literal(
    value: &Value<String>,
    dir: Option<RdfDirection>,
    json_text: Option<String>,
    number_is_i64: bool,
    double_text: Option<String>,
) -> (r: Option<RdfLiteral>)
    ensures
        match rdf_literal_spec(*value, dir, opt_text(json_text), number_is_i64, opt_text(double_text)) {
            Some(l) => r matches Some(x) && x@ == l,
            None => r is None,
        },
{
    match value {
        Value::Json(_) => match json_text {
            Some(t) => Some(RdfLiteral::Typed(t, "http://www.w3.org/1999/02/22-rdf-syntax-ns#JSON".to_string())),
            None => None,
        },
        Value::LangString(ls) => {
            let lang: Option<String> = match ls.language() {
                Some(l) => {
                    if !is_lang_tag(l.as_str()) {
                        return None;
                    }
                    Some(l.clone())
                },
                None => None,
            };
            let data = ls.as_str().to_string();
            match (ls.direction(), dir) {
                (Some(d), Some(RdfDirection::I18nDatatype)) => {
                    let base = "https://www.w3.org/ns/i18n#";
                    let ty = match &lang {
                        Some(l) => {
                            let lc = chars_of(l.as_str());
                            let with_lang = concat(base, lc.as_slice());
                            let us: Vec<char> = vec!['_'];
                            let with_sep = concat(with_lang.as_str(), us.as_slice());
                            proof {
                                assert(us@ =~= seq!['_']);
                            }
                            with_direction(with_sep.as_str(), d)
                        },
                        None => with_direction(base, d),
                    };
                    Some(RdfLiteral::Typed(data, ty))
                },
                (Some(_), Some(RdfDirection::CompoundLiteral)) => Some(RdfLiteral::Compound),
                _ => match lang {
                    Some(l) => Some(RdfLiteral::LangString(data, l)),
                    None => Some(RdfLiteral::Typed(data, "http://www.w3.org/2001/XMLSchema#string".to_string())),
                },
            }
        },
        Value::Literal(lit, ty) => {
            let form: Option<(String, Option<String>)> = match lit {
                Literal::Boolean(b) => Some((
                    if *b { "true".to_string() } else { "false".to_string() },
                    Some("http://www.w3.org/2001/XMLSchema#boolean".to_string()),
                )),
                Literal::Null => Some(("null".to_string(), None)),
                Literal::Number(n) => if number_is_i64 && !typed_double(ty) {
                    Some((n.clone(), Some("http://www.w3.org/2001/XMLSchema#integer".to_string())))
                } else {
                    match double_text {
                        Some(t) => Some((t, Some("http://www.w3.org/2001/XMLSchema#double".to_string()))),
                        None => None,
                    }
                },
                Literal::String(s) => Some((s.clone(), None)),
            };
            match form {
                Some((text, preferred)) => {
                    let datatype = match ty {
                        Some(t) => t.clone(),
                        None => match preferred {
                            Some(p) => p,
                            None => "http://www.w3.org/2001/XMLSchema#string".to_string(),
                        },
                    };
                    Some(RdfLiteral::Typed(text, datatype))
                },
                None => None,
            }
        },
    }
}

} // verus!
