//! IRI expansion against an already processed active context.
use vstd::prelude::*;
use crate::context::{Context, NormalTermDefinition};
use crate::id::{Id, IdBuf, Term, TermBuf, ValidId, id_of, term_text};
use crate::iri::{blank_id_valid, iri_ref_valid, iri_resolved, iri_valid, is_blank_id, is_iri, is_iri_ref, resolve_reference};
use crate::syntax::{is_keyword_like, is_keyword_like_spec, Keyword, ProcessingMode};
use crate::text::{chars_eq, chars_of, find_char, first_index, is_prefix, push_char, slice_vec, starts_with, string_of};
use crate::container::Nullable;
use crate::warning::{FromMalformedIri, Handler, MalformedIri};

verus! {

broadcast use vstd::string::group_string_axioms;

/// How strictly to treat a term that only expands through the vocabulary
/// mapping.
#[derive(Debug, Clone, Copy, PartialEq, Eq, Structural, Hash)]
pub enum Action {
    /// Accept the expansion. This is what the specification requires.
    Keep,
    /// Treat the term as unexpandable, so that whatever entry carries it is
    /// dropped.
    Drop,
    /// Abort processing with an error.
    Reject,
}

impl Action {
    /// The default action, [`Action::Keep`].
    pub fn default_action() -> (a: Action)
        ensures
            a == Action::Keep,
    {
        Action::Keep
    }

    /// Checks whether this action aborts processing rather than accepting or
    /// dropping the term.
    pub fn is_reject(&self) -> (b: bool)
        ensures
            b == (*self == Action::Reject),
    {
        match self {
            Action::Reject => true,
            _ => false,
        }
    }
}

/// A term could only be expanded through the vocabulary mapping while
/// expansion was set to [`Action::Reject`].
#[derive(Debug)]
pub struct RejectVocab;

/// A value to expand: a keyword, or a string.
pub enum Expandable<'a> {
    /// A keyword.
    Keyword(Keyword),
    /// A string.
    String(&'a str),
}

/// Whether `s` reads as a compact IRI: a prefix other than `_` before its
/// first colon, a suffix that does not start with `//`, and the whole a
/// well-formed IRI reference.
pub open spec fn compact_iri_shape(s: Seq<char>) -> bool {
    match first_index(s, ':') {
        Some(i) => {
            let prefix = s.subrange(0, i);
            let suffix = s.subrange(i + 1, s.len() as int);
            &&& prefix != seq!['_']
            &&& !is_prefix(seq!['/', '/'], suffix)
            &&& iri_ref_valid(s)
        },
        None => false,
    }
}

/// The result of expanding a string through the active context, when it is
/// resolved; `Err` stands for a rejected vocabulary expansion and `Ok(None)`
/// for a dropped one.
pub enum Expansion {
    /// `null`.
    Null,
    /// A keyword.
    Keyword(Keyword),
    /// The IRI mapping of a term definition.
    Mapping(TermBuf),
    /// An identifier read from the given text.
    Read(Seq<char>),
    /// A blank node identifier.
    Blank(Seq<char>),
    /// An IRI.
    Iri(Seq<char>),
    /// An invalid identifier, reported as a malformed IRI.
    Invalid(Seq<char>),
    /// Dropped under [`Action::Drop`].
    Dropped,
    /// Rejected under [`Action::Reject`].
    Rejected,
}

/// The step of IRI expansion that goes through a compact IRI's prefix: the
/// mapping of the prefix followed by the suffix.
pub open spec fn prefix_expansion(ctx: Context, s: Seq<char>) -> Option<Seq<char>> {
    if compact_iri_shape(s) {
        let i = first_index(s, ':').unwrap();
        match ctx.lookup(s.subrange(0, i)) {
            Some(d) => if (d.prefix || ctx.mode() == ProcessingMode::JsonLd1_0) && d.value is Some {
                Some(term_text(d.value.unwrap()) + s.subrange(i + 1, s.len() as int))
            } else {
                None
            },
            None => None,
        }
    } else {
        None
    }
}

/// The keyword that `s` is defined as in `ctx`, if any.
pub open spec fn keyword_mapping(ctx: Context, s: Seq<char>) -> Option<Keyword> {
    match ctx.lookup(s) {
        Some(d) => match d.value {
            Some(Term::Keyword(k)) => Some(k),
            _ => None,
        },
        None => None,
    }
}

/// The text of the vocabulary mapping of `ctx`, when it is an identifier.
pub open spec fn vocab_id_text(ctx: Context) -> Option<Seq<char>> {
    match ctx.vocab() {
        Some(Term::Id(id)) => Some(term_text(Term::Id(id))),
        _ => None,
    }
}

/// What IRI expansion makes of the string `s` under `ctx`.
pub open spec fn expand_string_spec(ctx: Context, s: Seq<char>, document_relative: bool, vocab: Option<Action>) -> Expansion {
    if is_keyword_like_spec(s) {
        Expansion::Null
    } else if keyword_mapping(ctx, s) is Some {
        Expansion::Keyword(keyword_mapping(ctx, s).unwrap())
    } else if ctx.lookup(s) is Some && vocab is Some {
        match ctx.lookup(s).unwrap().value {
            Some(t) => Expansion::Mapping(t),
            None => Expansion::Null,
        }
    } else if first_index(s, ':') matches Some(i) && i > 0 && blank_id_valid(s) {
        Expansion::Blank(s)
    } else if first_index(s, ':') matches Some(i) && i > 0 && s == seq!['_', ':'] {
        Expansion::Invalid(s)
    } else if first_index(s, ':') matches Some(i) && i > 0 && prefix_expansion(ctx, s) is Some {
        Expansion::Read(prefix_expansion(ctx, s).unwrap())
    } else if first_index(s, ':') matches Some(i) && i > 0 && iri_valid(s) {
        Expansion::Iri(s)
    } else if vocab is Some && vocab_id_text(ctx) is Some {
        match vocab.unwrap() {
            Action::Keep => Expansion::Read(vocab_id_text(ctx).unwrap() + s),
            Action::Drop => Expansion::Dropped,
            Action::Reject => Expansion::Rejected,
        }
    } else if vocab is Some && ctx.vocab() is Some {
        Expansion::Invalid(s)
    } else if document_relative && iri_ref_valid(s) && ctx.base() is Some && iri_valid(ctx.base().unwrap()@)
        && iri_resolved(s, ctx.base().unwrap()@) is Some {
        Expansion::Iri(iri_resolved(s, ctx.base().unwrap()@).unwrap())
    } else {
        Expansion::Invalid(s)
    }
}

/// Whether the term `t` is what the expansion `e` describes.
pub open spec fn realizes(t: TermBuf, e: Expansion) -> bool {
    match e {
        Expansion::Null => t is Null,
        Expansion::Keyword(k) => t == Term::<String, String>::Keyword(k),
        Expansion::Mapping(m) => t == m,
        Expansion::Read(text) => t matches Term::Id(id) && exists|st: String| st@ == text && id == id_of(text, st),
        Expansion::Blank(text) => t matches Term::Id(Id::Valid(ValidId::Blank(b))) && b@ == text,
        Expansion::Iri(text) => t matches Term::Id(Id::Valid(ValidId::Iri(i))) && i@ == text,
        Expansion::Invalid(text) => t matches Term::Id(Id::Invalid(v)) && v@ == text,
        _ => false,
    }
}

/// Whether the result of expanding `value` is what the specification asks.
pub open spec fn expansion_matches(ctx: Context, value: Nullable<Expandable>, document_relative: bool, vocab: Option<Action>, r: Result<Option<TermBuf>, RejectVocab>) -> bool {
    match value {
        Nullable::Null => r matches Ok(Some(t)) && t is Null,
        Nullable::Value(Expandable::Keyword(k)) => r matches Ok(Some(t)) && t == Term::<String, String>::Keyword(k),
        Nullable::Value(Expandable::String(s)) => match expand_string_spec(ctx, s@, document_relative, vocab) {
            Expansion::Dropped => r matches Ok(None),
            Expansion::Rejected => r is Err,
            e => r matches Ok(Some(t)) && realizes(t, e),
        },
    }
}

/// A string holding `a` followed by `b`.
pub(crate) fn concat(a: &str, b: &[char]) -> (r: String)
    ensures
        r@ == a@ + b@,
{
    let a_chars = chars_of(a);
    let mut v = a_chars;
    let mut i: usize = 0;
    while i < b.len()
        invariant
            i <= b@.len(),
            v@ == a@ + b@.subrange(0, i as int),
        decreases b@.len() - i,
    {
        v.push(b[i]);
        proof {
            assert(b@.subrange(0, i + 1) =~= b@.subrange(0, i as int).push(b@[i as int]));
            assert(a@ + b@.subrange(0, i + 1) =~= (a@ + b@.subrange(0, i as int)).push(b@[i as int]));
        }
        i = i + 1;
    }
    proof {
        assert(b@.subrange(0, b@.len() as int) =~= b@);
    }
    string_of(v.as_slice())
}

/// Checks whether `s` reads as a compact IRI.
pub(crate) fn is_compact_iri(s: &[char], whole: &str) -> (b: bool)
    requires
        whole@ == s@,
    ensures
        b == compact_iri_shape(s@),
{
    match find_char(s, ':') {
        Some(i) => {
            let prefix_is_underscore = i == 1 && s[0] == '_';
            proof {
                if s@.subrange(0, i as int) == seq!['_'] {
                    assert(s@.subrange(0, i as int).len() == 1);
                    assert(s@.subrange(0, i as int)[0] == s@[0]);
                }
                if prefix_is_underscore {
                    assert(s@.subrange(0, i as int) =~= seq!['_']);
                }
            }
            let n = s.len();
            let suffix = slice_vec(s, i + 1, n);
            let slashes = starts_with(suffix.as_slice(), &['/', '/']);
            proof {
                assert(seq!['/', '/'] =~= ['/', '/']@);
            }
            !prefix_is_underscore && !slashes && is_iri_ref(whole)
        },
        None => false,
    }
}

/// Whether expanding `s` under `ctx` reports it as a malformed IRI: it
/// expands to an invalid identifier, other than `_:`.
pub open spec fn warns_malformed(ctx: Context, s: Seq<char>, document_relative: bool, vocab: Option<Action>) -> bool {
    expand_string_spec(ctx, s, document_relative, vocab) is Invalid && s != seq!['_', ':']
}

/// The text that expanding `value` under `ctx` reports as a malformed IRI,
/// if it reports one (see [`warns_malformed`]).
pub open spec fn malformed_text(ctx: Context, value: Nullable<Expandable>, document_relative: bool, vocab: Option<Action>) -> Option<
    Seq<char>,
> {
    match value {
        Nullable::Value(Expandable::String(s)) => if warns_malformed(ctx, s@, document_relative, vocab) {
            Some(s@)
        } else {
            None
        },
        _ => None,
    }
}

/// Expands `value` into a term using only the definitions `ctx` already has.
///
/// `document_relative` allows a value that is otherwise unresolvable to be
/// resolved against the base IRI. `vocab` enables expansion through the
/// vocabulary mapping and selects what to do when that is the only thing
/// that would make the value expand; `None` disables it. A value that
/// resolves to nothing usable is returned as an invalid identifier and
/// reported to `warnings` as a malformed IRI.
pub fn expand_iri_simple<W: FromMalformedIri, H: Handler<W>>(
    ctx: &Context,
    value: Nullable<Expandable>,
    document_relative: bool,
    vocab: Option<Action>,
    warnings: &mut H,
) -> (r: Result<Option<TermBuf>, RejectVocab>)
    ensures
        expansion_matches(*ctx, value, document_relative, vocab, r),
        old(warnings).keeps() ==> final(warnings).keeps() && match malformed_text(*ctx, value, document_relative, vocab) {
            Some(t) => final(warnings).received().len() == old(warnings).received().len() + 1 && final(warnings).received().drop_last()
                == old(warnings).received() && final(warnings).received().last().reports(t),
            None => final(warnings).received() == old(warnings).received(),
        },
{
    match value {
        Nullable::Null => Ok(Some(Term::Null)),
        Nullable::Value(Expandable::Keyword(k)) => Ok(Some(Term::Keyword(k))),
        Nullable::Value(Expandable::String(value)) => {
            let s = chars_of(value);
            if is_keyword_like(s.as_slice()) {
                return Ok(Some(Term::Null));
            }
            if let Some(def) = ctx.get_normal(s.as_slice()) {
                if let Some(Term::Keyword(k)) = &def.value {
                    return Ok(Some(Term::Keyword(*k)));
                }
                if vocab.is_some() {
                    return match &def.value {
                        Some(t) => Ok(Some(crate::inverse::clone_term(t))),
                        None => Ok(Some(Term::Null)),
                    };
                }
            }
            if let Some(colon) = find_char(s.as_slice(), ':') {
                if colon > 0 {
                    if is_blank_id(value) {
                        return Ok(Some(Term::Id(Id::Valid(ValidId::Blank(value.to_string())))));
                    }
                    let underscore_colon = s.len() == 2 && s[0] == '_' && s[1] == ':';
                    proof {
                        if s@ == seq!['_', ':'] { assert(s@.len() == 2 && s@[0] == '_' && s@[1] == ':'); }
                        if underscore_colon { assert(s@ =~= seq!['_', ':']); }
                    }
                    if underscore_colon {
                        return Ok(Some(Term::Id(Id::Invalid(value.to_string()))));
                    }
                    if is_compact_iri(s.as_slice(), value) {
                        let prefix = slice_vec(s.as_slice(), 0, colon);
                        if let Some(def) = ctx.get_normal(prefix.as_slice()) {
                            if def.prefix || ctx.processing_mode() == ProcessingMode::JsonLd1_0 {
                                if let Some(mapping) = &def.value {
                                    let n = s.len();
                                    let suffix = slice_vec(s.as_slice(), colon + 1, n);
                                    let result = concat(mapping.as_str(), suffix.as_slice());
                                    return Ok(Some(Term::Id(Id::from_string(result))));
                                }
                            }
                        }
                    }
                    if is_iri(value) {
                        return Ok(Some(Term::Id(Id::Valid(ValidId::Iri(value.to_string())))));
                    }
                }
            }
            if let Some(action) = vocab {
                match ctx.vocabulary() {
                    Some(Term::Id(mapping)) => {
                        return match action {
                            Action::Keep => {
                                let result = concat(mapping.as_str(), s.as_slice());
                                Ok(Some(Term::Id(Id::from_string(result))))
                            },
                            Action::Drop => Ok(None),
                            Action::Reject => Err(RejectVocab),
                        };
                    },
                    Some(_) => {
                        warnings.handle(W::from_malformed_iri(MalformedIri(value.to_string())));
                        return Ok(Some(Term::Id(Id::Invalid(value.to_string()))));
                    },
                    None => {},
                }
            }
            if document_relative && is_iri_ref(value) {
                if let Some(base) = ctx.base_iri() {
                    if is_iri(base.as_str()) {
                        if let Some(resolved) = resolve_reference(value, base.as_str()) {
                            return Ok(Some(Term::Id(Id::Valid(ValidId::Iri(resolved)))));
                        }
                    }
                }
            }
            warnings.handle(W::from_malformed_iri(MalformedIri(value.to_string())));
            Ok(Some(Term::Id(Id::Invalid(value.to_string()))))
        },
    }
}

} // verus!
