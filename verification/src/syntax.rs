//! JSON-LD keywords and the small enumerations of the syntax.
use vstd::prelude::*;
use crate::text::{chars_eq, chars_of};

verus! {

broadcast use vstd::string::group_string_axioms;

/// A JSON-LD keyword.
#[derive(Clone, Copy, PartialEq, Eq, Structural, Hash, Debug)]
pub enum Keyword {
    /// `@base`.
    Base,
    /// `@container`.
    Container,
    /// `@context`.
    Context,
    /// `@direction`.
    Direction,
    /// `@graph`.
    Graph,
    /// `@id`.
    Id,
    /// `@import`.
    Import,
    /// `@included`.
    Included,
    /// `@index`.
    Index,
    /// `@json`.
    Json,
    /// `@language`.
    Language,
    /// `@list`.
    List,
    /// `@nest`.
    Nest,
    /// `@none`.
    AtNone,
    /// `@prefix`.
    Prefix,
    /// `@propagate`.
    Propagate,
    /// `@protected`.
    Protected,
    /// `@reverse`.
    Reverse,
    /// `@set`.
    AtSet,
    /// `@type`.
    Type,
    /// `@value`.
    Value,
    /// `@version`.
    Version,
    /// `@vocab`.
    Vocab,
}

/// The spelling of a keyword.
pub open spec fn keyword_text(k: Keyword) -> Seq<char> {
    match k {
        Keyword::Base => seq!['@', 'b', 'a', 's', 'e'],
        Keyword::Container => seq!['@', 'c', 'o', 'n', 't', 'a', 'i', 'n', 'e', 'r'],
        Keyword::Context => seq!['@', 'c', 'o', 'n', 't', 'e', 'x', 't'],
        Keyword::Direction => seq!['@', 'd', 'i', 'r', 'e', 'c', 't', 'i', 'o', 'n'],
        Keyword::Graph => seq!['@', 'g', 'r', 'a', 'p', 'h'],
        Keyword::Id => seq!['@', 'i', 'd'],
        Keyword::Import => seq!['@', 'i', 'm', 'p', 'o', 'r', 't'],
        Keyword::Included => seq!['@', 'i', 'n', 'c', 'l', 'u', 'd', 'e', 'd'],
        Keyword::Index => seq!['@', 'i', 'n', 'd', 'e', 'x'],
        Keyword::Json => seq!['@', 'j', 's', 'o', 'n'],
        Keyword::Language => seq!['@', 'l', 'a', 'n', 'g', 'u', 'a', 'g', 'e'],
        Keyword::List => seq!['@', 'l', 'i', 's', 't'],
        Keyword::Nest => seq!['@', 'n', 'e', 's', 't'],
        Keyword::AtNone => seq!['@', 'n', 'o', 'n', 'e'],
        Keyword::Prefix => seq!['@', 'p', 'r', 'e', 'f', 'i', 'x'],
        Keyword::Propagate => seq!['@', 'p', 'r', 'o', 'p', 'a', 'g', 'a', 't', 'e'],
        Keyword::Protected => seq!['@', 'p', 'r', 'o', 't', 'e', 'c', 't', 'e', 'd'],
        Keyword::Reverse => seq!['@', 'r', 'e', 'v', 'e', 'r', 's', 'e'],
        Keyword::AtSet => seq!['@', 's', 'e', 't'],
        Keyword::Type => seq!['@', 't', 'y', 'p', 'e'],
        Keyword::Value => seq!['@', 'v', 'a', 'l', 'u', 'e'],
        Keyword::Version => seq!['@', 'v', 'e', 'r', 's', 'i', 'o', 'n'],
        Keyword::Vocab => seq!['@', 'v', 'o', 'c', 'a', 'b'],
    }
}

/// Every keyword, in alphabetical order.
pub open spec fn all_keywords() -> Seq<Keyword> {
    seq![Keyword::Base, Keyword::Container, Keyword::Context, Keyword::Direction, Keyword::Graph, Keyword::Id, Keyword::Import, Keyword::Included, Keyword::Index, Keyword::Json, Keyword::Language, Keyword::List, Keyword::Nest, Keyword::AtNone, Keyword::Prefix, Keyword::Propagate, Keyword::Protected, Keyword::Reverse, Keyword::AtSet, Keyword::Type, Keyword::Value, Keyword::Version, Keyword::Vocab]
}

/// Whether `s` is the spelling of a keyword.
pub open spec fn is_keyword_spec(s: Seq<char>) -> bool {
    exists|k: Keyword| keyword_text(k) == s
}

/// Whether `s` has the shape of a keyword: `@` followed by one or more
/// ASCII letters.
pub open spec fn is_keyword_like_spec(s: Seq<char>) -> bool {
    &&& s.len() > 1
    &&& s[0] == '@'
    &&& forall|i: int| 1 <= i < s.len() ==> is_ascii_alpha(#[trigger] s[i])
}

/// Whether `c` is an ASCII letter.
pub open spec fn is_ascii_alpha(c: char) -> bool {
    ('a' <= c && c <= 'z') || ('A' <= c && c <= 'Z')
}

impl Keyword {
    /// Returns the spelling of this keyword.
    pub fn into_str(self) -> (s: &'static str)
        ensures
            s@ == keyword_text(self),
    {
        match self {
            Keyword::Base => { proof { reveal_strlit("@base"); } "@base" },
            Keyword::Container => { proof { reveal_strlit("@container"); } "@container" },
            Keyword::Context => { proof { reveal_strlit("@context"); } "@context" },
            Keyword::Direction => { proof { reveal_strlit("@direction"); } "@direction" },
            Keyword::Graph => { proof { reveal_strlit("@graph"); } "@graph" },
            Keyword::Id => { proof { reveal_strlit("@id"); } "@id" },
            Keyword::Import => { proof { reveal_strlit("@import"); } "@import" },
            Keyword::Included => { proof { reveal_strlit("@included"); } "@included" },
            Keyword::Index => { proof { reveal_strlit("@index"); } "@index" },
            Keyword::Json => { proof { reveal_strlit("@json"); } "@json" },
            Keyword::Language => { proof { reveal_strlit("@language"); } "@language" },
            Keyword::List => { proof { reveal_strlit("@list"); } "@list" },
            Keyword::Nest => { proof { reveal_strlit("@nest"); } "@nest" },
            Keyword::AtNone => { proof { reveal_strlit("@none"); } "@none" },
            Keyword::Prefix => { proof { reveal_strlit("@prefix"); } "@prefix" },
            Keyword::Propagate => { proof { reveal_strlit("@propagate"); } "@propagate" },
            Keyword::Protected => { proof { reveal_strlit("@protected"); } "@protected" },
            Keyword::Reverse => { proof { reveal_strlit("@reverse"); } "@reverse" },
            Keyword::AtSet => { proof { reveal_strlit("@set"); } "@set" },
            Keyword::Type => { proof { reveal_strlit("@type"); } "@type" },
            Keyword::Value => { proof { reveal_strlit("@value"); } "@value" },
            Keyword::Version => { proof { reveal_strlit("@version"); } "@version" },
            Keyword::Vocab => { proof { reveal_strlit("@vocab"); } "@vocab" },
        }
    }

    /// Parses a keyword from its spelling.
    pub fn try_from_chars(s: &[char]) -> (r: Option<Keyword>)
        ensures
            r matches Some(k) ==> keyword_text(k) == s@,
            r is None ==> !is_keyword_spec(s@),
    {
        let all = all_keywords_vec();
        let mut i: usize = 0;
        while i < all.len()
            invariant
                i <= all@.len(),
                all@ == all_keywords(),
                forall|j: int| 0 <= j < i ==> keyword_text(all@[j]) != s@,
            decreases all@.len() - i,
        {
            let text = chars_of(all[i].into_str());
            if chars_eq(text.as_slice(), s) {
                return Some(all[i]);
            }
            i = i + 1;
        }
        proof {
            assert forall|k: Keyword| keyword_text(k) != s@ by {
                lemma_all_keywords_complete(k);
                let j = choose|j: int| 0 <= j < all_keywords().len() && all_keywords()[j] == k;
            }
        }
        None
    }
}

/// Every keyword appears in [`all_keywords`].
pub proof fn lemma_all_keywords_complete(k: Keyword)
    ensures
        exists|j: int| 0 <= j < all_keywords().len() && all_keywords()[j] == k,
{
    match k {
        Keyword::Base => { assert(all_keywords()[0] == k); },
        Keyword::Container => { assert(all_keywords()[1] == k); },
        Keyword::Context => { assert(all_keywords()[2] == k); },
        Keyword::Direction => { assert(all_keywords()[3] == k); },
        Keyword::Graph => { assert(all_keywords()[4] == k); },
        Keyword::Id => { assert(all_keywords()[5] == k); },
        Keyword::Import => { assert(all_keywords()[6] == k); },
        Keyword::Included => { assert(all_keywords()[7] == k); },
        Keyword::Index => { assert(all_keywords()[8] == k); },
        Keyword::Json => { assert(all_keywords()[9] == k); },
        Keyword::Language => { assert(all_keywords()[10] == k); },
        Keyword::List => { assert(all_keywords()[11] == k); },
        Keyword::Nest => { assert(all_keywords()[12] == k); },
        Keyword::AtNone => { assert(all_keywords()[13] == k); },
        Keyword::Prefix => { assert(all_keywords()[14] == k); },
        Keyword::Propagate => { assert(all_keywords()[15] == k); },
        Keyword::Protected => { assert(all_keywords()[16] == k); },
        Keyword::Reverse => { assert(all_keywords()[17] == k); },
        Keyword::AtSet => { assert(all_keywords()[18] == k); },
        Keyword::Type => { assert(all_keywords()[19] == k); },
        Keyword::Value => { assert(all_keywords()[20] == k); },
        Keyword::Version => { assert(all_keywords()[21] == k); },
        Keyword::Vocab => { assert(all_keywords()[22] == k); },
    }
}

/// Every keyword, in alphabetical order.
pub fn all_keywords_vec() -> (v: Vec<Keyword>)
    ensures
        v@ == all_keywords(),
{
    vec![Keyword::Base, Keyword::Container, Keyword::Context, Keyword::Direction, Keyword::Graph, Keyword::Id, Keyword::Import, Keyword::Included, Keyword::Index, Keyword::Json, Keyword::Language, Keyword::List, Keyword::Nest, Keyword::AtNone, Keyword::Prefix, Keyword::Propagate, Keyword::Protected, Keyword::Reverse, Keyword::AtSet, Keyword::Type, Keyword::Value, Keyword::Version, Keyword::Vocab]
}

/// Checks whether `s` is the spelling of a keyword.
pub fn is_keyword(s: &[char]) -> (b: bool)
    ensures
        b == is_keyword_spec(s@),
{
    Keyword::try_from_chars(s).is_some()
}

/// Checks whether `s` has the shape of a keyword: `@` followed by one or more
/// ASCII letters.
pub fn is_keyword_like(s: &[char]) -> (b: bool)
    ensures
        b == is_keyword_like_spec(s@),
{
    if s.len() <= 1 || s[0] != '@' {
        return false;
    }
    let mut i: usize = 1;
    while i < s.len()
        invariant
            1 <= i <= s@.len(),
            forall|j: int| 1 <= j < i ==> is_ascii_alpha(#[trigger] s@[j]),
        decreases s@.len() - i,
    {
        let c = s[i];
        if !(('a' <= c && c <= 'z') || ('A' <= c && c <= 'Z')) {
            return false;
        }
        i = i + 1;
    }
    true
}

/// Base direction of a string.
#[derive(Clone, Copy, PartialEq, Eq, Structural, Hash, Debug)]
pub enum Direction {
    /// Left-to-right.
    Ltr,
    /// Right-to-left.
    Rtl,
}

/// JSON-LD processing mode.
#[derive(Clone, Copy, PartialEq, Eq, Structural, Hash, Debug)]
pub enum ProcessingMode {
    /// JSON-LD 1.0.
    JsonLd1_0,
    /// JSON-LD 1.1.
    JsonLd1_1,
}

impl ProcessingMode {
    /// The default processing mode, JSON-LD 1.1.
    pub fn default_mode() -> (m: ProcessingMode)
        ensures
            m == ProcessingMode::JsonLd1_1,
    {
        ProcessingMode::JsonLd1_1
    }
}

/// The JSON-LD error codes that context processing and compaction report.
#[derive(Clone, Copy, PartialEq, Eq, Structural, Hash, Debug)]
pub enum ErrorCode {
    /// Two values under an index container share an index.
    ConflictingIndexes,
    /// Context processing went too deep.
    ContextOverflow,
    /// A term definition depends on itself.
    CyclicIriMapping,
    /// An IRI would be read back as a compact IRI.
    IriConfusedWithPrefix,
    /// An invalid base IRI.
    InvalidBaseIri,
    /// An invalid container mapping.
    InvalidContainerMapping,
    /// A context entry that is not allowed.
    InvalidContextEntry,
    /// A `null` context would clear protected terms.
    InvalidContextNullification,
    /// An invalid IRI mapping.
    InvalidIriMapping,
    /// An invalid keyword alias.
    InvalidKeywordAlias,
    /// An invalid `@nest` value.
    InvalidNestValue,
    /// An invalid reverse property.
    InvalidReverseProperty,
    /// An invalid scoped context.
    InvalidScopedContext,
    /// An invalid term definition.
    InvalidTermDefinition,
    /// An invalid type mapping.
    InvalidTypeMapping,
    /// An invalid vocabulary mapping.
    InvalidVocabMapping,
    /// A keyword is redefined.
    KeywordRedefinition,
    /// A document could not be loaded.
    LoadingDocumentFailed,
    /// The processing mode conflicts with the document.
    ProcessingModeConflict,
    /// A protected term is redefined.
    ProtectedTermRedefinition,
}

} // verus!
