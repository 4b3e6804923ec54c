//! The context processing algorithm of JSON-LD 1.1, for local contexts that
//! need no document loader: it builds an active context from a local
//! context, creating term definitions on demand.
use vstd::prelude::*;
use crate::container::{combine, Container, ContainerKind, ContainerSyntax, Nullable};
use crate::context::{
    agree_modulo_protected, any_protected, index_of, keys_unique, lemma_same_context_lookup, opt_view, same_context, same_definition, Context,
    NormalTermDefinition, TypeTermDefinition,
};
use crate::expand::{
    compact_iri_shape, concat, expand_iri_simple, expand_string_spec, expansion_matches, is_compact_iri, keyword_mapping, malformed_text, prefix_expansion,
    realizes, vocab_id_text, Action, Expandable, Expansion, RejectVocab,
};
use crate::id::{Id, Term, TermBuf, ValidId};
use crate::iri::{blank_id_valid, iri_ref_valid, iri_resolved, iri_valid, is_blank_id, is_iri, is_iri_ref, resolve_reference};
use crate::inverse::{term_view, type_view, TermView};
use crate::local::{clone_local_context, local_view, ContextDefinition, ContextEntry, ExpandedDefinition, LocalContext, TermDefinitionSyntax};
use crate::stack::ProcessingStack;
use crate::syntax::{is_keyword, is_keyword_like, is_keyword_like_spec, is_keyword_spec, keyword_text, Direction, ErrorCode, Keyword, ProcessingMode};
use crate::text::{chars_of, find_char, first_index, lemma_first_index, slice_vec};
use crate::value::SyntaxType;
use crate::warning::{Handler, Warning};

verus! {

broadcast use vstd::string::group_string_axioms;

/// What is left of the nesting budget at `depth`: a call past the bound
/// does no more nested work.
pub open spec fn depth_budget(depth: usize) -> int {
    if depth <= MAX_SYNC_DEPTH {
        MAX_SYNC_DEPTH + 2 - depth
    } else {
        1
    }
}

/// The nesting budget of `define`, which stops at once past the bound.
pub open spec fn define_budget(depth: usize) -> int {
    if depth < MAX_SYNC_DEPTH {
        MAX_SYNC_DEPTH + 2 - depth
    } else {
        0
    }
}

/// Bound on the nesting of term definitions, prefixes and scoped contexts
/// that context processing follows; going deeper is a context overflow.
pub const MAX_SYNC_DEPTH: usize = 128;

/// Errors of context processing.
#[derive(Debug, Clone, Copy, PartialEq, Eq, Structural)]
pub enum Error {
    /// A `null` context would clear protected term definitions.
    InvalidContextNullification,
    /// A remote context or an `@import` would have to be loaded.
    LoadingDocumentFailed,
    /// `@version` under JSON-LD 1.0.
    ProcessingModeConflict,
    /// A context entry that the processing mode does not allow.
    InvalidContextEntry,
    /// `@base` is neither an IRI nor resolvable against the base IRI.
    InvalidBaseIri,
    /// `@vocab` does not expand to an identifier.
    InvalidVocabMapping,
    /// A term definition depends on itself.
    CyclicIriMapping,
    /// An invalid term definition.
    InvalidTermDefinition,
    /// A keyword is redefined.
    KeywordRedefinition,
    /// An invalid type mapping.
    InvalidTypeMapping,
    /// An invalid reverse property.
    InvalidReverseProperty,
    /// An invalid IRI mapping.
    InvalidIriMapping,
    /// A term is made an alias of `@context`.
    InvalidKeywordAlias,
    /// An invalid container mapping.
    InvalidContainerMapping,
    /// A scoped context failed to process.
    InvalidScopedContext,
    /// A protected term is redefined differently.
    ProtectedTermRedefinition,
    /// Processing went deeper than [`MAX_SYNC_DEPTH`].
    ContextOverflow,
    /// A term could only expand through `@vocab`, which is forbidden.
    ForbiddenVocab,
}

impl Error {
    /// The JSON-LD error code of this error; a forbidden vocabulary
    /// expansion is reported as an invalid vocabulary mapping.
    pub fn code(&self) -> (c: ErrorCode)
        ensures
            c == error_code(*self),
    {
        match self {
            Error::InvalidContextNullification => ErrorCode::InvalidContextNullification,
            Error::LoadingDocumentFailed => ErrorCode::LoadingDocumentFailed,
            Error::ProcessingModeConflict => ErrorCode::ProcessingModeConflict,
            Error::InvalidContextEntry => ErrorCode::InvalidContextEntry,
            Error::InvalidBaseIri => ErrorCode::InvalidBaseIri,
            Error::InvalidVocabMapping => ErrorCode::InvalidVocabMapping,
            Error::CyclicIriMapping => ErrorCode::CyclicIriMapping,
            Error::InvalidTermDefinition => ErrorCode::InvalidTermDefinition,
            Error::KeywordRedefinition => ErrorCode::KeywordRedefinition,
            Error::InvalidTypeMapping => ErrorCode::InvalidTypeMapping,
            Error::InvalidReverseProperty => ErrorCode::InvalidReverseProperty,
            Error::InvalidIriMapping => ErrorCode::InvalidIriMapping,
            Error::InvalidKeywordAlias => ErrorCode::InvalidKeywordAlias,
            Error::InvalidContainerMapping => ErrorCode::InvalidContainerMapping,
            Error::InvalidScopedContext => ErrorCode::InvalidScopedContext,
            Error::ProtectedTermRedefinition => ErrorCode::ProtectedTermRedefinition,
            Error::ContextOverflow => ErrorCode::ContextOverflow,
            Error::ForbiddenVocab => ErrorCode::InvalidVocabMapping,
        }
    }
}

/// The JSON-LD error code of a context processing error.
pub open spec fn error_code(e: Error) -> ErrorCode {
    match e {
        Error::InvalidContextNullification => ErrorCode::InvalidContextNullification,
        Error::LoadingDocumentFailed => ErrorCode::LoadingDocumentFailed,
        Error::ProcessingModeConflict => ErrorCode::ProcessingModeConflict,
        Error::InvalidContextEntry => ErrorCode::InvalidContextEntry,
        Error::InvalidBaseIri => ErrorCode::InvalidBaseIri,
        Error::InvalidVocabMapping | Error::ForbiddenVocab => ErrorCode::InvalidVocabMapping,
        Error::CyclicIriMapping => ErrorCode::CyclicIriMapping,
        Error::InvalidTermDefinition => ErrorCode::InvalidTermDefinition,
        Error::KeywordRedefinition => ErrorCode::KeywordRedefinition,
        Error::InvalidTypeMapping => ErrorCode::InvalidTypeMapping,
        Error::InvalidReverseProperty => ErrorCode::InvalidReverseProperty,
        Error::InvalidIriMapping => ErrorCode::InvalidIriMapping,
        Error::InvalidKeywordAlias => ErrorCode::InvalidKeywordAlias,
        Error::InvalidContainerMapping => ErrorCode::InvalidContainerMapping,
        Error::InvalidScopedContext => ErrorCode::InvalidScopedContext,
        Error::ProtectedTermRedefinition => ErrorCode::ProtectedTermRedefinition,
        Error::ContextOverflow => ErrorCode::ContextOverflow,
    }
}

/// Options of context processing.
#[derive(Debug, Clone, Copy, PartialEq, Eq, Structural)]
pub struct Options {
    /// Which version of JSON-LD to enforce.
    pub processing_mode: ProcessingMode,
    /// Whether protected term definitions may be redefined.
    pub override_protected: bool,
    /// Whether the processed context stays in effect for nested nodes.
    pub propagate: bool,
    /// What to do with a term that only expands through `@vocab`.
    pub vocab: Action,
}

impl Options {
    /// The default options: JSON-LD 1.1, no override, propagation, and
    /// vocabulary expansion kept.
    pub fn default_options() -> (o: Options)
        ensures
            o == (Options {
                processing_mode: ProcessingMode::JsonLd1_1,
                override_protected: false,
                propagate: true,
                vocab: Action::Keep,
            }),
    {
        Options { processing_mode: ProcessingMode::JsonLd1_1, override_protected: false, propagate: true, vocab: Action::Keep }
    }

    /// These options, allowing protected terms to be redefined.
    pub fn with_override(&self) -> (o: Options)
        ensures
            o == (Options { override_protected: true, ..*self }),
    {
        Options { override_protected: true, ..*self }
    }

    /// These options, forbidding protected terms to be redefined.
    pub fn with_no_override(&self) -> (o: Options)
        ensures
            o == (Options { override_protected: false, ..*self }),
    {
        Options { override_protected: false, ..*self }
    }

    /// These options, with the processed context not propagated to nested
    /// nodes.
    pub fn without_propagation(&self) -> (o: Options)
        ensures
            o == (Options { propagate: false, ..*self }),
    {
        Options { propagate: false, ..*self }
    }
}

/// The term a definition is created for: `@type`, or a key.
pub enum TermKey {
    /// The `@type` keyword.
    Type,
    /// Any other key.
    Key(String),
}

/// The view of a term key: `None` for `@type`.
pub open spec fn key_view(t: TermKey) -> Option<Seq<char>> {
    match t {
        TermKey::Type => None,
        TermKey::Key(k) => Some(k@),
    }
}

/// The map that a list of progress records stands for; a later record of
/// a term replaces an earlier one.
pub open spec fn progress_map(s: Seq<(Option<String>, bool)>) -> Map<Option<Seq<char>>, bool>
    decreases s.len(),
{
    if s.len() == 0 {
        Map::empty()
    } else {
        progress_map(s.drop_last()).insert(
            match s.last().0 {
                Some(k) => Some(k@),
                None => None,
            },
            s.last().1,
        )
    }
}

/// The view of a progress record's key.
pub open spec fn record_key(r: (Option<String>, bool)) -> Option<Seq<char>> {
    match r.0 {
        Some(k) => Some(k@),
        None => None,
    }
}

proof fn lemma_progress_last(s: Seq<(Option<String>, bool)>, i: int)
    requires
        0 <= i < s.len(),
        forall|j: int| i < j < s.len() ==> record_key(s[j]) != record_key(s[i]),
    ensures
        progress_map(s).contains_key(record_key(s[i])),
        progress_map(s)[record_key(s[i])] == s[i].1,
    decreases s.len(),
{
    if i < s.len() - 1 {
        lemma_progress_last(s.drop_last(), i);
    }
}

proof fn lemma_progress_absent(s: Seq<(Option<String>, bool)>, k: Option<Seq<char>>)
    requires
        forall|j: int| 0 <= j < s.len() ==> record_key(s[j]) != k,
    ensures
        !progress_map(s).contains_key(k),
    decreases s.len(),
{
    if s.len() > 0 {
        lemma_progress_absent(s.drop_last(), k);
    }
}

/// The terms whose definition is under way (`false`) or done (`true`)
/// while a context definition is processed.
pub struct DefinedTerms {
    records: Vec<(Option<String>, bool)>,
}

impl View for DefinedTerms {
    type V = Map<Option<Seq<char>>, bool>;

    closed spec fn view(&self) -> Map<Option<Seq<char>>, bool> {
        progress_map(self.records@)
    }
}

impl DefinedTerms {
    /// No term is defined yet.
    pub fn new() -> (d: Self)
        ensures
            d@ == Map::<Option<Seq<char>>, bool>::empty(),
    {
        DefinedTerms { records: Vec::new() }
    }

    fn record_of(t: &TermKey) -> (r: Option<String>)
        ensures
            match (r, key_view(*t)) {
                (Some(x), Some(y)) => x@ == y,
                (None, None) => true,
                _ => false,
            },
    {
        match t {
            TermKey::Type => None,
            TermKey::Key(k) => Some(k.clone()),
        }
    }

    fn same_key(a: &Option<String>, t: &TermKey) -> (b: bool)
        ensures
            b == (match a {
                Some(x) => Some(x@),
                None => None::<Seq<char>>,
            } == key_view(*t)),
    {
        match (a, t) {
            (None, TermKey::Type) => true,
            (Some(x), TermKey::Key(k)) => *x == *k,
            _ => false,
        }
    }

    /// The progress of the definition of `t`, if it has started.
    pub fn status(&self, t: &TermKey) -> (r: Option<bool>)
        ensures
            r == self@.get(key_view(*t)),
    {
        let mut i = self.records.len();
        while i > 0
            invariant
                i <= self.records@.len(),
                forall|j: int| i <= j < self.records@.len() ==> record_key(self.records@[j]) != key_view(*t),
            decreases i,
        {
            i = i - 1;
            if Self::same_key(&self.records[i].0, t) {
                proof {
                    lemma_progress_last(self.records@, i as int);
                }
                return Some(self.records[i].1);
            }
        }
        proof {
            lemma_progress_absent(self.records@, key_view(*t));
        }
        None
    }

    fn set(&mut self, t: &TermKey, done: bool)
        ensures
            final(self)@ == old(self)@.insert(key_view(*t), done),
    {
        let ghost before = self.records@;
        let r = Self::record_of(t);
        self.records.push((r, done));
        proof {
            assert(self.records@.drop_last() =~= before);
        }
    }

    /// Starts the definition of `t`: `Ok(true)` when it has not started
    /// yet, `Ok(false)` when it is done, and a cyclic IRI mapping when it
    /// is under way.
    pub fn begin(&mut self, t: &TermKey) -> (r: Result<bool, Error>)
        ensures
            match old(self)@.get(key_view(*t)) {
                None => r == Ok::<bool, Error>(true) && final(self)@ == old(self)@.insert(key_view(*t), false),
                Some(true) => r == Ok::<bool, Error>(false) && final(self)@ == old(self)@,
                Some(false) => r == Err::<bool, Error>(Error::CyclicIriMapping) && final(self)@ == old(self)@,
            },
    {
        match self.status(t) {
            None => {
                self.set(t, false);
                Ok(true)
            },
            Some(true) => Ok(false),
            Some(false) => Err(Error::CyclicIriMapping),
        }
    }

    /// Marks the definition of `t` as done.
    pub fn end(&mut self, t: &TermKey)
        ensures
            final(self)@ == old(self)@.insert(key_view(*t), true),
    {
        self.set(t, true);
    }
}

/// Whether `after` keeps the definitions of `before` whose terms have
/// started in `defined`.
pub open spec fn keeps_started(before: Context, after: Context, defined: Map<Option<Seq<char>>, bool>) -> bool {
    &&& forall|k: Seq<char>| #[trigger] defined.contains_key(Some(k)) ==> after.lookup(k) == before.lookup(k)
    &&& defined.contains_key(None) ==> after.type_def() == before.type_def()
}

/// Whether no term is in progress in `after` that was not in `before`.
pub open spec fn no_new_pending(before: Map<Option<Seq<char>>, bool>, after: Map<Option<Seq<char>>, bool>) -> bool {
    forall|k: Option<Seq<char>>| #[trigger] after.get(k) == Some(false) ==> before.get(k) == Some(false)
}

/// Whether `after` keeps every definition of `before` but that of `key`.
pub open spec fn only_key_changed(before: Context, after: Context, key: Seq<char>) -> bool {
    forall|t: Seq<char>| t != key ==> #[trigger] after.lookup(t) == before.lookup(t)
}

/// Whether `after` keeps every definition of `before` whose term has no
/// binding in `bindings`.
pub open spec fn unbound_kept(before: Context, after: Context, bindings: Seq<(String, Nullable<TermDefinitionSyntax>)>) -> bool {
    forall|k: Seq<char>| first_binding_of(bindings, k) is None ==> #[trigger] after.lookup(k) == before.lookup(k)
}

/// Whether every term that has started in `after` but not in `before` has
/// no binding in `bindings`.
pub open spec fn started_unbound(
    before: Map<Option<Seq<char>>, bool>,
    after: Map<Option<Seq<char>>, bool>,
    bindings: Seq<(String, Nullable<TermDefinitionSyntax>)>,
) -> bool {
    forall|t: Seq<char>| #[trigger] after.contains_key(Some(t)) && !before.contains_key(Some(t)) ==> first_binding_of(bindings, t) is None
}

/// Whether the terms in progress in `before` are still in progress in
/// `after`.
pub open spec fn pending_kept(before: Map<Option<Seq<char>>, bool>, after: Map<Option<Seq<char>>, bool>) -> bool {
    forall|k: Option<Seq<char>>| #[trigger] before.get(k) == Some(false) ==> after.get(k) == Some(false)
}

/// Whether the terms in progress in `before`, but `t`, are still in
/// progress in `after`.
pub open spec fn pending_kept_but(before: Map<Option<Seq<char>>, bool>, after: Map<Option<Seq<char>>, bool>, t: Option<Seq<char>>) -> bool {
    forall|k: Option<Seq<char>>| #[trigger] before.get(k) == Some(false) && k != t ==> after.get(k) == Some(false)
}

/// Whether `key` has no binding in `bindings`.
spec fn binding_of_spec_none(bindings: Seq<(String, Nullable<TermDefinitionSyntax>)>, key: Seq<char>) -> bool {
    first_binding_of(bindings, key) is None
}

proof fn lemma_pending_after_begin(d0: Map<Option<Seq<char>>, bool>, d1: Map<Option<Seq<char>>, bool>, d2: Map<Option<Seq<char>>, bool>, t: Option<Seq<char>>)
    requires
        !d0.contains_key(t),
        d1 == d0.insert(t, false),
        pending_kept_but(d1, d2, t),
    ensures
        pending_kept(d0, d2),
{
    assert forall|k: Option<Seq<char>>| #[trigger] d0.get(k) == Some(false) implies d2.get(k) == Some(false) by {
        assert(k != t);
        assert(d1.get(k) == Some(false));
    }
}

proof fn lemma_pending_end(d0: Map<Option<Seq<char>>, bool>, d1: Map<Option<Seq<char>>, bool>, t: Option<Seq<char>>)
    requires
        d1 == d0.insert(t, true),
    ensures
        pending_kept_but(d0, d1, t),
{
    assert forall|k: Option<Seq<char>>| #[trigger] d0.get(k) == Some(false) && k != t implies d1.get(k) == Some(false) by {
        assert(d1.get(k) == d0.get(k));
    }
}

proof fn lemma_pending_but_chain(a: Map<Option<Seq<char>>, bool>, b: Map<Option<Seq<char>>, bool>, c: Map<Option<Seq<char>>, bool>, t: Option<Seq<char>>)
    requires
        pending_kept_but(a, b, t),
        pending_kept(b, c),
    ensures
        pending_kept_but(a, c, t),
{
    assert forall|k: Option<Seq<char>>| #[trigger] a.get(k) == Some(false) && k != t implies c.get(k) == Some(false) by {
        assert(b.get(k) == Some(false));
    }
}

proof fn lemma_pending_chain_to_but(a: Map<Option<Seq<char>>, bool>, b: Map<Option<Seq<char>>, bool>, c: Map<Option<Seq<char>>, bool>, t: Option<Seq<char>>)
    requires
        pending_kept(a, b),
        pending_kept_but(b, c, t),
    ensures
        pending_kept_but(a, c, t),
{
    assert forall|k: Option<Seq<char>>| #[trigger] a.get(k) == Some(false) && k != t implies c.get(k) == Some(false) by {
        assert(b.get(k) == Some(false));
    }
}

/// Whether `v` is what the `@id` entry `s` of a term definition maps the
/// term to under `ctx`, IRI expansion reading the vocabulary mapping with
/// the action `vocab`: the keyword that `s` spells, or the expansion of `s`.
pub open spec fn id_expands_to(ctx: Context, s: Seq<char>, vocab: Action, v: Option<TermBuf>) -> bool {
    if is_keyword_spec(s) {
        v matches Some(Term::Keyword(k)) && keyword_text(k) == s
    } else {
        match expand_string_spec(ctx, s, false, Some(vocab)) {
            Expansion::Dropped => v is None,
            Expansion::Rejected => false,
            e => v matches Some(t) && realizes(t, e),
        }
    }
}

/// The `@id` entry of a binding: a `null` binding has a `null` one, and a
/// string binding is its `@id`.
pub open spec fn id_entry(b: Nullable<TermDefinitionSyntax>) -> Option<Nullable<Seq<char>>> {
    match b {
        Nullable::Null => Some(Nullable::Null),
        Nullable::Value(TermDefinitionSyntax::Simple(t)) => Some(Nullable::Value(t@)),
        Nullable::Value(TermDefinitionSyntax::Expanded(e)) => nullable_view(e.id),
    }
}

/// Whether the binding `b` has a `@reverse` entry.
pub open spec fn has_reverse(b: Nullable<TermDefinitionSyntax>) -> bool {
    expanded_of(b) matches Some(e) && e.reverse is Some
}

/// Whether a binding is a string rather than an expanded definition.
pub open spec fn simple_binding(b: Nullable<TermDefinitionSyntax>) -> bool {
    !(b matches Nullable::Value(TermDefinitionSyntax::Expanded(_)))
}

/// The prefix flag of a term read from the `@id` entry `id` of its binding,
/// absent an explicit `@prefix`: a simple term whose key has no `:` or `/`
/// and whose `@id`, other than the key, maps it to a blank node identifier
/// or to an IRI ending in a generic delimiter.
pub open spec fn prefix_default(id: Option<Nullable<Seq<char>>>, key: Seq<char>, simple: bool, v: Option<TermBuf>) -> bool {
    &&& id matches Some(Nullable::Value(s)) && s != key
    &&& simple
    &&& !key.contains(':')
    &&& !key.contains('/')
    &&& v matches Some(t) && gen_delim_or_blank(t)
}

/// Whether the definition `d` of `key` has the prefix flag its binding `b`
/// gives: the explicit `@prefix` when there is one (see
/// [`follows_binding`]), otherwise [`prefix_default`], and none for a
/// reverse property.
pub open spec fn prefix_mapped(b: Nullable<TermDefinitionSyntax>, key: Seq<char>, d: NormalTermDefinition) -> bool {
    (expanded_of(b) matches Some(e) && e.prefix is Some) || d.prefix == (!has_reverse(b) && prefix_default(
        id_entry(b),
        key,
        simple_binding(b),
        d.value,
    ))
}

/// Whether the IRI mapping `v` of the term `key` is what the `@id` entry of
/// its binding `b` gives under `ctx` (see [`id_expands_to`]): none for a
/// `null` `@id`. A reverse property, a term whose `@id` is itself, and one
/// without `@id` take their mapping by other rules, left open here.
pub open spec fn id_mapped(ctx: Context, b: Nullable<TermDefinitionSyntax>, key: Seq<char>, vocab: Action, v: Option<TermBuf>) -> bool {
    has_reverse(b) || match id_entry(b) {
        Some(Nullable::Null) => v is None,
        Some(Nullable::Value(s)) => s == key || id_expands_to(ctx, s, vocab, v),
        None => true,
    }
}

/// Whether the terms that expanding the `@id` entry of the binding `b` of
/// `key` reads have started in `defined`.
pub open spec fn id_reads_started(
    defined: Map<Option<Seq<char>>, bool>,
    ctx: Context,
    b: Nullable<TermDefinitionSyntax>,
    key: Seq<char>,
    vocab: Action,
) -> bool {
    has_reverse(b) || match id_entry(b) {
        Some(Nullable::Value(s)) => s == key || reads_started(defined, ctx, s, Some(vocab)),
        _ => true,
    }
}

/// Whether none of the terms that expanding the `@id` entry of the binding
/// `b` of `key` reads is in progress in `defined`.
pub open spec fn id_reads_settled(
    defined: Map<Option<Seq<char>>, bool>,
    ctx: Context,
    b: Nullable<TermDefinitionSyntax>,
    key: Seq<char>,
    vocab: Action,
) -> bool {
    has_reverse(b) || match id_entry(b) {
        Some(Nullable::Value(s)) => s == key || reads_settled(defined, ctx, s, Some(vocab)),
        _ => true,
    }
}

/// The prefix of a compact IRI: what comes before its first colon.
pub open spec fn iri_prefix(s: Seq<char>) -> Seq<char> {
    s.subrange(0, first_index(s, ':').unwrap())
}

/// Whether expanding `s` under `ctx` reads the definition of the prefix of
/// `s`: `s` is a compact IRI that is neither a term expansion reaches first
/// nor a blank node identifier.
pub open spec fn prefix_read(ctx: Context, s: Seq<char>, vocab: Option<Action>) -> bool {
    &&& !is_keyword_like_spec(s)
    &&& keyword_mapping(ctx, s) is None
    &&& !(ctx.lookup(s) is Some && vocab is Some)
    &&& first_index(s, ':') matches Some(i) && i > 0
    &&& !blank_id_valid(s)
    &&& compact_iri_shape(s)
}

/// Whether the terms that expanding `s` under `ctx` reads, `s` and perhaps
/// its prefix, have started in `defined`; a keyword reads none.
pub open spec fn reads_started(defined: Map<Option<Seq<char>>, bool>, ctx: Context, s: Seq<char>, vocab: Option<Action>) -> bool {
    is_keyword_like_spec(s) || is_keyword_spec(s) || (defined.contains_key(Some(s)) && (prefix_read(ctx, s, vocab)
        ==> defined.contains_key(Some(iri_prefix(s)))))
}

/// Whether none of the terms that expanding `s` under `ctx` reads is in
/// progress in `defined`.
pub open spec fn reads_settled(defined: Map<Option<Seq<char>>, bool>, ctx: Context, s: Seq<char>, vocab: Option<Action>) -> bool {
    is_keyword_like_spec(s) || is_keyword_spec(s) || (defined.get(Some(s)) != Some(false) && (prefix_read(ctx, s, vocab)
        ==> defined.get(Some(iri_prefix(s))) != Some(false)))
}

/// Expansion of `s` gives the same result in two contexts that agree on the
/// terms it reads and on the settings it uses.
proof fn lemma_expansion_stable(
    c1: Context,
    c2: Context,
    s: Seq<char>,
    document_relative: bool,
    vocab: Option<Action>,
    defined: Map<Option<Seq<char>>, bool>,
)
    requires
        !is_keyword_like_spec(s),
        defined.contains_key(Some(s)),
        prefix_read(c1, s, vocab) ==> defined.contains_key(Some(iri_prefix(s))),
        keeps_started(c1, c2, defined),
        settings_kept(c1, c2),
        c1.mode() == c2.mode(),
    ensures
        expand_string_spec(c1, s, document_relative, vocab) == expand_string_spec(c2, s, document_relative, vocab),
        prefix_read(c1, s, vocab) == prefix_read(c2, s, vocab),
{
    assert(c1.lookup(s) == c2.lookup(s));
    assert(keyword_mapping(c1, s) == keyword_mapping(c2, s));
    assert(vocab_id_text(c1) == vocab_id_text(c2));
    if prefix_read(c1, s, vocab) {
        assert(c1.lookup(iri_prefix(s)) == c2.lookup(iri_prefix(s)));
        assert(prefix_expansion(c1, s) == prefix_expansion(c2, s));
    }
}

/// Whether every term started in `before` is started in `after`.
pub open spec fn grows(before: Map<Option<Seq<char>>, bool>, after: Map<Option<Seq<char>>, bool>) -> bool {
    forall|k: Option<Seq<char>>| #[trigger] before.contains_key(k) ==> after.contains_key(k)
}

/// Whether the term `k` is defined in `ctx` as its first binding in
/// `bindings` declares: a skipped binding leaves the term undefined, any
/// other gives it a definition that follows the binding, with the IRI
/// mapping that its `@id` expands to in `ctx` (see [`id_mapped`]) and the
/// prefix flag the binding gives (see [`prefix_mapped`]).
pub open spec fn term_as_bound(ctx: Context, bindings: Seq<(String, Nullable<TermDefinitionSyntax>)>, k: Seq<char>, vocab: Action) -> bool {
    match first_binding_of(bindings, k) {
        Some(b) => if skipped_binding(b, k) {
            ctx.lookup(k) is None
        } else {
            ctx.lookup(k) matches Some(d) && follows_binding(d, b) && id_mapped(ctx, b, k, vocab, d.value) && prefix_mapped(b, k, d)
        },
        None => true,
    }
}

/// Whether the terms that the binding of `k` reads for its IRI mapping
/// have started in `defined`.
pub open spec fn term_reads_started(
    defined: Map<Option<Seq<char>>, bool>,
    ctx: Context,
    bindings: Seq<(String, Nullable<TermDefinitionSyntax>)>,
    k: Seq<char>,
    vocab: Action,
) -> bool {
    match first_binding_of(bindings, k) {
        Some(b) => skipped_binding(b, k) || id_reads_started(defined, ctx, b, k, vocab),
        None => true,
    }
}

/// Whether none of the terms that the binding of `k` reads for its IRI
/// mapping is in progress in `defined`.
pub open spec fn term_reads_settled(
    defined: Map<Option<Seq<char>>, bool>,
    ctx: Context,
    bindings: Seq<(String, Nullable<TermDefinitionSyntax>)>,
    k: Seq<char>,
    vocab: Action,
) -> bool {
    match first_binding_of(bindings, k) {
        Some(b) => skipped_binding(b, k) || id_reads_settled(defined, ctx, b, k, vocab),
        None => true,
    }
}

/// Whether the terms started in `after` but not in `before` are defined in
/// `ctx` as their bindings declare, the terms their IRI mappings read have
/// started in `after`, and none of those was in progress in `before`.
pub open spec fn new_terms_as_bound(
    before: Map<Option<Seq<char>>, bool>,
    after: Map<Option<Seq<char>>, bool>,
    ctx: Context,
    bindings: Seq<(String, Nullable<TermDefinitionSyntax>)>,
    vocab: Action,
) -> bool {
    forall|k: Seq<char>| #[trigger] after.contains_key(Some(k)) && !before.contains_key(Some(k)) ==> term_as_bound(ctx, bindings, k, vocab)
        && term_reads_started(after, ctx, bindings, k, vocab) && term_reads_settled(before, ctx, bindings, k, vocab)
}

/// A term defined as its binding declares stays so in a later context that
/// keeps the started terms and the settings.
proof fn lemma_term_as_bound_stable(
    d1: Map<Option<Seq<char>>, bool>,
    d2: Map<Option<Seq<char>>, bool>,
    p: Map<Option<Seq<char>>, bool>,
    c1: Context,
    c2: Context,
    bindings: Seq<(String, Nullable<TermDefinitionSyntax>)>,
    k: Seq<char>,
    vocab: Action,
)
    requires
        d1.contains_key(Some(k)),
        term_as_bound(c1, bindings, k, vocab),
        term_reads_started(d1, c1, bindings, k, vocab),
        term_reads_settled(p, c1, bindings, k, vocab),
        keeps_started(c1, c2, d1),
        grows(d1, d2),
        settings_kept(c1, c2),
        c1.mode() == c2.mode(),
    ensures
        term_as_bound(c2, bindings, k, vocab),
        term_reads_started(d2, c2, bindings, k, vocab),
        term_reads_settled(p, c2, bindings, k, vocab),
{
    assert(c2.lookup(k) == c1.lookup(k));
    if let Some(b) = first_binding_of(bindings, k) {
        if !skipped_binding(b, k) && !has_reverse(b) {
            if let Some(Nullable::Value(sid)) = id_entry(b) {
                if sid != k && !is_keyword_like_spec(sid) && !is_keyword_spec(sid) {
                    lemma_expansion_stable(c1, c2, sid, false, Some(vocab), d1);
                }
            }
        }
    }
}

/// Terms whose reads avoid the terms in progress in `b` avoid those in
/// progress in `a`, when `b` keeps them in progress.
proof fn lemma_settled_weaken(
    a: Map<Option<Seq<char>>, bool>,
    b: Map<Option<Seq<char>>, bool>,
    ctx: Context,
    bindings: Seq<(String, Nullable<TermDefinitionSyntax>)>,
    k: Seq<char>,
    vocab: Action,
)
    requires
        pending_kept(a, b),
        term_reads_settled(b, ctx, bindings, k, vocab),
    ensures
        term_reads_settled(a, ctx, bindings, k, vocab),
{
    if let Some(bd) = first_binding_of(bindings, k) {
        if let Some(Nullable::Value(sid)) = id_entry(bd) {
            if a.get(Some(sid)) == Some(false) {
                assert(b.get(Some(sid)) == Some(false));
            }
            if prefix_read(ctx, sid, Some(vocab)) && a.get(Some(iri_prefix(sid))) == Some(false) {
                assert(b.get(Some(iri_prefix(sid))) == Some(false));
            }
        }
    }
}

proof fn lemma_new_terms_trans(
    d0: Map<Option<Seq<char>>, bool>,
    d1: Map<Option<Seq<char>>, bool>,
    d2: Map<Option<Seq<char>>, bool>,
    c1: Context,
    c2: Context,
    bindings: Seq<(String, Nullable<TermDefinitionSyntax>)>,
    vocab: Action,
)
    requires
        new_terms_as_bound(d0, d1, c1, bindings, vocab),
        new_terms_as_bound(d1, d2, c2, bindings, vocab),
        keeps_started(c1, c2, d1),
        grows(d1, d2),
        pending_kept(d0, d1),
        settings_kept(c1, c2),
        c1.mode() == c2.mode(),
    ensures
        new_terms_as_bound(d0, d2, c2, bindings, vocab),
{
    assert forall|k: Seq<char>| #[trigger] d2.contains_key(Some(k)) && !d0.contains_key(Some(k)) implies term_as_bound(c2, bindings, k, vocab)
        && term_reads_started(d2, c2, bindings, k, vocab) && term_reads_settled(d0, c2, bindings, k, vocab) by {
        if d1.contains_key(Some(k)) {
            lemma_term_as_bound_stable(d1, d2, d0, c1, c2, bindings, k, vocab);
        } else {
            lemma_settled_weaken(d0, d1, c2, bindings, k, vocab);
        }
    }
}

/// New terms stay defined as bound when only the definition of a term that
/// was in progress when they started changes: none of them reads it.
proof fn lemma_new_terms_except(
    d0: Map<Option<Seq<char>>, bool>,
    d1: Map<Option<Seq<char>>, bool>,
    c1: Context,
    c2: Context,
    bindings: Seq<(String, Nullable<TermDefinitionSyntax>)>,
    vocab: Action,
    key: Seq<char>,
)
    requires
        new_terms_as_bound(d0, d1, c1, bindings, vocab),
        d0.get(Some(key)) == Some(false),
        forall|k: Seq<char>| k != key ==> #[trigger] c2.lookup(k) == c1.lookup(k),
        c2.type_def() == c1.type_def(),
        settings_kept(c1, c2),
        c1.mode() == c2.mode(),
    ensures
        new_terms_as_bound(d0, d1, c2, bindings, vocab),
{
    let dk = d1.remove(Some(key));
    assert forall|k: Seq<char>| #[trigger] d1.contains_key(Some(k)) && !d0.contains_key(Some(k)) implies term_as_bound(c2, bindings, k, vocab)
        && term_reads_started(d1, c2, bindings, k, vocab) && term_reads_settled(d0, c2, bindings, k, vocab) by {
        assert(k != key);
        assert(keeps_started(c1, c2, dk)) by {
            assert forall|j: Seq<char>| #[trigger] dk.contains_key(Some(j)) implies c2.lookup(j) == c1.lookup(j) by {
                assert(j != key);
            }
        }
        if let Some(b) = first_binding_of(bindings, k) {
            if let Some(Nullable::Value(sid)) = id_entry(b) {
                if !skipped_binding(b, k) && !has_reverse(b) && sid != k && !is_keyword_like_spec(sid) && !is_keyword_spec(sid) {
                    assert(sid != key);
                    assert(dk.contains_key(Some(sid)));
                    if prefix_read(c1, sid, Some(vocab)) {
                        assert(iri_prefix(sid) != key);
                        assert(dk.contains_key(Some(iri_prefix(sid))));
                    }
                }
            }
        }
        assert(term_reads_started(dk, c1, bindings, k, vocab));
        lemma_term_as_bound_stable(dk, d1, d0, c1, c2, bindings, k, vocab);
    }
}

/// Whether none of the terms that the IRI mappings of the terms started in
/// `after` but not in `before` read is in progress in `base`.
pub open spec fn new_terms_settled(
    before: Map<Option<Seq<char>>, bool>,
    after: Map<Option<Seq<char>>, bool>,
    ctx: Context,
    bindings: Seq<(String, Nullable<TermDefinitionSyntax>)>,
    vocab: Action,
    base: Map<Option<Seq<char>>, bool>,
) -> bool {
    forall|k: Seq<char>| #[trigger] after.contains_key(Some(k)) && !before.contains_key(Some(k)) ==> term_reads_settled(base, ctx, bindings, k, vocab)
}

/// The prefix of a compact IRI holds no colon.
proof fn lemma_prefix_has_no_colon(s: Seq<char>)
    requires
        first_index(s, ':') is Some,
    ensures
        !iri_prefix(s).contains(':'),
{
    lemma_first_index(s, ':');
    let i = first_index(s, ':').unwrap();
    assert forall|j: int| 0 <= j < iri_prefix(s).len() implies iri_prefix(s)[j] != ':' by {
        assert(iri_prefix(s)[j] == s[j]);
    }
}

/// A term started while the compact IRI `key` is expanded, after `key` was
/// marked done but before it is defined, reads no term in progress before:
/// reading `key` would read its prefix, which is then in progress.
proof fn lemma_settled_past_key(
    d0: Map<Option<Seq<char>>, bool>,
    d1: Map<Option<Seq<char>>, bool>,
    ctx: Context,
    bindings: Seq<(String, Nullable<TermDefinitionSyntax>)>,
    k: Seq<char>,
    vocab: Action,
    key: Seq<char>,
)
    requires
        pending_kept(d0, d1),
        first_index(key, ':') is Some,
        prefix_read(ctx, key, Some(vocab)),
        term_reads_settled(d1.insert(Some(key), true).insert(Some(iri_prefix(key)), false), ctx, bindings, k, vocab),
    ensures
        term_reads_settled(d0, ctx, bindings, k, vocab),
{
    let base = d1.insert(Some(key), true).insert(Some(iri_prefix(key)), false);
    lemma_prefix_has_no_colon(key);
    assert(key.contains(':')) by {
        lemma_first_index(key, ':');
        let i = first_index(key, ':').unwrap();
        assert(key[i] == ':');
    }
    assert(iri_prefix(key) != key);
    if let Some(b) = first_binding_of(bindings, k) {
        if let Some(Nullable::Value(sid)) = id_entry(b) {
            if !skipped_binding(b, k) && !has_reverse(b) && sid != k && !is_keyword_like_spec(sid) && !is_keyword_spec(sid) {
                if d0.get(Some(sid)) == Some(false) {
                    assert(d1.get(Some(sid)) == Some(false));
                    if sid == key {
                        assert(base.get(Some(iri_prefix(key))) == Some(false));
                    } else {
                        assert(base.get(Some(sid)) == Some(false));
                    }
                }
                if prefix_read(ctx, sid, Some(vocab)) && d0.get(Some(iri_prefix(sid))) == Some(false) {
                    lemma_prefix_has_no_colon(sid);
                    assert(iri_prefix(sid) != key);
                    assert(d1.get(Some(iri_prefix(sid))) == Some(false));
                    assert(base.get(Some(iri_prefix(sid))) == Some(false));
                }
            }
        }
    }
}

/// The terms started while expanding a term's own key, after the key was
/// marked done, are defined as bound and read nothing in progress before.
proof fn lemma_key_round_trip(
    d0: Map<Option<Seq<char>>, bool>,
    d1: Map<Option<Seq<char>>, bool>,
    d3: Map<Option<Seq<char>>, bool>,
    c1: Context,
    c3: Context,
    bindings: Seq<(String, Nullable<TermDefinitionSyntax>)>,
    vocab: Action,
    key: Seq<char>,
)
    requires
        d0.contains_key(Some(key)),
        new_terms_as_bound(d0, d1, c1, bindings, vocab),
        pending_kept(d0, d1),
        grows(d0, d1),
        new_terms_as_bound(d1.insert(Some(key), true), d3, c3, bindings, vocab),
        keeps_started(c1, c3, d1.insert(Some(key), true)),
        grows(d1.insert(Some(key), true), d3),
        settings_kept(c1, c3),
        c1.mode() == c3.mode(),
        prefix_read(c3, key, Some(vocab)) ==> new_terms_settled(
            d1.insert(Some(key), true),
            d3,
            c3,
            bindings,
            vocab,
            d1.insert(Some(key), true).insert(Some(iri_prefix(key)), false),
        ),
        !prefix_read(c3, key, Some(vocab)) ==> d3 == d1.insert(Some(key), true),
    ensures
        new_terms_as_bound(d0, d3, c3, bindings, vocab),
{
    let d2 = d1.insert(Some(key), true);
    assert(keeps_started(c1, c3, d1)) by {
        assert forall|k: Seq<char>| #[trigger] d1.contains_key(Some(k)) implies c3.lookup(k) == c1.lookup(k) by {
            assert(d2.contains_key(Some(k)));
        }
        if d1.contains_key(None) {
            assert(d2.contains_key(None));
        }
    }
    assert(grows(d1, d3)) by {
        assert forall|k: Option<Seq<char>>| #[trigger] d1.contains_key(k) implies d3.contains_key(k) by {
            assert(d2.contains_key(k));
        }
    }
    assert forall|k: Seq<char>| #[trigger] d3.contains_key(Some(k)) && !d0.contains_key(Some(k)) implies term_as_bound(c3, bindings, k, vocab)
        && term_reads_started(d3, c3, bindings, k, vocab) && term_reads_settled(d0, c3, bindings, k, vocab) by {
        if d1.contains_key(Some(k)) {
            lemma_term_as_bound_stable(d1, d3, d0, c1, c3, bindings, k, vocab);
        } else {
            assert(k != key);
            assert(!d2.contains_key(Some(k)));
            if prefix_read(c3, key, Some(vocab)) {
                lemma_settled_past_key(d0, d1, c3, bindings, k, vocab, key);
            }
        }
    }
}

/// Whether `c` is a generic delimiter of RFC 3986.
fn is_gen_delim(c: char) -> (b: bool)
    ensures
        b == (c == ':' || c == '/' || c == '?' || c == '#' || c == '[' || c == ']' || c == '@'),
{
    c == ':' || c == '/' || c == '?' || c == '#' || c == '[' || c == ']' || c == '@'
}

/// Whether `c` is a generic delimiter of RFC 3986.
pub open spec fn gen_delim(c: char) -> bool {
    c == ':' || c == '/' || c == '?' || c == '#' || c == '[' || c == ']' || c == '@'
}

/// Whether `t` is a blank node identifier, or an IRI whose last character
/// is a generic delimiter: what makes a simple term usable as a prefix.
pub open spec fn gen_delim_or_blank(t: TermBuf) -> bool {
    match t {
        Term::Id(Id::Valid(ValidId::Blank(_))) => true,
        Term::Id(Id::Valid(ValidId::Iri(i))) => i@.len() > 0 && gen_delim(i@.last()),
        _ => false,
    }
}

/// Whether `t` is a blank node identifier, or an IRI whose last character
/// is a generic delimiter.
fn is_gen_delim_or_blank(t: &TermBuf) -> (b: bool)
    ensures
        b == gen_delim_or_blank(*t),
{
    match t {
        Term::Id(Id::Valid(ValidId::Blank(_))) => true,
        Term::Id(Id::Valid(ValidId::Iri(i))) => {
            let cs = chars_of(i.as_str());
            if cs.len() == 0 {
                false
            } else {
                is_gen_delim(cs[cs.len() - 1])
            }
        },
        _ => false,
    }
}

/// Whether `c` occurs in `s`.
fn contains_char(s: &[char], c: char) -> (b: bool)
    ensures
        b == s@.contains(c),
{
    find_char(s, c).is_some()
}

/// Whether `c` occurs in `s` as neither its first nor its last character:
/// its first occurrence is not at the start and its last not at the end.
fn contains_between_boundaries(s: &[char], c: char) -> (b: bool)
    ensures
        b == (s@.contains(c) && s@[0] != c && s@[s@.len() - 1] != c),
{
    match find_char(s, c) {
        Some(i) => {
            let mut j = s.len();
            while j > 0
                invariant
                    j <= s@.len(),
                    i < s@.len(),
                    s@[i as int] == c,
                    forall|k: int| 0 <= k < i ==> s@[k] != c,
                    forall|k: int| j <= k < s@.len() ==> s@[k] != c,
                decreases j,
            {
                j = j - 1;
                if s[j] == c {
                    proof {
                        assert(s@.contains(c));
                        if i > 0 {
                            assert(s@[0] != c);
                        }
                    }
                    return i > 0 && j + 1 < s.len();
                }
            }
            proof {
                assert(s@[i as int] != c);
            }
            false
        },
        None => false,
    }
}

/// The value to expand for an `@id` or `@type` entry: a keyword when it
/// spells one.
fn expandable_of<'a>(s: &'a str) -> (r: Expandable<'a>)
    ensures
        match r {
            Expandable::Keyword(k) => keyword_text(k) == s@,
            Expandable::String(t) => t@ == s@ && !is_keyword_spec(s@),
        },
{
    let cs = chars_of(s);
    match Keyword::try_from_chars(cs.as_slice()) {
        Some(k) => Expandable::Keyword(k),
        None => Expandable::String(s),
    }
}

/// The type mapping a term stands for: `@id`, `@json`, `@none`, `@vocab`
/// or an IRI.
fn type_of_term(t: &TermBuf) -> (r: Option<SyntaxType<String>>)
    ensures
        r == match *t {
            Term::Keyword(Keyword::Id) => Some(SyntaxType::<String>::Id),
            Term::Keyword(Keyword::Json) => Some(SyntaxType::<String>::Json),
            Term::Keyword(Keyword::AtNone) => Some(SyntaxType::<String>::Nothing),
            Term::Keyword(Keyword::Vocab) => Some(SyntaxType::<String>::Vocab),
            Term::Id(Id::Valid(ValidId::Iri(i))) => Some(SyntaxType::Iri(i)),
            _ => None,
        },
{
    match t {
        Term::Keyword(Keyword::Id) => Some(SyntaxType::Id),
        Term::Keyword(Keyword::Json) => Some(SyntaxType::Json),
        Term::Keyword(Keyword::AtNone) => Some(SyntaxType::Nothing),
        Term::Keyword(Keyword::Vocab) => Some(SyntaxType::Vocab),
        Term::Id(Id::Valid(ValidId::Iri(i))) => Some(SyntaxType::Iri(i.clone())),
        _ => None,
    }
}

/// The first binding of `key` among `bindings`, if any.
pub open spec fn first_binding_of(bindings: Seq<(String, Nullable<TermDefinitionSyntax>)>, key: Seq<char>) -> Option<Nullable<TermDefinitionSyntax>>
    decreases bindings.len(),
{
    if bindings.len() == 0 {
        None
    } else if bindings[0].0@ == key {
        Some(bindings[0].1)
    } else {
        first_binding_of(bindings.drop_first(), key)
    }
}

/// The binding of `key` in a context definition, if any.
fn binding_of<'a>(local: &'a ContextDefinition, key: &String) -> (r: Option<&'a Nullable<TermDefinitionSyntax>>)
    ensures
        match first_binding_of(local.bindings@, key@) {
            Some(b) => r == Some(&b),
            None => r is None,
        },
{
    let mut i: usize = 0;
    proof {
        assert(local.bindings@.subrange(0, local.bindings@.len() as int) =~= local.bindings@);
    }
    while i < local.bindings.len()
        invariant
            i <= local.bindings@.len(),
            first_binding_of(local.bindings@, key@) == first_binding_of(local.bindings@.subrange(i as int, local.bindings@.len() as int), key@),
        decreases local.bindings@.len() - i,
    {
        proof {
            let rest = local.bindings@.subrange(i as int, local.bindings@.len() as int);
            assert(rest[0] == local.bindings@[i as int]);
            assert(rest.drop_first() =~= local.bindings@.subrange(i + 1, local.bindings@.len() as int));
        }
        if local.bindings[i].0 == *key {
            return Some(&local.bindings[i].1);
        }
        i = i + 1;
    }
    proof {
        assert(local.bindings@.subrange(i as int, local.bindings@.len() as int) =~= Seq::<(String, Nullable<TermDefinitionSyntax>)>::empty());
    }
    None
}

/// The expanded term definition object a binding holds, if any.
pub open spec fn expanded_of(b: Nullable<TermDefinitionSyntax>) -> Option<ExpandedDefinition> {
    match b {
        Nullable::Value(TermDefinitionSyntax::Expanded(e)) => Some(*e),
        _ => None,
    }
}

/// Views of an optional, possibly `null`, string.
pub open spec fn nullable_view(s: Option<Nullable<String>>) -> Option<Nullable<Seq<char>>> {
    match s {
        Some(Nullable::Value(x)) => Some(Nullable::Value(x@)),
        Some(Nullable::Null) => Some(Nullable::Null),
        None => None,
    }
}

/// Views of an optional, possibly `null`, string slice.
spec fn nullable_str_view(s: Option<Nullable<&str>>) -> Option<Nullable<Seq<char>>> {
    match s {
        Some(Nullable::Value(x)) => Some(Nullable::Value(x@)),
        Some(Nullable::Null) => Some(Nullable::Null),
        None => None,
    }
}

/// Views of an optional string slice.
spec fn str_view(s: Option<&str>) -> Option<Seq<char>> {
    match s {
        Some(x) => Some(x@),
        None => None,
    }
}

/// Whether `out` is the container mapping that the `@container` entry `c`
/// denotes.
pub open spec fn container_denoted(c: Nullable<ContainerSyntax>, out: Container) -> bool {
    match c {
        Nullable::Null => out == Container::Empty,
        Nullable::Value(ContainerSyntax::One(k)) => out == Container::from_kind_spec(k),
        Nullable::Value(ContainerSyntax::Many(m)) => combine(Container::Empty, m@) == Ok::<Container, ContainerKind>(out),
    }
}

/// The type mapping a keyword written as `@type` stands for: `@id`,
/// `@json`, `@none` or `@vocab`.
pub open spec fn keyword_type(t: Seq<char>) -> Option<SyntaxType<Seq<char>>> {
    if t == keyword_text(Keyword::Id) {
        Some(SyntaxType::Id)
    } else if t == keyword_text(Keyword::Json) {
        Some(SyntaxType::Json)
    } else if t == keyword_text(Keyword::AtNone) {
        Some(SyntaxType::Nothing)
    } else if t == keyword_text(Keyword::Vocab) {
        Some(SyntaxType::Vocab)
    } else {
        None
    }
}

/// The type mapping a keyword stands for, read from its spelling.
proof fn lemma_keyword_type_of(k: Keyword)
    ensures
        keyword_type(keyword_text(k)) == match k {
            Keyword::Id => Some(SyntaxType::<Seq<char>>::Id),
            Keyword::Json => Some(SyntaxType::<Seq<char>>::Json),
            Keyword::AtNone => Some(SyntaxType::<Seq<char>>::Nothing),
            Keyword::Vocab => Some(SyntaxType::<Seq<char>>::Vocab),
            _ => None,
        },
{
    let t = keyword_text(k);
    let id = keyword_text(Keyword::Id);
    let json = keyword_text(Keyword::Json);
    let none = keyword_text(Keyword::AtNone);
    let vocab = keyword_text(Keyword::Vocab);
    assert(id.len() == 3 && id[1] == 'i');
    assert(json.len() == 5 && json[1] == 'j');
    assert(none.len() == 5 && none[1] == 'n');
    assert(vocab.len() == 6 && vocab[1] == 'v');
    match k {
        Keyword::Id | Keyword::Json | Keyword::AtNone | Keyword::Vocab => {},
        _ => {
            assert(t != id && t != json && t != none && t != vocab) by {
                if t.len() == 3 || t.len() == 5 || t.len() == 6 {
                    assert(t[1] != 'i' || t.len() != 3);
                }
            }
        },
    }
}

/// Whether the definition `d` has the container, language, direction,
/// index, nest, reverse, prefix and scoped context entries that the binding
/// `b` declares: what a term definition takes from its syntax as written,
/// beside its IRI and type mappings. Language and direction are only read
/// from a definition without `@type`; `@protected: true` makes it
/// protected.
pub open spec fn follows_binding(d: NormalTermDefinition, b: Nullable<TermDefinitionSyntax>) -> bool {
    match expanded_of(b) {
        Some(e) => {
            &&& match e.container {
                Some(c) => container_denoted(c, d.container),
                None => d.container == Container::Empty,
            }
            &&& (e.type_ is None && e.language is Some) ==> nullable_view(d.language) == nullable_view(e.language)
            &&& !(e.type_ is None && e.language is Some) ==> d.language is None
            &&& (e.type_ is None && e.direction is Some) ==> d.direction == e.direction
            &&& !(e.type_ is None && e.direction is Some) ==> d.direction is None
            &&& opt_view(d.index) == opt_view(e.index)
            &&& opt_view(d.nest) == opt_view(e.nest)
            &&& d.reverse_property == e.reverse is Some
            &&& (e.prefix is Some) ==> d.prefix == e.prefix.unwrap()
            &&& (e.type_ is Some && e.type_.unwrap() is Value && keyword_type(e.type_.unwrap()->Value_0@) is Some)
                ==> (d.typ is Some && crate::inverse::type_view(d.typ.unwrap()) == keyword_type(e.type_.unwrap()->Value_0@).unwrap())
            &&& e.type_ is None ==> d.typ == (if d.container.has(ContainerKind::Type) { Some(SyntaxType::<String>::Id) } else { None })
            &&& e.context is Some ==> (d.context matches Some(c) && local_view(*c) == local_view(*e.context.unwrap()))
            &&& e.context is None ==> d.context is None
            &&& e.protected == Some(true) ==> d.protected
        },
        None => {
            &&& d.context is None
            &&& d.container == Container::Empty
            &&& d.language is None
            &&& d.direction is None
            &&& d.index is None
            &&& d.nest is None
            &&& !d.reverse_property
            &&& d.typ is None
        },
    }
}

/// Whether an `@id` entry only has the form of a keyword, so that the term
/// is skipped: it differs from the term, looks like a keyword, and is none.
pub open spec fn skipped_id_text(id: Option<Nullable<Seq<char>>>, key: Seq<char>) -> bool {
    id matches Some(Nullable::Value(i)) && i != key && is_keyword_like_spec(i) && !is_keyword_spec(i)
}

/// [`skipped_id_text`] of a borrowed `@id` entry.
spec fn skipped_id(id: Option<Nullable<&str>>, key: Seq<char>) -> bool {
    skipped_id_text(nullable_str_view(id), key)
}

/// Whether the binding `b` of `key` is skipped with a warning rather than
/// defining the term: its `@reverse`, when it has one, or else its `@id`,
/// only has the form of a keyword.
pub open spec fn skipped_binding(b: Nullable<TermDefinitionSyntax>, key: Seq<char>) -> bool {
    match b {
        Nullable::Null => false,
        Nullable::Value(TermDefinitionSyntax::Simple(s)) => skipped_id_text(Some(Nullable::Value(s@)), key),
        Nullable::Value(TermDefinitionSyntax::Expanded(e)) => match e.reverse {
            Some(r) => is_keyword_like_spec(r@),
            None => skipped_id_text(nullable_view(e.id), key),
        },
    }
}

/// A term definition read as an expanded one: a `null` definition has a
/// `null` `@id`, and a string definition is its `@id`.
struct ExpandedRef<'a> {
    id: Option<Nullable<&'a str>>,
    type_: Option<Nullable<&'a str>>,
    context: Option<&'a LocalContext>,
    reverse: Option<&'a str>,
    index: Option<&'a str>,
    language: Option<Nullable<&'a str>>,
    direction: Option<Nullable<Direction>>,
    container: Option<Nullable<&'a ContainerSyntax>>,
    nest: Option<&'a str>,
    prefix: Option<bool>,
    propagate: Option<bool>,
    protected: Option<bool>,
}

fn opt_str<'a>(s: &'a Option<String>) -> (r: Option<&'a str>)
    ensures
        str_view(r) == opt_view(*s),
{
    match s {
        Some(x) => Some(x.as_str()),
        None => None,
    }
}

fn opt_nullable_str<'a>(s: &'a Option<Nullable<String>>) -> (r: Option<Nullable<&'a str>>)
    ensures
        nullable_str_view(r) == nullable_view(*s),
{
    match s {
        Some(Nullable::Value(x)) => Some(Nullable::Value(x.as_str())),
        Some(Nullable::Null) => Some(Nullable::Null),
        None => None,
    }
}

fn expanded_ref<'a>(d: &'a Nullable<TermDefinitionSyntax>) -> (r: ExpandedRef<'a>)
    ensures
        nullable_str_view(r.id) == match *d {
            Nullable::Null => Some(Nullable::<Seq<char>>::Null),
            Nullable::Value(TermDefinitionSyntax::Simple(t)) => Some(Nullable::Value(t@)),
            Nullable::Value(TermDefinitionSyntax::Expanded(e)) => nullable_view(e.id),
        },
        str_view(r.reverse) == match expanded_of(*d) {
            Some(e) => opt_view(e.reverse),
            None => None,
        },
        match expanded_of(*d) {
            Some(e) => {
                &&& r.container == match e.container {
                    Some(Nullable::Value(c)) => Some(Nullable::Value(&c)),
                    Some(Nullable::Null) => Some(Nullable::<&ContainerSyntax>::Null),
                    None => None::<Nullable<&ContainerSyntax>>,
                }
                &&& (r.type_ is Some <==> e.type_ is Some)
                &&& nullable_str_view(r.type_) == nullable_view(e.type_)
                &&& nullable_str_view(r.language) == nullable_view(e.language)
                &&& r.direction == e.direction
                &&& str_view(r.index) == opt_view(e.index)
                &&& str_view(r.nest) == opt_view(e.nest)
                &&& (r.reverse is Some <==> e.reverse is Some)
                &&& r.prefix == e.prefix
                &&& r.protected == e.protected
                &&& r.propagate == e.propagate
                &&& (r.context is Some <==> e.context is Some)
                &&& (r.context is Some ==> *r.context.unwrap() == *e.context.unwrap())
            },
            None => {
                &&& r.protected is None
                &&& r.propagate is None
                &&& r.context is None
                &&& r.container is None
                &&& r.type_ is None
                &&& r.language is None
                &&& r.direction is None
                &&& r.index is None
                &&& r.nest is None
                &&& r.reverse is None
                &&& r.prefix is None
            },
        },
{
    match d {
        Nullable::Null => ExpandedRef {
            id: Some(Nullable::Null),
            type_: None,
            context: None,
            reverse: None,
            index: None,
            language: None,
            direction: None,
            container: None,
            nest: None,
            prefix: None,
            propagate: None,
            protected: None,
        },
        Nullable::Value(TermDefinitionSyntax::Simple(s)) => ExpandedRef {
            id: Some(Nullable::Value(s.as_str())),
            type_: None,
            context: None,
            reverse: None,
            index: None,
            language: None,
            direction: None,
            container: None,
            nest: None,
            prefix: None,
            propagate: None,
            protected: None,
        },
        Nullable::Value(TermDefinitionSyntax::Expanded(e)) => {
            let e: &ExpandedDefinition = &**e;
            ExpandedRef {
                id: opt_nullable_str(&e.id),
                type_: opt_nullable_str(&e.type_),
                context: match &e.context {
                    Some(c) => Some(&**c),
                    None => None,
                },
                reverse: opt_str(&e.reverse),
                index: opt_str(&e.index),
                language: opt_nullable_str(&e.language),
                direction: e.direction,
                container: match &e.container {
                    Some(Nullable::Value(c)) => Some(Nullable::Value(c)),
                    Some(Nullable::Null) => Some(Nullable::Null),
                    None => None,
                },
                nest: opt_str(&e.nest),
                prefix: e.prefix,
                propagate: e.propagate,
                protected: e.protected,
            }
        },
    }
}

/// Runs IRI expansion on `value` while the context definition `local` is
/// being processed, first creating the definitions of `value` (and of a
/// compact IRI's prefix) that `local` holds.
///
/// The result is what expansion against the context, once those
/// definitions are created, gives; a term that could only expand through
/// `@vocab` under [`Action::Reject`] is a forbidden vocabulary error.
#[verifier::rlimit(90)]
pub fn expand_iri_with<H: Handler<Warning>>(
    ctx: &mut Context,
    value: Nullable<Expandable>,
    document_relative: bool,
    vocab: Option<Action>,
    local: &ContextDefinition,
    defined: &mut DefinedTerms,
    remote: &ProcessingStack<String>,
    options: Options,
    depth: usize,
    warnings: &mut H,
) -> (r: Result<Option<TermBuf>, Error>)
    requires
        depth < usize::MAX,
    ensures
        keeps_started(*old(ctx), *final(ctx), old(defined)@),
        grows(old(defined)@, final(defined)@),
        pending_kept(old(defined)@, final(defined)@),
        final(ctx).mode() == old(ctx).mode(),
        settings_kept(*old(ctx), *final(ctx)),
        unbound_kept(*old(ctx), *final(ctx), local.bindings@),
        final(ctx).type_def() == old(ctx).type_def(),
        r matches Ok(x) ==> expansion_matches(*final(ctx), value, document_relative, vocab, Ok(x)),
        r != Err::<Option<TermBuf>, Error>(Error::LoadingDocumentFailed),
        !(value matches Nullable::Value(Expandable::String(_))) ==> r is Ok && *final(ctx) == *old(ctx) && final(defined)@ == old(
            defined,
        )@,
        value matches Nullable::Value(Expandable::String(t)) && is_keyword_like_spec(t@) ==> r is Ok && *final(ctx) == *old(ctx)
            && final(defined)@ == old(defined)@,
        value matches Nullable::Value(Expandable::String(t)) && !is_keyword_like_spec(t@) && depth + 1 >= MAX_SYNC_DEPTH ==> r
            == Err::<Option<TermBuf>, Error>(Error::ContextOverflow),
        value matches Nullable::Value(Expandable::String(t)) ==> (expands_unbound(
            *old(ctx),
            old(defined)@,
            local.bindings@,
            t@,
            document_relative,
            vocab,
            depth as int,
        ) ==> r is Ok && *final(ctx) == *old(ctx) && no_new_pending(old(defined)@, final(defined)@)),
        value matches Nullable::Value(Expandable::String(t)) ==> (reads_unbound(
            *old(ctx),
            old(defined)@,
            local.bindings@,
            t@,
            vocab,
            depth as int,
        ) ==> *final(ctx) == *old(ctx) && (r is Ok <==> !(expand_string_spec(*old(ctx), t@, document_relative, vocab) is Rejected))
            && (r is Err ==> r == Err::<Option<TermBuf>, Error>(Error::ForbiddenVocab)) && started_unbound(
            old(defined)@,
            final(defined)@,
            local.bindings@,
        ) && (old(warnings).keeps() ==> final(warnings).keeps() && match malformed_text(*old(ctx), value, document_relative, vocab) {
            Some(w) => final(warnings).received().len() == old(warnings).received().len() + 1 && final(warnings).received().drop_last()
                == old(warnings).received() && (final(warnings).received().last() matches Warning::MalformedIri(m) && m@ == w),
            None => final(warnings).received() == old(warnings).received(),
        })),
        r is Ok ==> new_terms_as_bound(old(defined)@, final(defined)@, *final(ctx), local.bindings@, options.vocab),
        r is Ok ==> (value matches Nullable::Value(Expandable::String(t)) ==> reads_started(final(defined)@, *final(ctx), t@, vocab)
            && reads_settled(old(defined)@, *final(ctx), t@, vocab)),
        r is Ok ==> (value matches Nullable::Value(Expandable::String(t)) ==> (old(defined)@.get(Some(t@)) == Some(true) ==> (
        prefix_read(*final(ctx), t@, vocab) ==> new_terms_settled(
            old(defined)@,
            final(defined)@,
            *final(ctx),
            local.bindings@,
            options.vocab,
            old(defined)@.insert(Some(iri_prefix(t@)), false),
        )) && (!prefix_read(*final(ctx), t@, vocab) ==> final(defined)@ == old(defined)@ && *final(ctx) == *old(ctx)))),
    decreases depth_budget(depth), 2nat,
{
    let ghost d_start = defined@;
    let ghost c_in = *ctx;
    match &value {
        Nullable::Value(Expandable::String(s)) => {
            let s: &str = *s;
            let cs = chars_of(s);
            if is_keyword_like(cs.as_slice()) {
                return Ok(Some(Term::Null));
            }
            let term = TermKey::Key(s.to_string());
            define(ctx, local, &term, defined, remote, &None, false, options.with_no_override(), depth + 1, warnings)?;
            let ghost c1 = *ctx;
            let ghost d1 = defined@;
            proof {
                assert(d1.contains_key(Some(s@)));
                assert(d_start.get(Some(s@)) != Some(false));
            }
            let early = match ctx.get_normal(cs.as_slice()) {
                Some(d) => match &d.value {
                    Some(Term::Keyword(_)) => true,
                    _ => vocab.is_some(),
                },
                None => false,
            };
            proof {
                assert(early == (keyword_mapping(c1, s@) is Some || (c1.lookup(s@) is Some && vocab is Some)));
            }
            if !early {
                match find_char(cs.as_slice(), ':') {
                    Some(colon) => {
                        if colon > 0 && !is_blank_id(s) && is_compact_iri(cs.as_slice(), s) {
                            let prefix = slice_vec(cs.as_slice(), 0, colon);
                            let prefix_key = TermKey::Key(crate::text::string_of(prefix.as_slice()));
                            proof {
                                assert(key_view(prefix_key) == Some(iri_prefix(s@)));
                                assert(prefix_read(c1, s@, vocab));
                                assert(iri_prefix(s@).len() < s@.len());
                                assert(iri_prefix(s@) != s@);
                                if reads_unbound(c_in, d_start, local.bindings@, s@, vocab, depth as int) {
                                    assert(d1 =~= d_start.insert(Some(s@), true));
                                    assert(d1.get(Some(iri_prefix(s@))) == d_start.get(Some(iri_prefix(s@))));
                                }
                            }
                            define(ctx, local, &prefix_key, defined, remote, &None, false, options.with_no_override(), depth + 1, warnings)?;
                            proof {
                                assert(defined@.contains_key(Some(iri_prefix(s@))));
                                assert(d_start.get(Some(iri_prefix(s@))) != Some(false)) by {
                                    if d_start.get(Some(iri_prefix(s@))) == Some(false) {
                                        assert(d1.get(Some(iri_prefix(s@))) == Some(false));
                                    }
                                }
                            }
                        } else {
                            proof {
                                assert(!prefix_read(c1, s@, vocab));
                            }
                        }
                    },
                    None => {
                        proof {
                            assert(!prefix_read(c1, s@, vocab));
                        }
                    },
                }
            } else {
                proof {
                    assert(!prefix_read(c1, s@, vocab));
                }
            }
            proof {
                assert(ctx.lookup(s@) == c1.lookup(s@));
                assert(prefix_read(*ctx, s@, vocab) == prefix_read(c1, s@, vocab));
                assert(defined@.contains_key(Some(s@)));
            }
        },
        _ => {},
    }
    match expand_iri_simple(&*ctx, value, document_relative, vocab, warnings) {
        Ok(t) => Ok(t),
        Err(_) => Err(Error::ForbiddenVocab),
    }
}

/// Whether expanding the string `t` while `local` is processed defines
/// nothing and cannot fail on a definition: `t` is keyword-like, or it is a
/// nonempty string that neither `t` nor the prefix it reads is bound in
/// `local` or in progress, the nesting budget leaves room for their
/// definitions, and the expansion is not refused by the vocabulary action.
pub open spec fn expands_unbound(
    ctx: Context,
    defined: Map<Option<Seq<char>>, bool>,
    bindings: Seq<(String, Nullable<TermDefinitionSyntax>)>,
    t: Seq<char>,
    document_relative: bool,
    vocab: Option<Action>,
    depth: int,
) -> bool {
    &&& reads_unbound(ctx, defined, bindings, t, vocab, depth)
    &&& !(expand_string_spec(ctx, t, document_relative, vocab) is Rejected)
}

/// Whether expanding the string `t` while `local` is processed defines
/// nothing and cannot fail on a definition: `t` is keyword-like, or it is a
/// nonempty string that neither `t` nor the prefix it reads is bound in
/// `local` or in progress, and the nesting budget leaves room for their
/// definitions.
pub open spec fn reads_unbound(
    ctx: Context,
    defined: Map<Option<Seq<char>>, bool>,
    bindings: Seq<(String, Nullable<TermDefinitionSyntax>)>,
    t: Seq<char>,
    vocab: Option<Action>,
    depth: int,
) -> bool {
    is_keyword_like_spec(t) || {
        &&& t.len() > 0
        &&& depth + 1 < MAX_SYNC_DEPTH
        &&& defined.get(Some(t)) != Some(false)
        &&& first_binding_of(bindings, t) is None
        &&& prefix_read(ctx, t, vocab) ==> defined.get(Some(iri_prefix(t))) != Some(false) && first_binding_of(
            bindings,
            iri_prefix(t),
        ) is None
    }
}

/// Whether a binding is a string, or an expanded definition with an
/// `@id` string and no other entry.
pub open spec fn plain_binding(b: Nullable<TermDefinitionSyntax>) -> bool {
    match b {
        Nullable::Value(TermDefinitionSyntax::Simple(_)) => true,
        Nullable::Value(TermDefinitionSyntax::Expanded(e)) => {
            &&& e.id matches Some(Nullable::Value(_))
            &&& e.type_ is None
            &&& e.context is None
            &&& e.reverse is None
            &&& e.index is None
            &&& e.language is None
            &&& e.direction is None
            &&& e.container is None
            &&& e.nest is None
            &&& e.prefix is None
            &&& e.propagate is None
            &&& e.protected is None
        },
        Nullable::Null => false,
    }
}

/// Whether the plain binding `b` of `key` is defined without error in
/// `ctx`, the key being in progress in `defined`: the key is a nonempty
/// term with no `:` or `/`, its `@id` is another string that expands
/// without defining anything (see [`expands_unbound`]) to an absolute IRI or
/// a blank node identifier, and a protected previous definition may be
/// overridden.
pub open spec fn plain_definition_ok(
    ctx: Context,
    defined: Map<Option<Seq<char>>, bool>,
    bindings: Seq<(String, Nullable<TermDefinitionSyntax>)>,
    b: Nullable<TermDefinitionSyntax>,
    key: Seq<char>,
    options: Options,
    depth: usize,
) -> bool {
    &&& plain_definition_base(ctx, defined, bindings, b, key, options, depth)
    &&& (ctx.lookup(key) matches Some(p) && p.protected ==> options.override_protected)
}

/// [`plain_definition_ok`] but for the protection of a previous
/// definition.
pub open spec fn plain_definition_base(
    ctx: Context,
    defined: Map<Option<Seq<char>>, bool>,
    bindings: Seq<(String, Nullable<TermDefinitionSyntax>)>,
    b: Nullable<TermDefinitionSyntax>,
    key: Seq<char>,
    options: Options,
    depth: usize,
) -> bool {
    plain_binding(b) && plain_id(ctx, defined, bindings, b, key, options, depth)
}

/// Whether the key `key` and the `@id` entry of its binding `b` are
/// defined without error in `ctx`, the key being in progress in
/// `defined`: the key is a nonempty term with no `:` or `/`, and its `@id`
/// is another string that expands without defining anything (see
/// [`expands_unbound`]) to an absolute IRI or a blank node identifier.
pub open spec fn plain_id(
    ctx: Context,
    defined: Map<Option<Seq<char>>, bool>,
    bindings: Seq<(String, Nullable<TermDefinitionSyntax>)>,
    b: Nullable<TermDefinitionSyntax>,
    key: Seq<char>,
    options: Options,
    depth: usize,
) -> bool {
    match id_entry(b) {
        Some(Nullable::Value(s)) => {
            &&& key.len() > 0
            &&& !key.contains(':')
            &&& !key.contains('/')
            &&& s != key
            &&& expands_unbound(ctx, defined, bindings, s, false, Some(options.vocab), depth + 1)
            &&& (expand_string_spec(ctx, s, false, Some(options.vocab)) is Iri || expand_string_spec(
                ctx,
                s,
                false,
                Some(options.vocab),
            ) is Blank)
        },
        _ => false,
    }
}

/// Whether a binding is an expanded definition with an `@id` string and a
/// scoped context whose first entry is a remote context, and no other
/// entry.
pub open spec fn remote_scoped_binding(b: Nullable<TermDefinitionSyntax>) -> bool {
    match b {
        Nullable::Value(TermDefinitionSyntax::Expanded(e)) => {
            &&& e.id matches Some(Nullable::Value(_))
            &&& e.context matches Some(c) && c.entries().len() > 0 && c.entries()[0] is IriRef
            &&& e.type_ is None
            &&& e.reverse is None
            &&& e.index is None
            &&& e.language is None
            &&& e.direction is None
            &&& e.container is None
            &&& e.nest is None
            &&& e.prefix is None
            &&& e.propagate is None
            &&& e.protected is None
        },
        _ => false,
    }
}

/// The view of the IRI mapping that a plain binding `b` gives under `ctx`.
pub open spec fn plain_value_view(ctx: Context, b: Nullable<TermDefinitionSyntax>, options: Options) -> TermView {
    match id_entry(b) {
        Some(Nullable::Value(s)) => match expand_string_spec(ctx, s, false, Some(options.vocab)) {
            Expansion::Iri(text) => TermView::Iri(text),
            Expansion::Blank(text) => TermView::Blank(text),
            _ => TermView::Null,
        },
        _ => TermView::Null,
    }
}

/// The prefix flag that a plain binding `b` of `key` gives under `ctx`.
pub open spec fn plain_prefix(ctx: Context, b: Nullable<TermDefinitionSyntax>, key: Seq<char>, options: Options) -> bool {
    &&& simple_binding(b)
    &&& !key.contains(':')
    &&& !key.contains('/')
    &&& match plain_value_view(ctx, b, options) {
        TermView::Blank(_) => true,
        TermView::Iri(text) => text.len() > 0 && gen_delim(text.last()),
        _ => false,
    }
}

/// Whether the protected definition `p` agrees, but for its protection,
/// with the definition that the plain binding `b` of `key` gives under
/// `ctx`: the same IRI mapping and prefix flag, and no other entry.
pub open spec fn plain_agrees(ctx: Context, b: Nullable<TermDefinitionSyntax>, key: Seq<char>, options: Options, p: NormalTermDefinition) -> bool {
    &&& p.value matches Some(x) && term_view(x) == plain_value_view(ctx, b, options)
    &&& p.prefix == plain_prefix(ctx, b, key, options)
    &&& !p.reverse_property
    &&& p.base_url is None
    &&& p.container == Container::Empty
    &&& p.direction is None
    &&& p.index is None
    &&& p.language is None
    &&& p.nest is None
    &&& p.typ is None
    &&& p.context is None
}

/// A definition built from a plain binding, with the IRI mapping that its
/// `@id` gives and the default prefix flag, agrees with `p` but for
/// protection exactly when `p` agrees with the binding.
proof fn lemma_plain_agrees(
    c: Context,
    c_start: Context,
    b: Nullable<TermDefinitionSyntax>,
    key: Seq<char>,
    options: Options,
    d: NormalTermDefinition,
    p: NormalTermDefinition,
)
    requires
        plain_binding(b),
        id_entry(b) matches Some(Nullable::Value(s)) && s != key && !key.contains(':') && !key.contains('/') && (
        expand_string_spec(c_start, s, false, Some(options.vocab)) is Iri || expand_string_spec(
            c_start,
            s,
            false,
            Some(options.vocab),
        ) is Blank) && expand_string_spec(c, s, false, Some(options.vocab)) == expand_string_spec(
            c_start,
            s,
            false,
            Some(options.vocab),
        ) && id_expands_to(c, s, options.vocab, d.value),
        d.prefix == prefix_default(id_entry(b), key, simple_binding(b), d.value),
        !d.reverse_property,
        d.container == Container::Empty,
        d.direction is None,
        d.language is None,
        d.typ is None,
        d.index is None,
        d.nest is None,
        d.base_url is None,
        d.context is None,
    ensures
        agree_modulo_protected(d, p) <==> plain_agrees(c_start, b, key, options, p),
{
    let s = id_entry(b)->0->0;
    assert(!is_keyword_spec(s)) by {
        if is_keyword_spec(s) {
            assert(is_keyword_like_spec(s));
        }
    }
}

/// The definition that `define` leaves for a term with a protected
/// previous definition `p`, when redefining it is not allowed: none, or one
/// that is protected and agrees with `p`.
pub open spec fn protected_kept(after: Option<NormalTermDefinition>, p: NormalTermDefinition) -> bool {
    match after {
        None => true,
        Some(d) => d.protected && agree_modulo_protected(d, p),
    }
}

/// Whether the `@type` definition `after` keeps a protected `before`: it
/// is protected and has the same container.
pub open spec fn type_kept(before: Option<TypeTermDefinition>, after: Option<TypeTermDefinition>) -> bool {
    match (before, after) {
        (Some(p), Some(t)) => p.protected ==> t.protected && t.container_set == p.container_set,
        (Some(p), None) => !p.protected,
        (None, _) => true,
    }
}

/// Whether the definition of `k` in `after` keeps a protected definition
/// of it in `before`.
pub open spec fn key_kept(before: Context, after: Context, k: Seq<char>) -> bool {
    match before.lookup(k) {
        Some(p) => p.protected ==> protected_kept(after.lookup(k), p),
        None => true,
    }
}

/// Whether two contexts have the same base IRI, vocabulary mapping,
/// default language and default base direction.
pub open spec fn settings_kept(a: Context, b: Context) -> bool {
    &&& a.base() == b.base()
    &&& a.vocab() == b.vocab()
    &&& a.language() == b.language()
    &&& a.direction() == b.direction()
}

/// Whether `c` carries the settings that the context definition `def`
/// gives over the active context `active`: its `@language` and
/// `@direction` replace the defaults (`null` clears them), `@vocab: null`
/// clears the vocabulary mapping and any other `@vocab` sets an identifier,
/// and, outside a remote context, `@base: null` clears the base IRI and an
/// absolute `@base` becomes it. Absent entries leave the setting as it was.
pub open spec fn definition_settings(active: Context, def: ContextDefinition, in_remote: bool, c: Context) -> bool {
    &&& opt_view(c.language()) == match def.language {
        Some(Nullable::Null) => None,
        Some(Nullable::Value(t)) => Some(t@),
        None => opt_view(active.language()),
    }
    &&& c.direction() == match def.direction {
        Some(Nullable::Null) => None,
        Some(Nullable::Value(d)) => Some(d),
        None => active.direction(),
    }
    &&& def.vocab is None ==> c.vocab() == active.vocab()
    &&& def.vocab == Some(Nullable::<String>::Null) ==> c.vocab() is None
    &&& (def.vocab is Some && def.vocab.unwrap() is Value) ==> (c.vocab() is Some && c.vocab().unwrap() is Id)
    &&& (in_remote || def.base is None) ==> opt_view(c.base()) == opt_view(active.base())
    &&& !in_remote && def.base == Some(Nullable::<String>::Null) ==> c.base() is None
    &&& (!in_remote && def.base is Some && def.base.unwrap() is Value && iri_valid(def.base.unwrap()->Value_0@))
        ==> opt_view(c.base()) == Some(def.base.unwrap()->Value_0@)
    &&& (!in_remote && def.base is Some && def.base.unwrap() is Value && !iri_valid(def.base.unwrap()->Value_0@)) ==> (
    active.base() is Some && iri_valid(active.base().unwrap()@) && iri_ref_valid(def.base.unwrap()->Value_0@) && iri_resolved(
        def.base.unwrap()->Value_0@,
        active.base().unwrap()@,
    ) is Some && opt_view(c.base()) == iri_resolved(def.base.unwrap()->Value_0@, active.base().unwrap()@))
}

/// Outside a remote context, a relative `@base` is resolved against the
/// active base IRI: the settings a context definition gives take, for a
/// relative reference, its resolution against the old base IRI, and exist
/// only when that resolution does (with no base IRI, or an unresolvable
/// reference, processing fails); an absolute `@base` replaces the base as
/// it is.
pub proof fn lemma_base_is_resolved(active: Context, def: ContextDefinition, c: Context, r: String)
    requires
        definition_settings(active, def, false, c),
        def.base == Some(Nullable::Value(r)),
    ensures
        iri_valid(r@) ==> opt_view(c.base()) == Some(r@),
        !iri_valid(r@) ==> active.base() is Some && iri_ref_valid(r@) && iri_resolved(r@, active.base().unwrap()@) is Some
            && opt_view(c.base()) == iri_resolved(r@, active.base().unwrap()@),
{
}

/// Whether `after` defines `key` as its first binding in `bindings`
/// declares: with the entries that binding declares, the IRI mapping its
/// `@id` expands to in `after` (see [`id_mapped`]) and its prefix flag
/// (see [`prefix_mapped`]), or not at all when the
/// binding is skipped; a key with no binding leaves the context as it was.
pub open spec fn defined_as_bound(
    before: Context,
    after: Context,
    bindings: Seq<(String, Nullable<TermDefinitionSyntax>)>,
    key: Seq<char>,
    vocab: Action,
) -> bool {
    match first_binding_of(bindings, key) {
        Some(b) => if skipped_binding(b, key) {
            after.lookup(key) is None
        } else {
            after.lookup(key) matches Some(d) && follows_binding(d, b) && id_mapped(after, b, key, vocab, d.value) && prefix_mapped(b, key, d)
        },
        None => after == before,
    }
}

/// Whether every term that the context definition `def` binds is defined
/// in `c` as its first binding declares (see [`term_as_bound`]), IRI
/// expansion reading the vocabulary mapping as `vocab` says.
pub open spec fn definition_terms(def: ContextDefinition, c: Context, vocab: Action) -> bool {
    forall|i: int| 0 <= i < def.bindings@.len() ==> term_as_bound(c, def.bindings@, #[trigger] def.bindings@[i].0@, vocab)
}

/// Creates the definition of `term` from the context definition `local` in
/// the active context `ctx`, if `local` defines it and it is not defined
/// yet.
///
/// Terms whose definitions are under way or done in `defined` keep their
/// definitions. A term whose binding has an `@id` other than itself maps to
/// what that `@id` expands to once the term is defined, IRI expansion
/// reading the vocabulary mapping as `options.vocab` says. A protected
/// definition cannot be changed unless
/// `options.override_protected` is set: the redefinition must agree with it
/// but for the `protected` flag, or fails.
pub fn define<H: Handler<Warning>>(
    ctx: &mut Context,
    local: &ContextDefinition,
    term: &TermKey,
    defined: &mut DefinedTerms,
    remote: &ProcessingStack<String>,
    base_url: &Option<String>,
    protected: bool,
    options: Options,
    depth: usize,
    warnings: &mut H,
) -> (r: Result<(), Error>)
    ensures
        depth >= MAX_SYNC_DEPTH ==> r == Err::<(), Error>(Error::ContextOverflow) && *final(ctx) == *old(ctx)
            && final(defined)@ == old(defined)@ && *final(warnings) == *old(warnings),
        depth < MAX_SYNC_DEPTH && old(defined)@.get(key_view(*term)) == Some(true) ==> r is Ok && *final(ctx)
            == *old(ctx) && final(defined)@ == old(defined)@ && *final(warnings) == *old(warnings),
        depth < MAX_SYNC_DEPTH && old(defined)@.get(key_view(*term)) == Some(false) ==> r == Err::<(), Error>(
            Error::CyclicIriMapping,
        ) && *final(ctx) == *old(ctx),
        r is Ok ==> final(defined)@.contains_key(key_view(*term)),
        depth < MAX_SYNC_DEPTH && !old(defined)@.contains_key(key_view(*term)) ==> (term matches TermKey::Key(k) ==> (
        first_binding_of(local.bindings@, k@) matches Some(b) ==> (plain_definition_ok(
            *old(ctx),
            old(defined)@.insert(Some(k@), false),
            local.bindings@,
            b,
            k@,
            options,
            depth,
        ) ==> r is Ok && only_key_changed(*old(ctx), *final(ctx), k@) && no_new_pending(old(defined)@, final(defined)@)))),
        depth < MAX_SYNC_DEPTH && !old(defined)@.contains_key(key_view(*term)) ==> (term matches TermKey::Key(k) ==> (
        first_binding_of(local.bindings@, k@) matches Some(b) ==> (plain_definition_base(
            *old(ctx),
            old(defined)@.insert(Some(k@), false),
            local.bindings@,
            b,
            k@,
            options,
            depth,
        ) && !options.override_protected && (old(ctx).lookup(k@) matches Some(p) && p.protected) ==> (r is Ok <==> plain_agrees(
            *old(ctx),
            b,
            k@,
            options,
            old(ctx).lookup(k@)->0,
        )) && (r is Err ==> r == Err::<(), Error>(Error::ProtectedTermRedefinition))))),
        !old(defined)@.contains_key(key_view(*term)) ==> (term matches TermKey::Key(k) ==> (first_binding_of(local.bindings@, k@) matches Some(
            b,
        ) ==> ((plain_binding(b) || scoped_binding(b)) && (id_entry(b) matches Some(Nullable::Value(s)) && s != k@ && !is_keyword_like_spec(
            s,
        )) && k@.len() > 0 && depth + 2 >= MAX_SYNC_DEPTH ==> r == Err::<(), Error>(Error::ContextOverflow)))),
        depth < MAX_SYNC_DEPTH && !old(defined)@.contains_key(key_view(*term)) ==> (term matches TermKey::Key(k) ==> (
        first_binding_of(local.bindings@, k@) matches Some(b) ==> ((plain_binding(b) || scoped_binding(b)) && plain_id(
            *old(ctx),
            old(defined)@.insert(Some(k@), false),
            local.bindings@,
            b,
            k@,
            options,
            depth,
        ) ==> started_unbound(old(defined)@.insert(Some(k@), false), final(defined)@, local.bindings@)))),
        depth < MAX_SYNC_DEPTH && !old(defined)@.contains_key(key_view(*term)) ==> (term matches TermKey::Key(k) ==> (
        first_binding_of(local.bindings@, k@) matches Some(b) ==> (decorated_binding(b) && plain_id(
            *old(ctx),
            old(defined)@.insert(Some(k@), false),
            local.bindings@,
            b,
            k@,
            options,
            depth,
        ) ==> (r is Ok <==> decorated_outcome(*old(ctx), b, k@, options) is Ok) && (r is Err ==> r == Err::<(), Error>(
            decorated_outcome(*old(ctx), b, k@, options)->Err_0,
        ))))),
        depth < MAX_SYNC_DEPTH && !old(defined)@.contains_key(key_view(*term)) ==> (term matches TermKey::Key(k) ==> (
        first_binding_of(local.bindings@, k@) matches Some(b) ==> (scoped_binding(b) && plain_id(
            *old(ctx),
            old(defined)@.insert(Some(k@), false),
            local.bindings@,
            b,
            k@,
            options,
            depth,
        ) && options.processing_mode == ProcessingMode::JsonLd1_1 && (old(ctx).lookup(k@) matches Some(p) && p.protected
            ==> options.override_protected) ==> (r is Err ==> r == Err::<(), Error>(Error::InvalidScopedContext) || r == Err::<(), Error>(
            Error::ContextOverflow,
        ))))),
        depth < MAX_SYNC_DEPTH && !old(defined)@.contains_key(key_view(*term)) ==> (term matches TermKey::Key(k) ==> (
        first_binding_of(local.bindings@, k@) matches Some(b) ==> (scoped_binding(b) && plain_id(
            *old(ctx),
            old(defined)@.insert(Some(k@), false),
            local.bindings@,
            b,
            k@,
            options,
            depth,
        ) && options.processing_mode == ProcessingMode::JsonLd1_1 && (old(ctx).lookup(k@) matches Some(p) && p.protected
            ==> options.override_protected) && nested_local(*old(ctx), scoped_context_of(b)->0, override_of(options)) ==> (r is Ok <==> fits_local(scoped_context_of(b)->0, depth + 1)) && (r is Err ==> r == Err::<(), Error>(Error::ContextOverflow))
            && (r is Ok ==> only_key_changed(*old(ctx), *final(ctx), k@) && no_new_pending(old(defined)@, final(defined)@))))),
        depth < MAX_SYNC_DEPTH && !old(defined)@.contains_key(key_view(*term)) && options.processing_mode == ProcessingMode::JsonLd1_1
            ==> (term matches TermKey::Key(k) ==> (first_binding_of(local.bindings@, k@) matches Some(b) ==> (remote_scoped_binding(b)
            && plain_id(*old(ctx), old(defined)@.insert(Some(k@), false), local.bindings@, b, k@, options, depth) ==> r == Err::<
            (),
            Error,
        >(Error::InvalidScopedContext)))),
        depth < MAX_SYNC_DEPTH && !old(defined)@.contains_key(None) && *term is Type && local.type_ is Some
            && options.processing_mode == ProcessingMode::JsonLd1_0 ==> r == Err::<(), Error>(Error::KeywordRedefinition)
            && final(ctx).type_def() == old(ctx).type_def(),
        depth < MAX_SYNC_DEPTH && old(defined)@.get(key_view(*term)) != Some(false) ==> (term matches TermKey::Key(k) ==> (k@.len()
            > 0 && first_binding_of(local.bindings@, k@) is None ==> r is Ok && *final(ctx) == *old(ctx)
            && final(defined)@ == old(defined)@.insert(key_view(*term), true) && *final(warnings) == *old(warnings))),
        depth < MAX_SYNC_DEPTH && !old(defined)@.contains_key(key_view(*term)) ==> (term matches TermKey::Key(k) ==> (k@.len() == 0
            ==> r == Err::<(), Error>(Error::InvalidTermDefinition))),
        keeps_started(*old(ctx), *final(ctx), old(defined)@),
        grows(old(defined)@, final(defined)@),
        pending_kept(old(defined)@, final(defined)@),
        final(ctx).mode() == old(ctx).mode(),
        settings_kept(*old(ctx), *final(ctx)),
        unbound_kept(*old(ctx), *final(ctx), local.bindings@),
        term matches TermKey::Key(_) ==> final(ctx).type_def() == old(ctx).type_def(),
        r is Ok && !options.override_protected && *term is Type ==> type_kept(old(ctx).type_def(), final(ctx).type_def()),
        r is Ok && !options.override_protected ==> match *term {
            TermKey::Key(k) => key_kept(*old(ctx), *final(ctx), k@),
            TermKey::Type => true,
        },
        r != Err::<(), Error>(Error::LoadingDocumentFailed),
        r is Ok ==> new_terms_as_bound(old(defined)@, final(defined)@, *final(ctx), local.bindings@, options.vocab),
        depth < MAX_SYNC_DEPTH && !old(defined)@.contains_key(key_view(*term)) && r is Ok ==> match *term {
            TermKey::Key(k) => defined_as_bound(*old(ctx), *final(ctx), local.bindings@, k@, options.vocab),
            TermKey::Type => true,
        },
        r is Ok ==> new_terms_settled(
            old(defined)@,
            final(defined)@,
            *final(ctx),
            local.bindings@,
            options.vocab,
            old(defined)@.insert(key_view(*term), false),
        ),
    decreases define_budget(depth), 2nat,
{
    if depth >= MAX_SYNC_DEPTH {
        return Err(Error::ContextOverflow);
    }
    let ghost ctx0 = *ctx;
    let ghost defined0 = defined@;
    if !defined.begin(term)? {
        return Ok(());
    }
    let ghost defined1 = defined@;
    proof {
        assert(!defined0.contains_key(key_view(*term)));
        assert(defined1.remove(key_view(*term)) =~= defined0);
        assert(grows(defined0, defined1));
    }
    match term {
        TermKey::Type => {
            if let Some(d) = local.type_ {
                if options.processing_mode == ProcessingMode::JsonLd1_0 {
                    return Err(Error::KeywordRedefinition);
                }
                let previous = ctx.set_type(None);
                let mut definition = TypeTermDefinition { container_set: d.container_set, protected: false };
                if let Some(p) = d.protected {
                    definition.protected = p;
                }
                if !options.override_protected {
                    if let Some(previous) = previous {
                        if previous.protected {
                            if definition.container_set != previous.container_set {
                                return Err(Error::ProtectedTermRedefinition);
                            }
                            definition.protected = true;
                        }
                    }
                }
                ctx.set_type(Some(definition));
            }
            defined.end(term);
            Ok(())
        },
        TermKey::Key(key) => {
            let key_chars = chars_of(key.as_str());
            if key_chars.len() == 0 {
                return Err(Error::InvalidTermDefinition);
            }
            match binding_of(local, key) {
                None => {},
                Some(binding) => {
                    let r = define_normal(ctx, local, term, key, &key_chars, binding, defined, remote, base_url, protected, options, depth, warnings);
                    proof {
                        lemma_grows_trans(defined0, defined1, defined@);
                        assert(defined1.contains_key(key_view(*term)));
                        lemma_pending_after_begin(defined0, defined1, defined@, key_view(*term));
                    }
                    match r {
                        Ok(true) => {},
                        Ok(false) => {
                            return Ok(());
                        },
                        Err(e) => {
                            return Err(e);
                        },
                    }
                },
            }
            let ghost defined2 = defined@;
            defined.end(term);
            proof {
                assert(grows(defined2, defined@));
                lemma_grows_trans(defined0, defined2, defined@);
                if binding_of_spec_none(local.bindings@, key@) {
                    assert(pending_kept_but(defined1, defined2, key_view(*term)));
                    lemma_pending_after_begin(defined0, defined1, defined2, key_view(*term));
                }
                lemma_pending_end(defined2, defined@, key_view(*term));
                if no_new_pending(defined1, defined2) {
                    assert forall|x: Option<Seq<char>>| #[trigger] defined@.get(x) == Some(false) implies defined0.get(x) == Some(false) by {
                        assert(x != key_view(*term));
                        assert(defined2.get(x) == Some(false));
                        assert(defined1.get(x) == Some(false));
                    }
                }
                assert forall|k: Option<Seq<char>>| #[trigger] defined0.get(k) == Some(false) implies defined@.get(k) == Some(false) by {
                    assert(k != key_view(*term));
                    assert(defined2.get(k) == Some(false));
                }
            }
            Ok(())
        },
    }
}

/// Whether `s` holds `t`'s text with `c`.
fn chars_contain(s: &Vec<char>, c: char) -> (b: bool)
    ensures
        b == s@.contains(c),
{
    contains_char(s.as_slice(), c)
}

/// Whether two optional terms are the same.
fn opt_term_eq(a: &Option<TermBuf>, b: &Option<TermBuf>) -> (r: bool)
    ensures
        r == match (*a, *b) {
            (Some(x), Some(y)) => crate::inverse::term_view(x) == crate::inverse::term_view(y),
            (None, None) => true,
            _ => false,
        },
{
    match (a, b) {
        (Some(x), Some(y)) => crate::inverse::term_eq(x, y),
        (None, None) => true,
        _ => false,
    }
}

proof fn lemma_keeps_trans(
    c0: Context,
    c1: Context,
    c2: Context,
    d0: Map<Option<Seq<char>>, bool>,
    d1: Map<Option<Seq<char>>, bool>,
)
    requires
        keeps_started(c0, c1, d0),
        keeps_started(c1, c2, d1),
        grows(d0, d1),
    ensures
        keeps_started(c0, c2, d0),
{
    assert forall|k: Seq<char>| #[trigger] d0.contains_key(Some(k)) implies c2.lookup(k) == c0.lookup(k) by {
        assert(d1.contains_key(Some(k)));
    }
    if d0.contains_key(None) {
        assert(d1.contains_key(None));
    }
}

proof fn lemma_grows_trans(d0: Map<Option<Seq<char>>, bool>, d1: Map<Option<Seq<char>>, bool>, d2: Map<Option<Seq<char>>, bool>)
    requires
        grows(d0, d1),
        grows(d1, d2),
    ensures
        grows(d0, d2),
{
    assert forall|k: Option<Seq<char>>| #[trigger] d0.contains_key(k) implies d2.contains_key(k) by {
        assert(d1.contains_key(k));
    }
}

/// The type mapping of a term definition's `@type` entry.
fn type_mapping<H: Handler<Warning>>(
    ctx: &mut Context,
    type_: Nullable<&str>,
    local: &ContextDefinition,
    defined: &mut DefinedTerms,
    remote: &ProcessingStack<String>,
    options: Options,
    depth: usize,
    warnings: &mut H,
) -> (r: Result<Option<SyntaxType<String>>, Error>)
    requires
        depth < MAX_SYNC_DEPTH,
    ensures
        keeps_started(*old(ctx), *final(ctx), old(defined)@),
        grows(old(defined)@, final(defined)@),
        pending_kept(old(defined)@, final(defined)@),
        final(ctx).mode() == old(ctx).mode(),
        settings_kept(*old(ctx), *final(ctx)),
        unbound_kept(*old(ctx), *final(ctx), local.bindings@),
        final(ctx).type_def() == old(ctx).type_def(),
        r != Err::<Option<SyntaxType<String>>, Error>(Error::LoadingDocumentFailed),
        r is Ok ==> new_terms_as_bound(old(defined)@, final(defined)@, *final(ctx), local.bindings@, options.vocab),
        r is Ok && (type_ is Value && keyword_type(type_->Value_0@) is Some) ==> (r matches Ok(Some(t))
            && crate::inverse::type_view(t) == keyword_type(type_->Value_0@).unwrap()),
        type_ is Value && keyword_type(type_->Value_0@) is Some ==> *final(ctx) == *old(ctx) && final(defined)@ == old(defined)@ && (r
            is Ok <==> !(options.processing_mode == ProcessingMode::JsonLd1_0 && (keyword_type(type_->Value_0@) == Some(
            SyntaxType::<Seq<char>>::Json,
        ) || keyword_type(type_->Value_0@) == Some(SyntaxType::<Seq<char>>::Nothing)))) && (r is Err ==> r == Err::<
            Option<SyntaxType<String>>,
            Error,
        >(Error::InvalidTypeMapping)),
    decreases define_budget(depth), 0nat,
{
    let expandable = match type_ {
        Nullable::Null => Nullable::Null,
        Nullable::Value(t) => Nullable::Value(expandable_of(t)),
    };
    proof {
        if let Nullable::Value(Expandable::Keyword(k)) = expandable {
            lemma_keyword_type_of(k);
        }
        if let Nullable::Value(t) = type_ {
            if keyword_type(t@) is Some {
                assert(is_keyword_spec(t@)) by {
                    if t@ == keyword_text(Keyword::Id) {
                        assert(keyword_text(Keyword::Id) == t@);
                    } else if t@ == keyword_text(Keyword::Json) {
                        assert(keyword_text(Keyword::Json) == t@);
                    } else if t@ == keyword_text(Keyword::AtNone) {
                        assert(keyword_text(Keyword::AtNone) == t@);
                    } else {
                        assert(keyword_text(Keyword::Vocab) == t@);
                    }
                }
            }
        }
    }
    let typ = expand_iri_with(ctx, expandable, false, Some(options.vocab), local, defined, remote, options, depth + 1, warnings)?;
    match typ {
        Some(typ) => {
            if options.processing_mode == ProcessingMode::JsonLd1_0 {
                match &typ {
                    Term::Keyword(Keyword::Json) | Term::Keyword(Keyword::AtNone) => {
                        return Err(Error::InvalidTypeMapping);
                    },
                    _ => {},
                }
            }
            match type_of_term(&typ) {
                Some(t) => Ok(Some(t)),
                None => Err(Error::InvalidTypeMapping),
            }
        },
        None => Ok(None),
    }
}

/// The IRI mapping and container of a reverse property; `None` when the
/// `@reverse` value only has the form of a keyword.
fn reverse_mapping<H: Handler<Warning>>(
    ctx: &mut Context,
    reverse_value: &str,
    container: Option<Nullable<&ContainerSyntax>>,
    local: &ContextDefinition,
    defined: &mut DefinedTerms,
    remote: &ProcessingStack<String>,
    options: Options,
    depth: usize,
    warnings: &mut H,
) -> (r: Result<Option<(TermBuf, Option<Container>)>, Error>)
    requires
        depth < MAX_SYNC_DEPTH,
    ensures
        keeps_started(*old(ctx), *final(ctx), old(defined)@),
        grows(old(defined)@, final(defined)@),
        pending_kept(old(defined)@, final(defined)@),
        final(ctx).mode() == old(ctx).mode(),
        settings_kept(*old(ctx), *final(ctx)),
        unbound_kept(*old(ctx), *final(ctx), local.bindings@),
        final(ctx).type_def() == old(ctx).type_def(),
        r != Err::<Option<(TermBuf, Option<Container>)>, Error>(Error::LoadingDocumentFailed),
        r is Ok ==> new_terms_as_bound(old(defined)@, final(defined)@, *final(ctx), local.bindings@, options.vocab),
        container is None ==> (r matches Ok(Some(x)) ==> x.1 is None),
        is_keyword_like_spec(reverse_value@) ==> r == Ok::<Option<(TermBuf, Option<Container>)>, Error>(None),
        r == Ok::<Option<(TermBuf, Option<Container>)>, Error>(None) ==> is_keyword_like_spec(reverse_value@),
    decreases define_budget(depth), 0nat,
{
    let rc = chars_of(reverse_value);
    if is_keyword_like(rc.as_slice()) {
        warnings.handle(Warning::KeywordLikeValue(reverse_value.to_string()));
        return Ok(None);
    }
    let value = match expand_iri_with(ctx, Nullable::Value(Expandable::String(reverse_value)), false, Some(options.vocab), local, defined, remote, options, depth + 1, warnings)? {
        Some(Term::Id(Id::Valid(v))) => Term::Id(Id::Valid(v)),
        _ => {
            return Err(Error::InvalidIriMapping);
        },
    };
    let mut container_out: Option<Container> = None;
    if let Some(container_value) = container {
        match container_value {
            Nullable::Null => {},
            Nullable::Value(c) => {
                match Container::from_syntax(Nullable::Value(c)) {
                    Ok(c) => {
                        if c == Container::SetOnly || c == Container::Index {
                            container_out = Some(c);
                        } else {
                            return Err(Error::InvalidReverseProperty);
                        }
                    },
                    Err(_) => {
                        return Err(Error::InvalidReverseProperty);
                    },
                }
            },
        }
    }
    Ok(Some((value, container_out)))
}

/// The IRI mapping a term gets from its `@id` entry or, without one, from
/// its own form; with the `prefix` flag it earns as a simple term. `None`
/// when the `@id` value only has the form of a keyword.
fn id_mapping<H: Handler<Warning>>(
    ctx: &mut Context,
    term: &TermKey,
    key: &String,
    key_chars: &Vec<char>,
    simple_term: bool,
    id: Option<Nullable<&str>>,
    local: &ContextDefinition,
    defined: &mut DefinedTerms,
    remote: &ProcessingStack<String>,
    options: Options,
    depth: usize,
    warnings: &mut H,
) -> (r: Result<Option<(Option<TermBuf>, bool)>, Error>)
    requires
        depth < MAX_SYNC_DEPTH,
        *term == TermKey::Key(*key),
        key_chars@ == key@,
        old(defined)@.contains_key(Some(key@)),
    ensures
        keeps_started(*old(ctx), *final(ctx), old(defined)@),
        grows(old(defined)@, final(defined)@),
        pending_kept_but(old(defined)@, final(defined)@, Some(key@)),
        final(ctx).mode() == old(ctx).mode(),
        settings_kept(*old(ctx), *final(ctx)),
        unbound_kept(*old(ctx), *final(ctx), local.bindings@),
        final(ctx).type_def() == old(ctx).type_def(),
        r != Err::<Option<(Option<TermBuf>, bool)>, Error>(Error::LoadingDocumentFailed),
        r is Ok ==> new_terms_as_bound(old(defined)@, final(defined)@, *final(ctx), local.bindings@, options.vocab),
        id matches Some(Nullable::Value(t)) && t@ != key@ && !is_keyword_like_spec(t@) && depth + 2 >= MAX_SYNC_DEPTH ==> r == Err::<
            Option<(Option<TermBuf>, bool)>,
            Error,
        >(Error::ContextOverflow),
        skipped_id(id, key@) ==> r == Ok::<Option<(Option<TermBuf>, bool)>, Error>(None),
        r == Ok::<Option<(Option<TermBuf>, bool)>, Error>(None) ==> skipped_id(id, key@),
        r matches Ok(Some(x)) ==> (id == Some(Nullable::<&str>::Null) ==> x.0 is None),
        r matches Ok(Some(x)) ==> x.1 == prefix_default(nullable_str_view(id), key@, simple_term, x.0),
        id matches Some(Nullable::Value(t)) ==> (t@ != key@ && !key@.contains(':') && !key@.contains('/') && expands_unbound(
            *old(ctx),
            old(defined)@,
            local.bindings@,
            t@,
            false,
            Some(options.vocab),
            depth + 1,
        ) && (expand_string_spec(*old(ctx), t@, false, Some(options.vocab)) is Iri || expand_string_spec(
            *old(ctx),
            t@,
            false,
            Some(options.vocab),
        ) is Blank) ==> (r matches Ok(Some(_))) && *final(ctx) == *old(ctx) && no_new_pending(old(defined)@, final(defined)@)
            && started_unbound(old(defined)@, final(defined)@, local.bindings@)),
        r matches Ok(Some(x)) ==> (id matches Some(Nullable::Value(t)) ==> (t@ != key@ ==> id_expands_to(
            *final(ctx),
            t@,
            options.vocab,
            x.0,
        ) && reads_started(final(defined)@, *final(ctx), t@, Some(options.vocab)) && reads_settled(
            old(defined)@,
            *final(ctx),
            t@,
            Some(options.vocab),
        ))),
    decreases define_budget(depth), 0nat,
{
    let mode_1_0 = options.processing_mode == ProcessingMode::JsonLd1_0;
    let id_is_key = match id {
        Some(Nullable::Value(i)) => i.to_string() == *key,
        _ => false,
    };
    match id {
        Some(id_value) if !id_is_key => match id_value {
            Nullable::Null => Ok(Some((None, false))),
            Nullable::Value(id_value) => {
                let ic = chars_of(id_value);
                if is_keyword_like(ic.as_slice()) && !is_keyword(ic.as_slice()) {
                    warnings.handle(Warning::KeywordLikeValue(id_value.to_string()));
                    return Ok(None);
                }
                let ghost c0 = *ctx;
                let ghost d0 = defined@;
                let expanded = expand_iri_with(ctx, Nullable::Value(expandable_of(id_value)), false, Some(options.vocab), local, defined, remote, options, depth + 1, warnings)?;
                let ghost ca = *ctx;
                let ghost da = defined@;
                proof {
                    assert(id_expands_to(ca, id_value@, options.vocab, expanded));
                    assert(reads_started(da, ca, id_value@, Some(options.vocab)));
                    assert(reads_settled(d0, ca, id_value@, Some(options.vocab)));
                }
                match &expanded {
                    Some(Term::Keyword(Keyword::Context)) => {
                        return Err(Error::InvalidKeywordAlias);
                    },
                    Some(Term::Id(Id::Invalid(_))) => {
                        return Err(Error::InvalidIriMapping);
                    },
                    _ => {},
                }
                if !mode_1_0 && (contains_between_boundaries(key_chars.as_slice(), ':') || chars_contain(key_chars, '/')) {
                    let ghost c1 = *ctx;
                    let ghost d1 = defined@;
                    defined.end(term);
                    let ghost d2 = defined@;
                    proof {
                        assert(grows(d1, d2));
                    }
                    let expanded_term = expand_iri_with(ctx, Nullable::Value(Expandable::String(key.as_str())), false, Some(options.vocab), local, defined, remote, options, depth + 1, warnings);
                    proof {
                        if expanded_term is Ok {
                            assert(d2 == d1.insert(Some(key@), true));
                            assert(d1.get(Some(key@)) == Some(true) || d2.get(Some(key@)) == Some(true));
                            lemma_key_round_trip(d0, d1, defined@, c1, *ctx, local.bindings@, options.vocab, key@);
                        }
                        lemma_keeps_trans(c0, c1, *ctx, d0, d2);
                        lemma_grows_trans(d0, d2, defined@);
                        lemma_pending_end(d1, d2, Some(key@));
                        lemma_pending_but_chain(d1, d2, defined@, Some(key@));
                        lemma_pending_chain_to_but(d0, d1, defined@, Some(key@));
                    }
                    proof {
                        if !is_keyword_like_spec(id_value@) && !is_keyword_spec(id_value@) {
                            assert(keeps_started(ca, *ctx, da));
                            lemma_expansion_stable(ca, *ctx, id_value@, false, Some(options.vocab), da);
                        }
                    }
                    let expanded_term = expanded_term?;
                    if !opt_term_eq(&expanded, &expanded_term) {
                        return Err(Error::InvalidIriMapping);
                    }
                }
                let mut prefix = false;
                if !chars_contain(key_chars, ':') && !chars_contain(key_chars, '/') && simple_term {
                    prefix = match &expanded {
                        Some(v) => is_gen_delim_or_blank(v),
                        None => false,
                    };
                }
                Ok(Some((expanded, prefix)))
            },
        },
        _ => {
            let ghost c0 = *ctx;
            let ghost d0 = defined@;
            let mut value: Option<TermBuf> = None;
            if is_compact_iri(key_chars.as_slice(), key.as_str()) {
                let colon = find_char(key_chars.as_slice(), ':');
                let n = key_chars.len();
                if let Some(colon) = colon {
                    assert(colon < n);
                    let prefix_chars = slice_vec(key_chars.as_slice(), 0, colon);
                    let suffix_chars = slice_vec(key_chars.as_slice(), colon + 1, n);
                    let prefix_key = TermKey::Key(crate::text::string_of(prefix_chars.as_slice()));
                    define(ctx, local, &prefix_key, defined, remote, &None, false, options.with_no_override(), depth + 1, warnings)?;
                    let found = match ctx.get(prefix_chars.as_slice()) {
                        Some(prefix_definition) => {
                            let head: String = match prefix_definition.value() {
                                Some(Term::Id(Id::Valid(ValidId::Iri(i)))) => i.clone(),
                                _ => String::new(),
                            };
                            Some(concat(head.as_str(), suffix_chars.as_slice()))
                        },
                        None => None,
                    };
                    if let Some(result) = found {
                        if is_iri(result.as_str()) {
                            value = Some(Term::Id(Id::Valid(ValidId::Iri(result))));
                        } else {
                            return Err(Error::InvalidIriMapping);
                        }
                    }
                }
            }
            if value.is_none() {
                if is_blank_id(key.as_str()) {
                    value = Some(Term::Id(Id::Valid(ValidId::Blank(key.clone()))));
                } else if is_iri_ref(key.as_str()) {
                    if is_iri(key.as_str()) {
                        value = Some(Term::Id(Id::Valid(ValidId::Iri(key.clone()))));
                    } else if chars_contain(key_chars, '/') {
                        match expand_iri_simple(&*ctx, Nullable::Value(Expandable::String(key.as_str())), false, Some(options.vocab), warnings) {
                            Ok(Some(Term::Id(Id::Valid(ValidId::Iri(i))))) => {
                                value = Some(Term::Id(Id::Valid(ValidId::Iri(i))));
                            },
                            Ok(_) => {
                                return Err(Error::InvalidIriMapping);
                            },
                            Err(_) => {
                                return Err(Error::ForbiddenVocab);
                            },
                        }
                    }
                }
            }
            if value.is_none() {
                let vocab_iri: Option<String> = match ctx.vocabulary() {
                    Some(Term::Id(Id::Valid(ValidId::Iri(i)))) => Some(i.clone()),
                    _ => None,
                };
                match vocab_iri {
                    Some(v) => {
                        let result = concat(v.as_str(), key_chars.as_slice());
                        if is_iri(result.as_str()) {
                            value = Some(Term::Id(Id::Valid(ValidId::Iri(result))));
                        } else {
                            return Err(Error::InvalidIriMapping);
                        }
                    },
                    None => {
                        return Err(Error::InvalidIriMapping);
                    },
                }
            }
            Ok(Some((value, false)))
        },
    }
}

/// The owned form of a borrowed `@container` entry.
spec fn container_entry(c: Nullable<&ContainerSyntax>) -> Nullable<ContainerSyntax> {
    match c {
        Nullable::Null => Nullable::Null,
        Nullable::Value(x) => Nullable::Value(*x),
    }
}

/// Whether the IRI mapping of `d` is a keyword.
pub open spec fn keyword_valued(d: NormalTermDefinition) -> bool {
    d.value matches Some(t) && t is Keyword
}

/// The view of an optional type mapping.
pub open spec fn opt_type_view(t: Option<SyntaxType<String>>) -> Option<SyntaxType<Seq<char>>> {
    match t {
        Some(x) => Some(type_view(x)),
        None => None,
    }
}

/// The container mapping that the `@container` entry `c` denotes, if the
/// grammar allows it.
pub open spec fn container_of(c: Nullable<ContainerSyntax>) -> Option<Container> {
    match c {
        Nullable::Null => Some(Container::Empty),
        Nullable::Value(ContainerSyntax::One(k)) => Some(Container::from_kind_spec(k)),
        Nullable::Value(ContainerSyntax::Many(m)) => match combine(Container::Empty, m@) {
            Ok(out) => Some(out),
            Err(_) => None,
        },
    }
}

/// The owned form of an optional borrowed `@container` entry.
spec fn opt_container_entry(c: Option<Nullable<&ContainerSyntax>>) -> Option<Nullable<ContainerSyntax>> {
    match c {
        Some(x) => Some(container_entry(x)),
        None => None,
    }
}

/// The error that the `@container`, `@nest` and `@prefix` entries of a
/// term definition raise, checked in that order, if any: a container the
/// processing mode or the grammar refuses is an invalid container mapping;
/// an `@type` container with a type mapping other than `@id` or `@vocab` is
/// an invalid type mapping; `@nest` under JSON-LD 1.0, and `@prefix` on a
/// compact IRI or an IRI key, under JSON-LD 1.0, or set on a keyword
/// mapping, are invalid term definitions.
#[verifier::opaque]
pub open spec fn entries_error(
    container: Option<Nullable<ContainerSyntax>>,
    nest: bool,
    prefix: Option<bool>,
    typ: Option<SyntaxType<Seq<char>>>,
    key: Seq<char>,
    mode: ProcessingMode,
    value_keyword: bool,
) -> Option<Error> {
    let mode_1_0 = mode == ProcessingMode::JsonLd1_0;
    if container matches Some(cv) && container_error(cv, typ, mode) is Some {
        container_error(container->0, typ, mode)
    } else if nest && mode_1_0 {
        Some(Error::InvalidTermDefinition)
    } else if prefix matches Some(pf) && (key.contains(':') || key.contains('/') || mode_1_0 || (pf && value_keyword)) {
        Some(Error::InvalidTermDefinition)
    } else {
        None
    }
}

/// Whether the definition `def`, completed with the entries `container`,
/// `nest`, `prefix`, `language` and `direction` (language and direction
/// counting only without `@type`), agrees with `p` but for protection.
#[verifier::opaque]
pub open spec fn completed_agrees(
    def: NormalTermDefinition,
    container: Option<Nullable<ContainerSyntax>>,
    nest: Option<Seq<char>>,
    prefix: Option<bool>,
    typed: bool,
    language: Option<Nullable<Seq<char>>>,
    direction: Option<Nullable<Direction>>,
    p: NormalTermDefinition,
) -> bool {
    &&& match (def.value, p.value) {
        (Some(x), Some(y)) => term_view(x) == term_view(y),
        (None, None) => true,
        _ => false,
    }
    &&& p.prefix == match prefix {
        Some(x) => x,
        None => def.prefix,
    }
    &&& p.reverse_property == def.reverse_property
    &&& opt_view(p.base_url) == opt_view(def.base_url)
    &&& match container {
        Some(c) => container_of(c) == Some(p.container),
        None => p.container == def.container,
    }
    &&& p.direction == (if !typed && direction is Some {
        direction
    } else {
        def.direction
    })
    &&& (if !typed && language is Some {
        match (language.unwrap(), p.language) {
            (Nullable::Null, Some(Nullable::Null)) => true,
            (Nullable::Value(x), Some(Nullable::Value(y))) => x == y@,
            _ => false,
        }
    } else {
        match (def.language, p.language) {
            (Some(Nullable::Value(x)), Some(Nullable::Value(y))) => x@ == y@,
            (Some(Nullable::Null), Some(Nullable::Null)) => true,
            (None, None) => true,
            _ => false,
        }
    })
    &&& opt_view(p.index) == opt_view(def.index)
    &&& opt_view(p.nest) == match nest {
        Some(n) => Some(n),
        None => opt_view(def.nest),
    }
    &&& match ((if container is Some && p.container.has(ContainerKind::Type) && def.typ is None {
        Some(SyntaxType::<String>::Id)
    } else {
        def.typ
    }), p.typ) {
        (Some(x), Some(y)) => type_view(x) == type_view(y),
        (None, None) => true,
        _ => false,
    }
    &&& match (def.context, p.context) {
        (Some(x), Some(y)) => local_view(*x) == local_view(*y),
        (None, None) => true,
        _ => false,
    }
}

/// The error that the `@container` entry `cv` of a term definition whose
/// type mapping is `typ` raises, if any (see [`entries_error`]).
pub open spec fn container_error(cv: Nullable<ContainerSyntax>, typ: Option<SyntaxType<Seq<char>>>, mode: ProcessingMode) -> Option<Error> {
    if (mode == ProcessingMode::JsonLd1_0 && (cv is Null || cv matches Nullable::Value(ContainerSyntax::Many(_)) || (
    cv matches Nullable::Value(ContainerSyntax::One(k)) && (k == ContainerKind::Graph || k == ContainerKind::Id || k
        == ContainerKind::Type)))) || container_of(cv) is None {
        Some(Error::InvalidContainerMapping)
    } else if container_of(cv).unwrap().has(ContainerKind::Type) && (typ matches Some(t) && !(t is Id || t is Vocab)) {
        Some(Error::InvalidTypeMapping)
    } else {
        None
    }
}

/// The definition `def` with the container mapping of the `@container`
/// entry `cv`, and `@id` as its type mapping when that container is an
/// `@type` one and it has none.
pub open spec fn with_container(def: NormalTermDefinition, cv: Nullable<ContainerSyntax>) -> NormalTermDefinition {
    let c = container_of(cv).unwrap();
    NormalTermDefinition {
        container: c,
        typ: if c.has(ContainerKind::Type) && def.typ is None {
            Some(SyntaxType::<String>::Id)
        } else {
            def.typ
        },
        ..def
    }
}

/// Applies the `@container` entry of a term definition, if any.
fn apply_container(definition: NormalTermDefinition, container: Option<Nullable<&ContainerSyntax>>, mode_1_0: bool) -> (r: Result<
    NormalTermDefinition,
    Error,
>)
    ensures
        container is None ==> r == Ok::<NormalTermDefinition, Error>(definition),
        container matches Some(cv) ==> match container_error(
            container_entry(cv),
            opt_type_view(definition.typ),
            if mode_1_0 {
                ProcessingMode::JsonLd1_0
            } else {
                ProcessingMode::JsonLd1_1
            },
        ) {
            Some(e) => r == Err::<NormalTermDefinition, Error>(e),
            None => r == Ok::<NormalTermDefinition, Error>(with_container(definition, container_entry(cv))),
        },
{
    let mut definition = definition;
    if let Some(container_value) = container {
        if mode_1_0 {
            match container_value {
                Nullable::Null => {
                    return Err(Error::InvalidContainerMapping);
                },
                Nullable::Value(ContainerSyntax::Many(_)) => {
                    return Err(Error::InvalidContainerMapping);
                },
                Nullable::Value(ContainerSyntax::One(k)) => {
                    if *k == ContainerKind::Graph || *k == ContainerKind::Id || *k == ContainerKind::Type {
                        return Err(Error::InvalidContainerMapping);
                    }
                },
            }
        }
        match Container::from_syntax(container_value) {
            Ok(c) => {
                definition.container = c;
            },
            Err(_) => {
                return Err(Error::InvalidContainerMapping);
            },
        }
        if definition.container.contains(ContainerKind::Type) {
            match &definition.typ {
                Some(SyntaxType::Id) | Some(SyntaxType::Vocab) => {},
                Some(_) => {
                    return Err(Error::InvalidTypeMapping);
                },
                None => {
                    definition.typ = Some(SyntaxType::Id);
                },
            }
        }
    }
    Ok(definition)
}

/// Whether a binding is an expanded definition with an `@id` string, no
/// `@reverse`, `@index`, `@context` or `@propagate`, and no `@type` but a
/// keyword one (`@id`, `@json`, `@none`, `@vocab`); its `@container`,
/// `@language`, `@direction`, `@nest`, `@prefix` and `@protected` are free.
pub open spec fn decorated_binding(b: Nullable<TermDefinitionSyntax>) -> bool {
    match b {
        Nullable::Value(TermDefinitionSyntax::Expanded(e)) => {
            &&& e.id matches Some(Nullable::Value(_))
            &&& (e.type_ is None || (e.type_ matches Some(Nullable::Value(t)) && keyword_type(t@) is Some))
            &&& e.reverse is None
            &&& e.index is None
            &&& e.context is None
            &&& e.propagate is None
        },
        _ => false,
    }
}

/// The keyword type mapping a decorated binding writes, if any.
pub open spec fn written_type(e: ExpandedDefinition) -> Option<SyntaxType<Seq<char>>> {
    match e.type_ {
        Some(Nullable::Value(t)) => keyword_type(t@),
        _ => None,
    }
}

/// Whether the protected definition `p` agrees, but for its protection,
/// with the definition that the decorated binding `b` of `key` gives under
/// `ctx` (see [`decorated_binding`]): the IRI mapping its `@id` expands
/// to, its explicit prefix flag (none otherwise), the container, type
/// mapping, language, direction and nest it writes, and nothing else.
pub open spec fn decorated_agrees(ctx: Context, b: Nullable<TermDefinitionSyntax>, key: Seq<char>, options: Options, p: NormalTermDefinition) -> bool {
    let e = expanded_of(b).unwrap();
    &&& p.value matches Some(x) && term_view(x) == plain_value_view(ctx, b, options)
    &&& p.prefix == match e.prefix {
        Some(x) => x,
        None => false,
    }
    &&& !p.reverse_property
    &&& p.base_url is None
    &&& match e.container {
        Some(c) => container_of(c) == Some(p.container),
        None => p.container == Container::Empty,
    }
    &&& p.direction == (if e.type_ is None && e.direction is Some {
        e.direction
    } else {
        None
    })
    &&& (if e.type_ is None && e.language is Some {
        match (e.language.unwrap(), p.language) {
            (Nullable::Null, Some(Nullable::Null)) => true,
            (Nullable::Value(x), Some(Nullable::Value(y))) => x@ == y@,
            _ => false,
        }
    } else {
        p.language is None
    })
    &&& p.index is None
    &&& opt_view(p.nest) == opt_view(e.nest)
    &&& opt_type_view(p.typ) == (if e.container is Some && p.container.has(ContainerKind::Type) && written_type(e) is None {
        Some(SyntaxType::<Seq<char>>::Id)
    } else {
        written_type(e)
    })
    &&& p.context is None
}

/// What defining the key `key` with the decorated binding `b` under `ctx`
/// gives, when its `@id` expands without defining anything to an absolute
/// IRI or a blank node identifier (see [`plain_id`]): under JSON-LD 1.0,
/// `@protected` is an invalid term definition and an `@json` or `@none`
/// type mapping an invalid type mapping; then the error of its
/// `@container`, `@nest` and `@prefix` entries (see [`entries_error`]); then
/// a protected previous definition that may not be overridden and does not
/// agree with it (see [`decorated_agrees`]) is a protected term
/// redefinition.
#[verifier::opaque]
pub open spec fn decorated_outcome(ctx: Context, b: Nullable<TermDefinitionSyntax>, key: Seq<char>, options: Options) -> Result<(), Error> {
    let e = expanded_of(b).unwrap();
    let mode_1_0 = options.processing_mode == ProcessingMode::JsonLd1_0;
    if e.protected is Some && mode_1_0 {
        Err(Error::InvalidTermDefinition)
    } else if mode_1_0 && (written_type(e) == Some(SyntaxType::<Seq<char>>::Json) || written_type(e) == Some(
        SyntaxType::<Seq<char>>::Nothing,
    )) {
        Err(Error::InvalidTypeMapping)
    } else if entries_error(e.container, e.nest is Some, e.prefix, written_type(e), key, options.processing_mode, false) is Some {
        Err(entries_error(e.container, e.nest is Some, e.prefix, written_type(e), key, options.processing_mode, false).unwrap())
    } else if !options.override_protected && (ctx.lookup(key) matches Some(p) && p.protected && !decorated_agrees(ctx, b, key, options, p)) {
        Err(Error::ProtectedTermRedefinition)
    } else {
        Ok(())
    }
}

/// The definition built from a decorated binding agrees with `p` exactly
/// when [`decorated_agrees`] says so.
proof fn lemma_decorated_agrees(
    c: Context,
    c_start: Context,
    b: Nullable<TermDefinitionSyntax>,
    key: Seq<char>,
    options: Options,
    d: NormalTermDefinition,
    p: NormalTermDefinition,
)
    requires
        decorated_binding(b),
        id_entry(b) matches Some(Nullable::Value(s)) && s != key && (expand_string_spec(c_start, s, false, Some(options.vocab)) is Iri
            || expand_string_spec(c_start, s, false, Some(options.vocab)) is Blank) && expand_string_spec(c, s, false, Some(options.vocab))
            == expand_string_spec(c_start, s, false, Some(options.vocab)) && id_expands_to(c, s, options.vocab, d.value),
        !d.prefix,
        !d.reverse_property,
        d.container == Container::Empty,
        d.direction is None,
        d.language is None,
        opt_type_view(d.typ) == written_type(expanded_of(b).unwrap()),
        d.index is None,
        d.nest is None,
        d.base_url is None,
        d.context is None,
    ensures
        completed_agrees(
            d,
            expanded_of(b).unwrap().container,
            opt_view(expanded_of(b).unwrap().nest),
            expanded_of(b).unwrap().prefix,
            expanded_of(b).unwrap().type_ is Some,
            nullable_view(expanded_of(b).unwrap().language),
            expanded_of(b).unwrap().direction,
            p,
        ) <==> decorated_agrees(c_start, b, key, options, p),
{
    reveal(completed_agrees);
    let s = id_entry(b)->0->0;
    assert(!is_keyword_spec(s)) by {
        if is_keyword_spec(s) {
            assert(is_keyword_like_spec(s));
        }
    }
    let e = expanded_of(b).unwrap();
    assert(opt_type_view(p.typ) == opt_type_view(p.typ));
    match (d.typ, p.typ) {
        (Some(x), Some(y)) => {},
        _ => {},
    }
}

/// What finishing the definition of a decorated binding gives (see
/// [`finish_definition`]) is what [`decorated_outcome`] says, once its
/// `@protected` and `@type` entries passed.
proof fn lemma_decorated_result(
    c: Context,
    c_start: Context,
    b: Nullable<TermDefinitionSyntax>,
    key: Seq<char>,
    options: Options,
    d: NormalTermDefinition,
    prev: Option<NormalTermDefinition>,
    container: Option<Nullable<ContainerSyntax>>,
    nest: Option<Seq<char>>,
    prefix: Option<bool>,
    typed: bool,
    language: Option<Nullable<Seq<char>>>,
    direction: Option<Nullable<Direction>>,
    r: Result<(), Error>,
)
    requires
        decorated_binding(b),
        container == expanded_of(b).unwrap().container,
        nest == opt_view(expanded_of(b).unwrap().nest),
        prefix == expanded_of(b).unwrap().prefix,
        typed == (expanded_of(b).unwrap().type_ is Some),
        language == nullable_view(expanded_of(b).unwrap().language),
        direction == expanded_of(b).unwrap().direction,
        !(expanded_of(b).unwrap().protected is Some && options.processing_mode == ProcessingMode::JsonLd1_0),
        !(options.processing_mode == ProcessingMode::JsonLd1_0 && (written_type(expanded_of(b).unwrap()) == Some(
            SyntaxType::<Seq<char>>::Json,
        ) || written_type(expanded_of(b).unwrap()) == Some(SyntaxType::<Seq<char>>::Nothing))),
        id_entry(b) matches Some(Nullable::Value(s)) && s != key && (expand_string_spec(c_start, s, false, Some(options.vocab)) is Iri
            || expand_string_spec(c_start, s, false, Some(options.vocab)) is Blank) && expand_string_spec(c, s, false, Some(options.vocab))
            == expand_string_spec(c_start, s, false, Some(options.vocab)) && id_expands_to(c, s, options.vocab, d.value),
        !d.prefix,
        !d.reverse_property,
        d.container == Container::Empty,
        d.direction is None,
        d.language is None,
        opt_type_view(d.typ) == written_type(expanded_of(b).unwrap()),
        d.index is None,
        d.nest is None,
        d.base_url is None,
        d.context is None,
        prev == c_start.lookup(key),
        entries_error(container, nest is Some, prefix, opt_type_view(d.typ), key, options.processing_mode, keyword_valued(d)) matches Some(
            e,
        ) ==> r == Err::<(), Error>(e),
        entries_error(container, nest is Some, prefix, opt_type_view(d.typ), key, options.processing_mode, keyword_valued(d)) is None ==> (r
            is Ok <==> !(!options.override_protected && (prev matches Some(p) && p.protected && !completed_agrees(
            d,
            container,
            nest,
            prefix,
            typed,
            language,
            direction,
            p,
        )))) && (r is Err ==> r == Err::<(), Error>(Error::ProtectedTermRedefinition)),
    ensures
        (r is Ok <==> decorated_outcome(c_start, b, key, options) is Ok) && (r is Err ==> r == Err::<(), Error>(
            decorated_outcome(c_start, b, key, options)->Err_0,
        )),
{
    let e = expanded_of(b).unwrap();
    let s = id_entry(b)->0->0;
    assert(!keyword_valued(d)) by {
        assert(!is_keyword_spec(s)) by {
            if is_keyword_spec(s) {
                assert(is_keyword_like_spec(s));
            }
        }
    }
    if prev is Some {
        lemma_decorated_agrees(c, c_start, b, key, options, d, prev->0);
    }
    reveal(decorated_outcome);
}

/// Whether `d` is the definition `def` completed with the entries of `v`.
spec fn finished_from(def: NormalTermDefinition, v: ExpandedRef, d: NormalTermDefinition) -> bool {
    &&& d.value == def.value
    &&& d.reverse_property == def.reverse_property
    &&& match v.container {
        Some(c) => container_denoted(container_entry(c), d.container),
        None => d.container == def.container,
    }
    &&& (v.type_ is None && v.language is Some) ==> nullable_view(d.language) == nullable_str_view(v.language)
    &&& !(v.type_ is None && v.language is Some) ==> d.language == def.language
    &&& (v.type_ is None && v.direction is Some) ==> d.direction == v.direction
    &&& !(v.type_ is None && v.direction is Some) ==> d.direction == def.direction
    &&& v.index is Some ==> opt_view(d.index) == str_view(v.index)
    &&& v.index is None ==> d.index == def.index
    &&& v.nest is Some ==> opt_view(d.nest) == str_view(v.nest)
    &&& v.nest is None ==> d.nest == def.nest
    &&& v.prefix is Some ==> d.prefix == v.prefix.unwrap()
    &&& v.prefix is None ==> d.prefix == def.prefix
    &&& d.typ == (if v.container is Some && d.container.has(ContainerKind::Type) && def.typ is None {
        Some(SyntaxType::<String>::Id)
    } else {
        def.typ
    })
    &&& v.context is Some ==> (d.context matches Some(c) && local_view(*c) == local_view(*v.context.unwrap()))
    &&& v.context is None ==> d.context == def.context
    &&& def.protected ==> d.protected
}

/// The last steps of creating a term definition: its container, index,
/// scoped context, language, direction, nest and prefix entries, the
/// protection check against the previous definition, and recording it.
#[verifier::spinoff_prover]
#[verifier::rlimit(100)]
fn finish_definition<H: Handler<Warning>>(
    ctx: &mut Context,
    key: &String,
    key_chars: &Vec<char>,
    value: &ExpandedRef,
    definition: NormalTermDefinition,
    previous_definition: &Option<NormalTermDefinition>,
    remote: &ProcessingStack<String>,
    base_url: &Option<String>,
    options: Options,
    depth: usize,
    warnings: &mut H,
) -> (r: Result<(), Error>)
    requires
        depth < MAX_SYNC_DEPTH,
        key_chars@ == key@,
    ensures
        forall|k: Seq<char>| k != key@ ==> #[trigger] final(ctx).lookup(k) == old(ctx).lookup(k),
        r is Err ==> *final(ctx) == *old(ctx),
        r is Ok ==> final(ctx).lookup(key@) is Some,
        r is Ok ==> finished_from(definition, *value, final(ctx).lookup(key@).unwrap()),
        final(ctx).mode() == old(ctx).mode(),
        settings_kept(*old(ctx), *final(ctx)),
        final(ctx).type_def() == old(ctx).type_def(),
        r is Ok && !options.override_protected ==> match *previous_definition {
            Some(p) => p.protected ==> protected_kept(final(ctx).lookup(key@), p),
            None => true,
        },
        r != Err::<(), Error>(Error::LoadingDocumentFailed),
        value.container is None && value.index is None && value.context is None && value.nest is None && value.prefix is None
            && value.propagate is None && (*previous_definition matches Some(p) && p.protected ==> options.override_protected)
            ==> r is Ok,
        value.container is None && value.index is None && value.context is None && value.nest is None && value.prefix is None
            && value.propagate is None && value.language is None && value.direction is None && !options.override_protected
            && (*previous_definition matches Some(p) && p.protected)
            ==> (r is Ok <==> agree_modulo_protected(definition, previous_definition->0)) && (r is Err ==> r == Err::<(), Error>(
            Error::ProtectedTermRedefinition,
        )),
        value.container is None && value.index is None && options.processing_mode == ProcessingMode::JsonLd1_1 && (
        value.context matches Some(c) && c.entries().len() > 0 && c.entries()[0] is IriRef) ==> r == Err::<(), Error>(
            Error::InvalidScopedContext,
        ),
        value.index is None && value.context is None && value.propagate is None ==> (entries_error(
            opt_container_entry(value.container),
            value.nest is Some,
            value.prefix,
            opt_type_view(definition.typ),
            key@,
            options.processing_mode,
            keyword_valued(definition),
        ) matches Some(e) ==> r == Err::<(), Error>(e)) && (entries_error(
            opt_container_entry(value.container),
            value.nest is Some,
            value.prefix,
            opt_type_view(definition.typ),
            key@,
            options.processing_mode,
            keyword_valued(definition),
        ) is None ==> (r is Ok <==> !(!options.override_protected && (*previous_definition matches Some(p) && p.protected
            && !completed_agrees(
            definition,
            opt_container_entry(value.container),
            str_view(value.nest),
            value.prefix,
            value.type_ is Some,
            nullable_str_view(value.language),
            value.direction,
            p,
        )))) && (r is Err ==> r == Err::<(), Error>(Error::ProtectedTermRedefinition))),
        value.container is None && value.index is None && value.nest is None && value.prefix is None && value.propagate is None
            && value.language is None && value.direction is None && options.processing_mode == ProcessingMode::JsonLd1_1 && (
        value.context matches Some(c) && nested_local(*old(ctx), *c, override_of(options))) && (*previous_definition matches Some(p)
            && p.protected ==> options.override_protected) ==> (r is Ok <==> fits_local(*value.context.unwrap(), depth + 1)) && (r is Err
            ==> r == Err::<(), Error>(Error::ContextOverflow)),
        value.container is None && value.index is None && value.nest is None && value.prefix is None && value.propagate is None
            && value.language is None && value.direction is None && options.processing_mode == ProcessingMode::JsonLd1_1
            && value.context is Some && (*previous_definition matches Some(p) && p.protected ==> options.override_protected) ==> (r is Err
            ==> r == Err::<(), Error>(Error::InvalidScopedContext) || r == Err::<(), Error>(Error::ContextOverflow)),
    decreases define_budget(depth), 0nat,
{
    let mode_1_0 = options.processing_mode == ProcessingMode::JsonLd1_0;
    let ghost def0 = definition;
    let ghost ent = entries_error(
        opt_container_entry(value.container),
        value.nest is Some,
        value.prefix,
        opt_type_view(def0.typ),
        key@,
        options.processing_mode,
        keyword_valued(def0),
    );
    let mut definition = match apply_container(definition, value.container, mode_1_0) {
        Ok(d) => d,
        Err(e) => {
            proof {
                reveal(entries_error);
            }
            return Err(e);
        },
    };
    proof {
        if value.container is Some {
            assert(container_error(container_entry(value.container->0), opt_type_view(def0.typ), options.processing_mode) is None);
        }
    }
    if let Some(index_value) = value.index {
        if !definition.container.contains(ContainerKind::Index) || mode_1_0 {
            return Err(Error::InvalidTermDefinition);
        }
        match expand_iri_simple(&*ctx, Nullable::Value(Expandable::String(index_value)), false, Some(options.vocab), warnings) {
            Ok(Some(Term::Id(Id::Valid(ValidId::Iri(_))))) => {},
            Ok(_) => {
                return Err(Error::InvalidTermDefinition);
            },
            Err(_) => {
                return Err(Error::ForbiddenVocab);
            },
        }
        definition.index = Some(index_value.to_string());
    }
    if let Some(context) = value.context {
        if mode_1_0 {
            return Err(Error::InvalidTermDefinition);
        }
        match process_context(&*ctx, context, remote, base_url, options.with_override(), depth + 1, warnings) {
            Ok(_) => {},
            Err(Error::ContextOverflow) => {
                return Err(Error::ContextOverflow);
            },
            Err(_) => {
                return Err(Error::InvalidScopedContext);
            },
        }
        definition.context = Some(Box::new(clone_local_context(context)));
        definition.base_url = crate::local::clone_opt_string(base_url);
    }
    if value.type_.is_none() {
        if let Some(language_value) = value.language {
            definition.language = Some(
                match language_value {
                    Nullable::Null => Nullable::Null,
                    Nullable::Value(l) => Nullable::Value(l.to_string()),
                },
            );
        }
        if let Some(direction_value) = value.direction {
            definition.direction = Some(direction_value);
        }
    }
    if let Some(nest_value) = value.nest {
        if mode_1_0 {
            proof {
                reveal(entries_error);
            }
            return Err(Error::InvalidTermDefinition);
        }
        definition.nest = Some(nest_value.to_string());
    }
    if let Some(prefix_value) = value.prefix {
        if chars_contain(key_chars, ':') || chars_contain(key_chars, '/') || mode_1_0 {
            proof {
                reveal(entries_error);
            }
            return Err(Error::InvalidTermDefinition);
        }
        definition.prefix = prefix_value;
        let keyword_value = match &definition.value {
            Some(v) => v.is_keyword(),
            None => false,
        };
        if definition.prefix && keyword_value {
            proof {
                reveal(entries_error);
            }
            return Err(Error::InvalidTermDefinition);
        }
    }
    if value.propagate.is_some() {
        return Err(Error::InvalidTermDefinition);
    }
    proof {
        if value.index is None && value.context is None && value.propagate is None {
            assert(ent is None) by {
                reveal(entries_error);
            }
            if previous_definition is Some {
                let p = previous_definition->0;
                assert(agree_modulo_protected(definition, p) == completed_agrees(
                    def0,
                    opt_container_entry(value.container),
                    str_view(value.nest),
                    value.prefix,
                    value.type_ is Some,
                    nullable_str_view(value.language),
                    value.direction,
                    p,
                )) by {
                    reveal(completed_agrees);
                }
            }
        }
    }
    if !options.override_protected {
        if let Some(previous_definition) = previous_definition {
            if previous_definition.protected {
                if !definition.same_modulo_protected(previous_definition) {
                    return Err(Error::ProtectedTermRedefinition);
                }
                definition.protected = true;
            }
        }
    }
    ctx.set_normal(key.clone(), Some(definition));
    Ok(())
}

/// Creates the definition of the key `key` from its binding in `local`;
/// `Ok(false)` when the definition is skipped because its `@id` or
/// `@reverse` only has the form of a keyword.
#[verifier::spinoff_prover]
#[verifier::rlimit(100)]
fn define_normal<H: Handler<Warning>>(
    ctx: &mut Context,
    local: &ContextDefinition,
    term: &TermKey,
    key: &String,
    key_chars: &Vec<char>,
    binding: &Nullable<TermDefinitionSyntax>,
    defined: &mut DefinedTerms,
    remote: &ProcessingStack<String>,
    base_url: &Option<String>,
    protected: bool,
    options: Options,
    depth: usize,
    warnings: &mut H,
) -> (r: Result<bool, Error>)
    requires
        depth < MAX_SYNC_DEPTH,
        *term == TermKey::Key(*key),
        key_chars@ == key@,
        old(defined)@.contains_key(Some(key@)),
        old(defined)@.get(Some(key@)) == Some(false),
        first_binding_of(local.bindings@, key@) is Some,
    ensures
        keeps_started(*old(ctx), *final(ctx), old(defined)@.remove(Some(key@))),
        grows(old(defined)@, final(defined)@),
        pending_kept_but(old(defined)@, final(defined)@, Some(key@)),
        final(ctx).mode() == old(ctx).mode(),
        settings_kept(*old(ctx), *final(ctx)),
        unbound_kept(*old(ctx), *final(ctx), local.bindings@),
        final(ctx).type_def() == old(ctx).type_def(),
        r is Ok && !options.override_protected ==> key_kept(*old(ctx), *final(ctx), key@),
        r != Err::<bool, Error>(Error::LoadingDocumentFailed),
        r is Ok ==> new_terms_as_bound(old(defined)@, final(defined)@, *final(ctx), local.bindings@, options.vocab),
        r == Ok::<bool, Error>(true) ==> (final(ctx).lookup(key@) matches Some(d) && follows_binding(d, *binding)),
        r == Ok::<bool, Error>(true) ==> (final(ctx).lookup(key@) matches Some(d) && prefix_mapped(*binding, key@, d)),
        plain_definition_base(*old(ctx), old(defined)@, local.bindings@, *binding, key@, options, depth)
            && !options.override_protected && (old(ctx).lookup(key@) matches Some(p) && p.protected) ==> (r == Ok::<bool, Error>(true)
            <==> plain_agrees(*old(ctx), *binding, key@, options, old(ctx).lookup(key@)->0)) && (r != Ok::<bool, Error>(true)
            ==> r == Err::<bool, Error>(Error::ProtectedTermRedefinition)),
        plain_definition_ok(*old(ctx), old(defined)@, local.bindings@, *binding, key@, options, depth) ==> r == Ok::<bool, Error>(true)
            && only_key_changed(*old(ctx), *final(ctx), key@) && no_new_pending(old(defined)@, final(defined)@),
        remote_scoped_binding(*binding) && plain_id(*old(ctx), old(defined)@, local.bindings@, *binding, key@, options, depth)
            && options.processing_mode == ProcessingMode::JsonLd1_1 ==> r == Err::<bool, Error>(Error::InvalidScopedContext),
        (plain_binding(*binding) || scoped_binding(*binding)) && (id_entry(*binding) matches Some(Nullable::Value(s)) && s != key@
            && !is_keyword_like_spec(s)) && depth + 2 >= MAX_SYNC_DEPTH ==> r == Err::<bool, Error>(Error::ContextOverflow),
        (plain_binding(*binding) || scoped_binding(*binding)) && plain_id(*old(ctx), old(defined)@, local.bindings@, *binding, key@, options, depth)
            ==> started_unbound(old(defined)@, final(defined)@, local.bindings@),
        decorated_binding(*binding) && plain_id(*old(ctx), old(defined)@, local.bindings@, *binding, key@, options, depth) ==> (r is Ok
            <==> decorated_outcome(*old(ctx), *binding, key@, options) is Ok) && (r is Ok ==> r == Ok::<bool, Error>(true)) && (r is Err ==> r
            == Err::<bool, Error>(decorated_outcome(*old(ctx), *binding, key@, options)->Err_0)),
        scoped_binding(*binding) && plain_id(*old(ctx), old(defined)@, local.bindings@, *binding, key@, options, depth)
            && options.processing_mode == ProcessingMode::JsonLd1_1 && (old(ctx).lookup(key@) matches Some(p) && p.protected
            ==> options.override_protected) ==> (r is Err ==> r == Err::<bool, Error>(Error::InvalidScopedContext) || r == Err::<
            bool,
            Error,
        >(Error::ContextOverflow)),
        scoped_binding(*binding) && plain_id(*old(ctx), old(defined)@, local.bindings@, *binding, key@, options, depth)
            && options.processing_mode == ProcessingMode::JsonLd1_1 && (old(ctx).lookup(key@) matches Some(p) && p.protected
            ==> options.override_protected) && nested_local(*old(ctx), scoped_context_of(*binding)->0, override_of(options)) ==> (r == Ok::<bool, Error>(true) <==> fits_local(scoped_context_of(*binding)->0, depth + 1)) && (r != Ok::<bool, Error>(true)
            ==> r == Err::<bool, Error>(Error::ContextOverflow)) && (r == Ok::<bool, Error>(true) ==> only_key_changed(
            *old(ctx),
            *final(ctx),
            key@,
        ) && no_new_pending(old(defined)@, final(defined)@)),
        r == Ok::<bool, Error>(true) ==> (final(ctx).lookup(key@) matches Some(d) && id_mapped(
            *final(ctx),
            *binding,
            key@,
            options.vocab,
            d.value,
        )),
        r == Ok::<bool, Error>(true) ==> id_reads_started(final(defined)@, *final(ctx), *binding, key@, options.vocab),
        r == Ok::<bool, Error>(true) ==> id_reads_settled(old(defined)@, *final(ctx), *binding, key@, options.vocab),
        r == Ok::<bool, Error>(false) ==> final(ctx).lookup(key@) is None && skipped_binding(*binding, key@),
        r is Ok && skipped_binding(*binding, key@) ==> r == Ok::<bool, Error>(false),
    decreases define_budget(depth), 1nat,
{
    let ghost c_start = *ctx;
    let ghost d_start = defined@;
    let previous_definition = ctx.set_normal(key.clone(), None);
    let ghost c0 = *ctx;
    proof {
        assert(keeps_started(c_start, c0, d_start.remove(Some(key@))));
    }
    let simple_term = match binding {
        Nullable::Value(TermDefinitionSyntax::Expanded(_)) => false,
        _ => true,
    };
    let value = expanded_ref(binding);
    let mut definition = NormalTermDefinition::new(None);
    definition.protected = protected;
    if let Some(p) = value.protected {
        if options.processing_mode == ProcessingMode::JsonLd1_0 {
            proof {
                reveal(decorated_outcome);
            }
            return Err(Error::InvalidTermDefinition);
        }
        definition.protected = p;
    }
    if let Some(type_) = value.type_ {
        let t = type_mapping(ctx, type_, local, defined, remote, options, depth, warnings);
        proof {
            lemma_keeps_trans(c_start, c0, *ctx, d_start.remove(Some(key@)), d_start);
            if t is Err && decorated_binding(*binding) {
                reveal(decorated_outcome);
                assert(decorated_outcome(c_start, *binding, key@, options) == Err::<(), Error>(Error::InvalidTypeMapping));
            }
        }
        definition.typ = t?;
    }
    let ghost c1 = *ctx;
    let ghost d1 = defined@;
    proof {
        assert(keeps_started(c0, c1, d_start));
        assert(grows(d_start, d1));
    }
    if let Some(reverse_value) = value.reverse {
        if value.id.is_some() || value.nest.is_some() {
            return Err(Error::InvalidReverseProperty);
        }
        let m = reverse_mapping(ctx, reverse_value, value.container, local, defined, remote, options, depth, warnings);
        proof {
            if m is Ok {
                lemma_new_terms_trans(d_start, d1, defined@, c1, *ctx, local.bindings@, options.vocab);
            }
            lemma_keeps_trans(c0, c1, *ctx, d_start, d1);
            lemma_grows_trans(d_start, d1, defined@);
            lemma_keeps_trans(c_start, c0, *ctx, d_start.remove(Some(key@)), d_start);
        }
        match m? {
            None => {
                return Ok(false);
            },
            Some((v, c)) => {
                definition.value = Some(v);
                if let Some(c) = c {
                    definition.container = c;
                }
                definition.reverse_property = true;
            },
        }
    }
    let ghost c2 = *ctx;
    let ghost d2 = defined@;
    proof {
        assert(keeps_started(c0, c2, d_start));
        assert(grows(d_start, d2));
    }
    if !definition.reverse_property {
        let m = id_mapping(ctx, term, key, key_chars, simple_term, value.id, local, defined, remote, options, depth, warnings);
        proof {
            if m is Ok {
                lemma_new_terms_trans(d_start, d2, defined@, c2, *ctx, local.bindings@, options.vocab);
            }
            lemma_keeps_trans(c0, c2, *ctx, d_start, d2);
            lemma_grows_trans(d_start, d2, defined@);
            lemma_keeps_trans(c_start, c0, *ctx, d_start.remove(Some(key@)), d_start);
        }
        match m? {
            None => {
                return Ok(false);
            },
            Some((v, prefix)) => {
                definition.value = v;
                if prefix {
                    definition.prefix = true;
                }
            },
        }
    }
    let ghost c3 = *ctx;
    proof {
        assert(keeps_started(c0, c3, d_start));
        assert(c3.lookup(key@) is None);
        lemma_keeps_trans(c_start, c0, c3, d_start.remove(Some(key@)), d_start);
    }
    let ghost d3 = defined@;
    let ghost v3 = definition.value;
    let ghost def3 = definition;
    proof {
        if scoped_binding(*binding) && plain_id(c_start, d_start, local.bindings@, *binding, key@, options, depth) {
            assert(c3 == c0);
            assert(*value.context.unwrap() == scoped_context_of(*binding)->0);
            if nested_local(c_start, scoped_context_of(*binding)->0, override_of(options)) {
                assert forall|x: Seq<char>| undefined_in(c_start)(x) && undefined_in(c_start)(x) implies #[trigger] undefined_in(c3)(x) by {
                    if x != key@ {
                        assert(c3.lookup(x) == c_start.lookup(x));
                    }
                }
                lemma_names_all(scoped_context_of(*binding)->0, undefined_in(c_start), undefined_in(c_start), undefined_in(c3));
                assert(nested_local(c3, scoped_context_of(*binding)->0, override_of(options)));
            }
        }
    }
    let r = finish_definition(ctx, key, key_chars, &value, definition, &previous_definition, remote, base_url, options, depth, warnings);
    proof {
        assert(keeps_started(c3, *ctx, d_start.remove(Some(key@))));
        lemma_keeps_trans(c_start, c3, *ctx, d_start.remove(Some(key@)), d_start.remove(Some(key@)));
        lemma_new_terms_except(d_start, d3, c3, *ctx, local.bindings@, options.vocab, key@);
        if plain_definition_base(c_start, d_start, local.bindings@, *binding, key@, options, depth)
            && !options.override_protected && (c_start.lookup(key@) matches Some(p) && p.protected) {
            let sid = id_entry(*binding)->0->0;
            assert(expand_string_spec(c3, sid, false, Some(options.vocab)) == expand_string_spec(
                c_start,
                sid,
                false,
                Some(options.vocab),
            ));
            lemma_plain_agrees(c3, c_start, *binding, key@, options, def3, c_start.lookup(key@)->0);
        }
        if decorated_binding(*binding) && plain_id(c_start, d_start, local.bindings@, *binding, key@, options, depth) {
            let sid = id_entry(*binding)->0->0;
            assert(expand_string_spec(c3, sid, false, Some(options.vocab)) == expand_string_spec(
                c_start,
                sid,
                false,
                Some(options.vocab),
            ));
            lemma_decorated_result(
                c3,
                c_start,
                *binding,
                key@,
                options,
                def3,
                previous_definition,
                opt_container_entry(value.container),
                str_view(value.nest),
                value.prefix,
                value.type_ is Some,
                nullable_str_view(value.language),
                value.direction,
                r,
            );
        }
        if r is Ok && !has_reverse(*binding) {
            if let Some(Nullable::Value(sid)) = id_entry(*binding) {
                if sid != key@ && !is_keyword_like_spec(sid) && !is_keyword_spec(sid) {
                    let dk = d3.remove(Some(key@));
                    assert(keeps_started(c3, *ctx, dk));
                    lemma_expansion_stable(c3, *ctx, sid, false, Some(options.vocab), dk);
                }
            }
        }
    }
    r?;
    Ok(true)
}

proof fn lemma_any_protected_same(
    d1: Seq<(String, NormalTermDefinition)>,
    t1: Option<TypeTermDefinition>,
    d2: Seq<(String, NormalTermDefinition)>,
    t2: Option<TypeTermDefinition>,
)
    requires
        d1.len() == d2.len(),
        forall|i: int| 0 <= i < d1.len() ==> (#[trigger] d1[i]).1.protected == d2[i].1.protected,
        t1 == t2,
    ensures
        any_protected(d1, t1) == any_protected(d2, t2),
{
    if exists|i: int| 0 <= i < d1.len() && d1[i].1.protected {
        let i = choose|i: int| 0 <= i < d1.len() && d1[i].1.protected;
        assert(d2[i].1.protected);
    }
    if exists|i: int| 0 <= i < d2.len() && d2[i].1.protected {
        let i = choose|i: int| 0 <= i < d2.len() && d2[i].1.protected;
        assert(d1[i].1.protected);
    }
}

/// Whether the binding of `k` in `bindings` is a plain one that defines
/// `k` without error over `active`: `k` is a nonempty term with no `:` or
/// `/`, its `@id` is a nonempty string that, like its prefix, is neither
/// bound in `bindings` nor defined in `active`, and that expands in
/// `active` to an absolute IRI or a blank node identifier; a protected
/// previous definition may be overridden.
pub open spec fn plain_entry(active: Context, bindings: Seq<(String, Nullable<TermDefinitionSyntax>)>, k: Seq<char>, options: Options) -> bool {
    first_binding_of(bindings, k) matches Some(b) && plain_binding(b) && entry_id_ok(active, bindings, k, b, options)
}

/// Whether the key `k` and the `@id` of its binding `b` in `bindings` are
/// as [`plain_entry`] asks over `active`.
pub open spec fn entry_id_ok(
    active: Context,
    bindings: Seq<(String, Nullable<TermDefinitionSyntax>)>,
    k: Seq<char>,
    b: Nullable<TermDefinitionSyntax>,
    options: Options,
) -> bool {
    match id_entry(b) {
        Some(Nullable::Value(s)) => {
            &&& k.len() > 0
            &&& !k.contains(':')
            &&& !k.contains('/')
            &&& s.len() > 0
            &&& first_binding_of(bindings, s) is None
            &&& active.lookup(s) is None
            &&& first_index(s, ':') is Some ==> first_binding_of(bindings, iri_prefix(s)) is None && active.lookup(
                iri_prefix(s),
            ) is None
            &&& (expand_string_spec(active, s, false, Some(options.vocab)) is Iri || expand_string_spec(
                active,
                s,
                false,
                Some(options.vocab),
            ) is Blank)
        },
        _ => false,
    }
}

/// Whether a binding is an expanded definition with an `@id` string and a
/// scoped context, and no other entry.
pub open spec fn scoped_binding(b: Nullable<TermDefinitionSyntax>) -> bool {
    match b {
        Nullable::Value(TermDefinitionSyntax::Expanded(e)) => {
            &&& e.id matches Some(Nullable::Value(_))
            &&& e.context is Some
            &&& e.type_ is None
            &&& e.reverse is None
            &&& e.index is None
            &&& e.language is None
            &&& e.direction is None
            &&& e.container is None
            &&& e.nest is None
            &&& e.prefix is None
            &&& e.propagate is None
            &&& e.protected is None
        },
        _ => false,
    }
}

/// The scoped context of a binding, if it has one.
pub open spec fn scoped_context_of(b: Nullable<TermDefinitionSyntax>) -> Option<LocalContext> {
    match b {
        Nullable::Value(TermDefinitionSyntax::Expanded(e)) => match e.context {
            Some(c) => Some(*c),
            None => None,
        },
        _ => None,
    }
}

/// `o` allowing protected terms to be redefined.
pub open spec fn override_of(o: Options) -> Options {
    Options { override_protected: true, ..o }
}

/// Whether `b` has the processing mode, vocabulary mapping and base IRI of
/// `a`, and leaves undefined exactly the terms `a` leaves undefined among
/// those with no binding in `bindings`.
pub open spec fn agrees_outside(a: Context, b: Context, bindings: Seq<(String, Nullable<TermDefinitionSyntax>)>) -> bool {
    &&& b.mode() == a.mode()
    &&& b.vocab() == a.vocab()
    &&& opt_view(b.base()) == opt_view(a.base())
    &&& forall|k: Seq<char>| first_binding_of(bindings, k) is None ==> (#[trigger] b.lookup(k) is None <==> a.lookup(k) is None)
}

/// Whether `s` is an `@id` that expands to itself, as a blank node
/// identifier or an absolute IRI, wherever neither it nor its prefix is
/// defined.
pub open spec fn free_id(s: Seq<char>) -> bool {
    &&& !is_keyword_like_spec(s)
    &&& first_index(s, ':') matches Some(i) && i > 0
    &&& (blank_id_valid(s) || (s != seq!['_', ':'] && iri_valid(s)))
}

/// The terms that `a` leaves undefined.
pub open spec fn undefined_in(a: Context) -> spec_fn(Seq<char>) -> bool {
    |x: Seq<char>| a.lookup(x) is None
}

/// The terms with no binding in `all`.
pub open spec fn unbound_in(all: Seq<(String, Nullable<TermDefinitionSyntax>)>) -> spec_fn(Seq<char>) -> bool {
    |x: Seq<char>| first_binding_of(all, x) is None
}

/// Whether the `@id` of `b`, and its prefix, satisfy `p`.
pub open spec fn id_names_ok(b: Nullable<TermDefinitionSyntax>, p: spec_fn(Seq<char>) -> bool) -> bool {
    match id_entry(b) {
        Some(Nullable::Value(s)) => p(s) && (first_index(s, ':') is Some ==> p(iri_prefix(s))),
        _ => true,
    }
}

/// Whether the `@id` of every binding of `c`, at every nesting level, and
/// its prefix, satisfy `p`.
pub open spec fn names_all(c: LocalContext, p: spec_fn(Seq<char>) -> bool) -> bool
    decreases c,
{
    match c {
        LocalContext::One(ContextEntry::Definition(d)) => names_bindings(d.bindings@, p),
        _ => true,
    }
}

/// [`names_binding`] for each of the bindings `s`.
pub open spec fn names_bindings(s: Seq<(String, Nullable<TermDefinitionSyntax>)>, p: spec_fn(Seq<char>) -> bool) -> bool
    decreases s,
{
    if s.len() == 0 {
        true
    } else {
        proof {
            assert(decreases_to!(s => s.drop_last()));
        }
        names_bindings(s.drop_last(), p) && names_binding(s.last().1, p)
    }
}

/// Whether the `@id` of `b` and of the bindings of its scoped context,
/// and their prefixes, satisfy `p`.
pub open spec fn names_binding(b: Nullable<TermDefinitionSyntax>, p: spec_fn(Seq<char>) -> bool) -> bool
    decreases b,
{
    &&& id_names_ok(b, p)
    &&& match b {
        Nullable::Value(TermDefinitionSyntax::Expanded(e)) => match e.context {
            Some(c) => names_all(*c, p),
            None => true,
        },
        _ => true,
    }
}

/// Whether `c` is a single context definition whose terms are defined
/// without error, whatever the nesting budget allows (see
/// [`fits_local`]), against a context with the processing mode of
/// `options` that leaves its `@id`s undefined (see [`nested_local`]): it
/// has no entry but its bindings, `@protected`, `@language` and, under
/// JSON-LD 1.1, `@direction`; and each binding is the first of its key and
/// is plain or, under JSON-LD 1.1, has a scoped context that is itself such
/// a context, none of whose `@id`s the bindings of `c` bind.
pub open spec fn nested_shape(c: LocalContext, options: Options) -> bool
    decreases c,
{
    match c {
        LocalContext::One(ContextEntry::Definition(d)) => {
            &&& d.base is None
            &&& d.import is None
            &&& d.direction is Some ==> options.processing_mode == ProcessingMode::JsonLd1_1
            &&& d.propagate is None
            &&& d.type_ is None
            &&& !d.version
            &&& d.vocab is None
            &&& shape_bindings(d.bindings@, d.bindings@, options)
        },
        _ => false,
    }
}

/// [`shape_binding`] for each of the bindings `s` of `all`.
pub open spec fn shape_bindings(
    all: Seq<(String, Nullable<TermDefinitionSyntax>)>,
    s: Seq<(String, Nullable<TermDefinitionSyntax>)>,
    options: Options,
) -> bool
    decreases s,
{
    if s.len() == 0 {
        true
    } else {
        proof {
            assert(decreases_to!(s => s.drop_last()));
        }
        shape_bindings(all, s.drop_last(), options) && shape_binding(all, s.last().0@, s.last().1, options)
    }
}

/// Whether `b`, a binding of `k` in `all`, is as [`nested_shape`] asks.
pub open spec fn shape_binding(
    all: Seq<(String, Nullable<TermDefinitionSyntax>)>,
    k: Seq<char>,
    b: Nullable<TermDefinitionSyntax>,
    options: Options,
) -> bool
    decreases b,
{
    &&& first_binding_of(all, k) == Some(b)
    &&& k.len() > 0
    &&& !k.contains(':')
    &&& !k.contains('/')
    &&& id_entry(b) matches Some(Nullable::Value(s)) && free_id(s) && first_binding_of(all, s) is None && first_binding_of(
        all,
        iri_prefix(s),
    ) is None
    &&& match b {
        Nullable::Value(TermDefinitionSyntax::Expanded(e)) => match e.context {
            Some(c) => {
                &&& scoped_binding(b)
                &&& options.processing_mode == ProcessingMode::JsonLd1_1
                &&& nested_shape(*c, override_of(options))
                &&& names_all(*c, unbound_in(all))
            },
            None => plain_binding(b),
        },
        _ => plain_binding(b),
    }
}

/// Whether processing the local context `c` against `active` defines all
/// its terms without error whatever the nesting budget allows (see
/// [`fits_local`]): `c` has the shape [`nested_shape`] asks, `active` has
/// the processing mode of `options` and leaves every `@id` of `c` and its
/// prefix undefined, and protected terms of `active` may be overridden.
pub open spec fn nested_local(active: Context, c: LocalContext, options: Options) -> bool {
    &&& nested_shape(c, options)
    &&& active.mode() == options.processing_mode
    &&& (options.override_protected || !any_protected(active.defs(), active.type_def()))
    &&& names_all(c, undefined_in(active))
}

/// Whether processing the local context `c` at nesting depth `depth` stays
/// within the nesting budget: every term it binds, defined one level
/// deeper, leaves room for the definition that expanding its `@id` makes
/// one more level down, and its scoped context, processed one level
/// deeper again, fits as well.
pub open spec fn fits_local(c: LocalContext, depth: int) -> bool
    decreases c,
{
    match c {
        LocalContext::One(ContextEntry::Definition(d)) => bindings_fit(d.bindings@, depth + 1),
        _ => true,
    }
}

/// [`binding_fits`] for each of the bindings `s`.
pub open spec fn bindings_fit(s: Seq<(String, Nullable<TermDefinitionSyntax>)>, depth: int) -> bool
    decreases s,
{
    if s.len() == 0 {
        true
    } else {
        proof {
            assert(decreases_to!(s => s.drop_last()));
        }
        bindings_fit(s.drop_last(), depth) && binding_fits(s.last().1, depth)
    }
}

/// Whether defining a term with the binding `b` at nesting depth `depth`
/// stays within the nesting budget (see [`fits_local`]).
pub open spec fn binding_fits(b: Nullable<TermDefinitionSyntax>, depth: int) -> bool
    decreases b,
{
    &&& depth + 2 < MAX_SYNC_DEPTH
    &&& match b {
        Nullable::Value(TermDefinitionSyntax::Expanded(e)) => match e.context {
            Some(c) => fits_local(*c, depth + 1),
            None => true,
        },
        _ => true,
    }
}

/// The bindings fit exactly when each of them does.
proof fn lemma_bindings_fit(s: Seq<(String, Nullable<TermDefinitionSyntax>)>, depth: int)
    ensures
        bindings_fit(s, depth) <==> forall|i: int| 0 <= i < s.len() ==> binding_fits(#[trigger] s[i].1, depth),
    decreases s.len(),
{
    if s.len() > 0 {
        lemma_bindings_fit(s.drop_last(), depth);
        if bindings_fit(s, depth) {
            assert forall|i: int| 0 <= i < s.len() implies binding_fits(#[trigger] s[i].1, depth) by {
                if i < s.len() - 1 {
                    assert(s.drop_last()[i] == s[i]);
                }
            }
        }
        if forall|i: int| 0 <= i < s.len() ==> binding_fits(#[trigger] s[i].1, depth) {
            assert forall|i: int| 0 <= i < s.drop_last().len() implies binding_fits(#[trigger] s.drop_last()[i].1, depth) by {
                assert(s.drop_last()[i] == s[i]);
            }
            assert(binding_fits(s[s.len() - 1].1, depth));
        }
    }
}

/// Each of the bindings is as [`shape_bindings`] asks.
proof fn lemma_shape_bindings(all: Seq<(String, Nullable<TermDefinitionSyntax>)>, s: Seq<(String, Nullable<TermDefinitionSyntax>)>, options: Options)
    requires
        shape_bindings(all, s, options),
    ensures
        forall|i: int| 0 <= i < s.len() ==> shape_binding(all, (#[trigger] s[i]).0@, s[i].1, options),
    decreases s.len(),
{
    if s.len() > 0 {
        lemma_shape_bindings(all, s.drop_last(), options);
        assert forall|i: int| 0 <= i < s.len() implies shape_binding(all, (#[trigger] s[i]).0@, s[i].1, options) by {
            if i < s.len() - 1 {
                assert(s.drop_last()[i] == s[i]);
            }
        }
    }
}

/// Each of the bindings is as [`names_bindings`] asks.
proof fn lemma_names_bindings(s: Seq<(String, Nullable<TermDefinitionSyntax>)>, p: spec_fn(Seq<char>) -> bool)
    requires
        names_bindings(s, p),
    ensures
        forall|i: int| 0 <= i < s.len() ==> names_binding((#[trigger] s[i]).1, p),
    decreases s.len(),
{
    if s.len() > 0 {
        lemma_names_bindings(s.drop_last(), p);
        assert forall|i: int| 0 <= i < s.len() implies names_binding((#[trigger] s[i]).1, p) by {
            if i < s.len() - 1 {
                assert(s.drop_last()[i] == s[i]);
            }
        }
    }
}

/// Names that satisfy both `p` and `q` satisfy `r` at every level of `c`
/// when `r` follows from `p` and `q`.
proof fn lemma_names_all(c: LocalContext, p: spec_fn(Seq<char>) -> bool, q: spec_fn(Seq<char>) -> bool, r: spec_fn(Seq<char>) -> bool)
    requires
        names_all(c, p),
        names_all(c, q),
        forall|x: Seq<char>| p(x) && q(x) ==> #[trigger] r(x),
    ensures
        names_all(c, r),
    decreases c, 2nat,
{
    match c {
        LocalContext::One(ContextEntry::Definition(d)) => {
            lemma_names_bindings_all(d.bindings@, p, q, r);
        },
        _ => {},
    }
}

/// [`lemma_names_all`] for the bindings `s`.
proof fn lemma_names_bindings_all(
    s: Seq<(String, Nullable<TermDefinitionSyntax>)>,
    p: spec_fn(Seq<char>) -> bool,
    q: spec_fn(Seq<char>) -> bool,
    r: spec_fn(Seq<char>) -> bool,
)
    requires
        names_bindings(s, p),
        names_bindings(s, q),
        forall|x: Seq<char>| p(x) && q(x) ==> #[trigger] r(x),
    ensures
        names_bindings(s, r),
    decreases s, 1nat,
{
    if s.len() > 0 {
        assert(decreases_to!(s => s.drop_last()));
        lemma_names_bindings_all(s.drop_last(), p, q, r);
        lemma_names_binding_all(s.last().1, p, q, r);
    }
}

/// [`lemma_names_all`] for the binding `b`.
proof fn lemma_names_binding_all(
    b: Nullable<TermDefinitionSyntax>,
    p: spec_fn(Seq<char>) -> bool,
    q: spec_fn(Seq<char>) -> bool,
    r: spec_fn(Seq<char>) -> bool,
)
    requires
        names_binding(b, p),
        names_binding(b, q),
        forall|x: Seq<char>| p(x) && q(x) ==> #[trigger] r(x),
    ensures
        names_binding(b, r),
    decreases b, 0nat,
{
    if let Some(Nullable::Value(s)) = id_entry(b) {
        assert(p(s) && q(s));
        if first_index(s, ':') is Some {
            assert(p(iri_prefix(s)) && q(iri_prefix(s)));
        }
    }
    match b {
        Nullable::Value(TermDefinitionSyntax::Expanded(e)) => match e.context {
            Some(c) => {
                lemma_names_all(*c, p, q, r);
            },
            None => {},
        },
        _ => {},
    }
}

/// A free `@id` that neither `a` defines, nor its prefix, expands to itself
/// as a blank node identifier or an absolute IRI.
proof fn lemma_free_id_expansion(a: Context, s: Seq<char>, vocab: Action)
    requires
        free_id(s),
        a.lookup(s) is None,
        a.lookup(iri_prefix(s)) is None,
    ensures
        expand_string_spec(a, s, false, Some(vocab)) is Iri || expand_string_spec(a, s, false, Some(vocab)) is Blank,
{
    assert(keyword_mapping(a, s) is None);
    assert(prefix_expansion(a, s) is None);
}

/// Whether processing the context definition `def` against `active` makes
/// only plain term definitions (see [`plain_entry`]): `def` has no entry
/// but its bindings, `@protected`, `@language` and, under JSON-LD 1.1,
/// `@direction`, the processing mode is that of `active`, protected terms
/// of `active` may be overridden, and the nesting budget leaves room for
/// the definitions.
pub open spec fn plain_context(active: Context, def: ContextDefinition, options: Options, depth: usize) -> bool {
    &&& def.base is None
    &&& def.import is None
    &&& def.direction is Some ==> options.processing_mode == ProcessingMode::JsonLd1_1
    &&& def.propagate is None
    &&& def.type_ is None
    &&& !def.version
    &&& def.vocab is None
    &&& active.mode() == options.processing_mode
    &&& (options.override_protected || !any_protected(active.defs(), active.type_def()))
    &&& depth + 3 < MAX_SYNC_DEPTH
    &&& forall|i: int| 0 <= i < def.bindings@.len() ==> plain_entry(active, def.bindings@, #[trigger] def.bindings@[i].0@, options)
}

/// Whether `start` gives every term the definition `active` gives it and
/// has its settings.
pub open spec fn starts_as(start: Context, active: Context) -> bool {
    &&& forall|k: Seq<char>| same_definition(#[trigger] start.lookup(k), active.lookup(k))
    &&& opt_view(start.language()) == opt_view(active.language())
    &&& start.direction() == active.direction()
    &&& start.vocab() == active.vocab()
    &&& opt_view(start.base()) == opt_view(active.base())
}

/// Whether `next` is what processing the context entry `e` makes of
/// `prev`: a `null` entry leaves no term definition; a context definition
/// gives its settings (see [`definition_settings`]) and its terms (see
/// [`definition_terms`]) and keeps every term it does not bind.
pub open spec fn entry_step(prev: Context, e: ContextEntry, next: Context, in_remote: bool, vocab: Action) -> bool {
    match e {
        ContextEntry::Null => next.defs().len() == 0 && next.type_def() is None,
        ContextEntry::IriRef(_) => false,
        ContextEntry::Definition(d) => {
            &&& definition_settings(prev, d, in_remote, next)
            &&& definition_terms(d, next, vocab)
            &&& unbound_kept(prev, next, d.bindings@)
        },
    }
}

/// Whether `steps` are the contexts that processing the entries `entries`
/// one after the other goes through: the first starts as `active`, each
/// next one is what its entry makes of the one before.
pub open spec fn processed_in_turn(
    active: Context,
    entries: Seq<ContextEntry>,
    steps: Seq<Context>,
    in_remote: bool,
    vocab: Action,
) -> bool {
    &&& steps.len() == entries.len() + 1
    &&& starts_as(steps[0], active)
    &&& forall|i: int| 0 <= i < entries.len() ==> entry_step(steps[i], #[trigger] entries[i], steps[i + 1], in_remote, vocab)
}

/// Whether processing the local context `local` at nesting depth `depth`
/// reaches a term definition one level deeper than the nesting allows: it
/// is a single context definition with no settings but `@protected`, and
/// with a `@type` entry or a binding.
pub open spec fn overflows_at(local: LocalContext, depth: usize) -> bool {
    &&& local matches LocalContext::One(ContextEntry::Definition(def))
    &&& def.base is None
    &&& def.import is None
    &&& def.language is None
    &&& def.direction is None
    &&& def.propagate is None
    &&& !def.version
    &&& def.vocab is None
    &&& (def.type_ is Some || def.bindings@.len() > 0)
    &&& depth + 1 >= MAX_SYNC_DEPTH
}

/// Whether `local` is a single context definition that is plain over
/// `active` (see [`plain_context`]).
pub open spec fn plain_local(active: Context, local: LocalContext, options: Options, depth: usize) -> bool {
    local matches LocalContext::One(ContextEntry::Definition(d)) && plain_context(active, d, options, depth)
}

/// Expansion of a string that neither context defines, nor its prefix,
/// only reads the settings the two contexts share.
proof fn lemma_expansion_undefined(c1: Context, c2: Context, s: Seq<char>, document_relative: bool, vocab: Option<Action>)
    requires
        c1.lookup(s) is None,
        c2.lookup(s) is None,
        first_index(s, ':') is Some ==> c1.lookup(iri_prefix(s)) is None && c2.lookup(iri_prefix(s)) is None,
        c1.vocab() == c2.vocab(),
        opt_view(c1.base()) == opt_view(c2.base()),
        c1.mode() == c2.mode(),
    ensures
        expand_string_spec(c1, s, document_relative, vocab) == expand_string_spec(c2, s, document_relative, vocab),
        prefix_read(c1, s, vocab) == prefix_read(c2, s, vocab),
{
    assert(keyword_mapping(c1, s) == keyword_mapping(c2, s));
    assert(vocab_id_text(c1) == vocab_id_text(c2));
    if first_index(s, ':') is Some {
        assert(prefix_expansion(c1, s) == prefix_expansion(c2, s));
    } else {
        assert(prefix_expansion(c1, s) is None && prefix_expansion(c2, s) is None);
    }
}

/// A protected definition makes a context hold protected items.
proof fn lemma_lookup_protected(c: Context, k: Seq<char>)
    requires
        c.lookup(k) matches Some(p) && p.protected,
    ensures
        any_protected(c.defs(), c.type_def()),
{
    let i = index_of(c.defs(), k).unwrap();
    assert(c.defs()[i].1.protected);
}

/// Copies of a context with the same keys leave the same terms undefined.
proof fn lemma_lookup_none_same_keys(a: Context, b: Context, k: Seq<char>)
    requires
        a.defs().len() == b.defs().len(),
        forall|i: int| 0 <= i < a.defs().len() ==> (#[trigger] a.defs()[i]).0@ == b.defs()[i].0@,
        a.lookup(k) is None,
    ensures
        b.lookup(k) is None,
{
    if exists|i: int| 0 <= i < b.defs().len() && b.defs()[i].0@ == k {
        let i = choose|i: int| 0 <= i < b.defs().len() && b.defs()[i].0@ == k;
        assert(a.defs()[i].0@ == k);
    }
}

/// Under a plain context, the next binding is either done or a plain
/// definition that succeeds in the context built so far.
proof fn lemma_plain_step(
    active: Context,
    c_init: Context,
    result: Context,
    defined: Map<Option<Seq<char>>, bool>,
    bindings: Seq<(String, Nullable<TermDefinitionSyntax>)>,
    kk: Seq<char>,
    options: Options,
    opts: Options,
    depth: usize,
)
    requires
        first_binding_of(bindings, kk) matches Some(b) && entry_id_ok(active, bindings, kk, b, options),
        active.mode() == options.processing_mode,
        options.override_protected || !any_protected(active.defs(), active.type_def()),
        opts.vocab == options.vocab,
        opts.override_protected == options.override_protected,
        c_init.vocab() == active.vocab(),
        opt_view(c_init.base()) == opt_view(active.base()),
        c_init.mode() == active.mode(),
        any_protected(c_init.defs(), c_init.type_def()) == any_protected(active.defs(), active.type_def()),
        c_init.defs().len() == active.defs().len(),
        forall|x: int| 0 <= x < active.defs().len() ==> (#[trigger] c_init.defs()[x]).0@ == active.defs()[x].0@,
        result.vocab() == c_init.vocab(),
        result.base() == c_init.base(),
        result.mode() == c_init.mode(),
        forall|t: Seq<char>| first_binding_of(bindings, t) is None ==> #[trigger] result.lookup(t) == c_init.lookup(t),
        forall|t: Seq<char>| !defined.contains_key(Some(t)) ==> #[trigger] result.lookup(t) == c_init.lookup(t),
        forall|x: Option<Seq<char>>| #[trigger] defined.get(x) != Some(false),
    ensures
        defined.contains_key(Some(kk)) ==> defined.get(Some(kk)) == Some(true),
        !defined.contains_key(Some(kk)) ==> (first_binding_of(bindings, kk) matches Some(b) && (depth + 3 < MAX_SYNC_DEPTH ==> plain_id(
            result,
            defined.insert(Some(kk), false),
            bindings,
            b,
            kk,
            opts,
            (depth + 1) as usize,
        )) && (result.lookup(kk) matches Some(p) && p.protected ==> opts.override_protected)),
        !defined.contains_key(Some(kk)) ==> (first_binding_of(bindings, kk) matches Some(b) && id_entry(b) matches Some(
            Nullable::Value(s),
        ) && s != kk && !is_keyword_like_spec(s) && kk.len() > 0),
        agrees_outside(active, result, bindings),
{
    assert(defined.get(Some(kk)) != Some(false));
    assert forall|t: Seq<char>| first_binding_of(bindings, t) is None implies (#[trigger] result.lookup(t) is None
        <==> active.lookup(t) is None) by {
        assert(result.lookup(t) == c_init.lookup(t));
        if active.lookup(t) is None {
            lemma_lookup_none_same_keys(active, c_init, t);
        }
        if c_init.lookup(t) is None {
            lemma_lookup_none_same_keys(c_init, active, t);
        }
    }
    if !defined.contains_key(Some(kk)) {
        let b = first_binding_of(bindings, kk).unwrap();
        if let Some(Nullable::Value(sid)) = id_entry(b) {
            assert(sid != kk);
            lemma_lookup_none_same_keys(active, c_init, sid);
            assert(result.lookup(sid) == c_init.lookup(sid));
            if first_index(sid, ':') is Some {
                lemma_lookup_none_same_keys(active, c_init, iri_prefix(sid));
                assert(result.lookup(iri_prefix(sid)) == c_init.lookup(iri_prefix(sid)));
            }
            lemma_expansion_undefined(active, result, sid, false, Some(options.vocab));
            let d2 = defined.insert(Some(kk), false);
            assert(defined.get(Some(sid)) != Some(false));
            assert(d2.get(Some(sid)) != Some(false));
            if prefix_read(result, sid, Some(opts.vocab)) {
                assert(first_binding_of(bindings, iri_prefix(sid)) is None);
                assert(iri_prefix(sid) != kk);
                assert(defined.get(Some(iri_prefix(sid))) != Some(false));
                assert(d2.get(Some(iri_prefix(sid))) != Some(false));
            }
            assert(result.lookup(kk) == c_init.lookup(kk));
            if result.lookup(kk) matches Some(p) && p.protected {
                lemma_lookup_protected(c_init, kk);
            }
        }
    }
}

/// Runs the context processing algorithm: the active context that results
/// from processing the local context `local` against `active`.
///
/// For a single context definition, the result carries its settings, and
/// each term it binds is defined as its binding declares, with the IRI
/// mapping that the binding's `@id` expands to in the result.
///
/// Remote contexts and `@import` are not loaded here: meeting one is a
/// loading failure.
pub fn process_context<H: Handler<Warning>>(
    active: &Context,
    local: &LocalContext,
    remote: &ProcessingStack<String>,
    base_url: &Option<String>,
    options: Options,
    depth: usize,
    warnings: &mut H,
) -> (r: Result<Context, Error>)
    requires
        depth < usize::MAX,
    ensures
        r matches Ok(c) ==> c.mode() == options.processing_mode,
        local.entries().len() > 0 && local.entries()[0] is Null && !options.override_protected && any_protected(
            active.defs(),
            active.type_def(),
        ) ==> r == Err::<Context, Error>(Error::InvalidContextNullification),
        local.entries() =~= seq![ContextEntry::Null] && (options.override_protected || !any_protected(
            active.defs(),
            active.type_def(),
        )) ==> (r matches Ok(c) && c.defs().len() == 0 && c.type_def() is None),
        r == Err::<Context, Error>(Error::LoadingDocumentFailed) ==> context_needs_loader(*local),
        *local matches LocalContext::One(ContextEntry::Definition(def)) ==> (plain_context(*active, def, options, depth) ==> r is Ok),
        overflows_at(*local, depth) ==> r == Err::<Context, Error>(Error::ContextOverflow),
        nested_local(*active, *local, options) ==> (r is Ok <==> fits_local(*local, depth as int)) && (r is Err ==> r == Err::<
            Context,
            Error,
        >(Error::ContextOverflow)),
        r matches Ok(c) ==> exists|steps: Seq<Context>| processed_in_turn(*active, local.entries(), steps, remote@.len() > 0, options.vocab)
            && steps.last() == c,
        r matches Ok(c) ==> (*local matches LocalContext::One(ContextEntry::Definition(def)) ==> forall|k: Seq<char>|
            first_binding_of(def.bindings@, k) is None ==> same_definition(#[trigger] c.lookup(k), active.lookup(k))),
        local.entries().len() > 0 && local.entries()[0] is IriRef ==> r == Err::<Context, Error>(Error::LoadingDocumentFailed),
        local.entries().len() > 0 && options.processing_mode == ProcessingMode::JsonLd1_1 && (local.entries()[0] matches ContextEntry::Definition(d)
            && d.import is Some) ==> r == Err::<Context, Error>(Error::LoadingDocumentFailed),
        r matches Ok(c) ==> (*local matches LocalContext::One(ContextEntry::Definition(def)) ==> definition_settings(
            *active,
            def,
            remote@.len() > 0,
            c,
        ) && definition_terms(def, c, options.vocab)),
    decreases depth_budget(depth), 2nat,
{
    let ghost override0 = options.override_protected;
    let ghost plain: bool = plain_local(*active, *local, options, depth);
    let ghost overflowing: bool = overflows_at(*local, depth);
    let ghost nest: bool = nested_local(*active, *local, options);
    let mut opts = options;
    let mut result = active.duplicate();
    let ghost dup = result;
    proof {
        lemma_any_protected_same(result.defs(), result.type_def(), active.defs(), active.type_def());
    }
    result.set_processing_mode(opts.processing_mode);
    if let LocalContext::One(ContextEntry::Definition(def)) = local {
        if let Some(propagate) = def.propagate {
            if opts.processing_mode == ProcessingMode::JsonLd1_0 {
                return Err(Error::InvalidContextEntry);
            }
            opts.propagate = propagate;
        }
    }
    if !opts.propagate && result.previous_context().is_none() {
        result.set_previous_context(active.duplicate());
    }
    let n = local.len();
    let mut i: usize = 0;
    let ghost mut steps: Seq<Context> = seq![result];
    proof {
        assert forall|k: Seq<char>| same_definition(#[trigger] result.lookup(k), active.lookup(k)) by {
            lemma_same_context_lookup(dup, *active, k);
        }
    }
    while i < n
        invariant
            n == local.entries().len(),
            steps.len() == i + 1,
            steps[i as int] == result,
            starts_as(steps[0], *active),
            forall|j: int| 0 <= j < i ==> entry_step(steps[j], #[trigger] local.entries()[j], steps[j + 1], remote@.len() > 0, options.vocab),
            i <= n,
            depth < usize::MAX,
            result.mode() == opts.processing_mode,
            opts.override_protected == override0,
            opts.vocab == options.vocab,
            opts.processing_mode == options.processing_mode,
            plain == plain_local(*active, *local, options, depth),
            overflowing == overflows_at(*local, depth),
            overflowing ==> i == 0,
            nest == nested_local(*active, *local, options),
            nest ==> opts == options && n == 1,
            nest && i == 1 ==> fits_local(*local, depth as int),
            same_context(dup, *active),
            keys_unique(active.defs()),
            i == 0 ==> result.defs() == dup.defs(),
            i == 1 ==> (*local matches LocalContext::One(ContextEntry::Definition(def)) ==> forall|k: Seq<char>|
                first_binding_of(def.bindings@, k) is None ==> same_definition(#[trigger] result.lookup(k), active.lookup(k))),
            plain ==> n == 1 && (*local matches LocalContext::One(ContextEntry::Definition(d)) && plain_context(*active, d, options, depth)),
            plain && i == 0 ==> result.defs().len() == active.defs().len() && (forall|x: int| 0 <= x < active.defs().len() ==> (
            #[trigger] result.defs()[x]).0@ == active.defs()[x].0@),
            i > 0 ==> !(local.entries()[0] is IriRef),
            i > 0 && options.processing_mode == ProcessingMode::JsonLd1_1 ==> !(local.entries()[0] matches ContextEntry::Definition(d)
                && d.import is Some),
            override0 == options.override_protected,
            i == 0 ==> any_protected(result.defs(), result.type_def()) == any_protected(active.defs(), active.type_def()),
            i > 0 ==> !(local.entries()[0] is Null && !override0 && any_protected(active.defs(), active.type_def())),
            (local.entries() =~= seq![ContextEntry::Null] && i == 1) ==> result.defs().len() == 0 && result.type_def() is None,
            i == 0 ==> opt_view(result.language()) == opt_view(active.language()) && result.direction() == active.direction()
                && result.vocab() == active.vocab() && opt_view(result.base()) == opt_view(active.base()),
            i == 1 ==> (*local matches LocalContext::One(ContextEntry::Definition(def)) ==> definition_settings(
                *active,
                def,
                remote@.len() > 0,
                result,
            ) && definition_terms(def, result, options.vocab)),
        decreases n - i,
    {
        match local.entry(i) {
            ContextEntry::Null => {
                if !opts.override_protected && result.has_protected_items() {
                    return Err(Error::InvalidContextNullification);
                }
                let previous_result = result;
                let original: Option<String> = match active.original_base_url() {
                    Some(u) => Some(u.clone()),
                    None => None,
                };
                result = Context::new(original);
                result.set_processing_mode(opts.processing_mode);
                if !opts.propagate {
                    result.set_previous_context(previous_result);
                }
                proof {
                    assert(entry_step(steps[i as int], local.entries()[i as int], result, remote@.len() > 0, options.vocab));
                }
            },
            ContextEntry::IriRef(_) => {
                proof {
                    lemma_entry_needs(*local, i as int);
                    assert(i > 0 || !(local.entries()[0] is Null));
                    assert(!(local.entries().len() > 0 && local.entries()[0] is Null && !override0 && any_protected(active.defs(), active.type_def())));
                }
                return Err(Error::LoadingDocumentFailed);
            },
            ContextEntry::Definition(context) => {
                let ghost pre = result;
                proof {
                    assert(i > 0 || !(local.entries()[0] is Null));
                    assert(!(local.entries().len() > 0 && local.entries()[0] is Null && !override0 && any_protected(active.defs(), active.type_def())));
                    if local.entries() =~= seq![ContextEntry::Null] {
                        assert(local.entries()[i as int] is Null);
                    }
                }
                if context.version && opts.processing_mode == ProcessingMode::JsonLd1_0 {
                    return Err(Error::ProcessingModeConflict);
                }
                if context.import.is_some() {
                    proof {
                        lemma_entry_needs(*local, i as int);
                    }
                    return Err(Error::LoadingDocumentFailed);
                }
                proof {
                    assert(!(local.entries()[0] is IriRef));
                    assert(options.processing_mode == ProcessingMode::JsonLd1_1 ==> !(local.entries()[0] matches ContextEntry::Definition(d)
                        && d.import is Some));
                }
                if remote.is_empty() {
                    match &context.base {
                        Some(Nullable::Null) => {
                            result.set_base_iri(None);
                        },
                        Some(Nullable::Value(iri_ref)) => {
                            if is_iri(iri_ref.as_str()) {
                                result.set_base_iri(Some(iri_ref.clone()));
                            } else {
                                let resolved = match result.base_iri() {
                                    Some(base) => {
                                        if is_iri(base.as_str()) && is_iri_ref(iri_ref.as_str()) {
                                            resolve_reference(iri_ref.as_str(), base.as_str())
                                        } else {
                                            None
                                        }
                                    },
                                    None => None,
                                };
                                match resolved {
                                    Some(b) => {
                                        result.set_base_iri(Some(b));
                                    },
                                    None => {
                                        return Err(Error::InvalidBaseIri);
                                    },
                                }
                            }
                        },
                        None => {},
                    }
                }
                match &context.vocab {
                    Some(Nullable::Null) => {
                        result.set_vocabulary(None);
                    },
                    Some(Nullable::Value(v)) => {
                        if opts.processing_mode == ProcessingMode::JsonLd1_0 && !(is_iri(v.as_str()) || is_blank_id(v.as_str())) {
                            return Err(Error::InvalidVocabMapping);
                        }
                        let document_relative = opts.processing_mode != ProcessingMode::JsonLd1_0;
                        match expand_iri_simple(&result, Nullable::Value(Expandable::String(v.as_str())), document_relative, Some(opts.vocab), warnings) {
                            Ok(Some(Term::Id(id))) => {
                                result.set_vocabulary(Some(Term::Id(id)));
                            },
                            Ok(_) => {
                                return Err(Error::InvalidVocabMapping);
                            },
                            Err(_) => {
                                return Err(Error::ForbiddenVocab);
                            },
                        }
                    },
                    None => {},
                }
                match &context.language {
                    Some(Nullable::Null) => {
                        result.set_default_language(None);
                    },
                    Some(Nullable::Value(tag)) => {
                        result.set_default_language(Some(tag.clone()));
                    },
                    None => {},
                }
                match context.direction {
                    Some(d) => {
                        if opts.processing_mode == ProcessingMode::JsonLd1_0 {
                            return Err(Error::InvalidContextEntry);
                        }
                        match d {
                            Nullable::Null => {
                                result.set_default_base_direction(None);
                            },
                            Nullable::Value(dir) => {
                                result.set_default_base_direction(Some(dir));
                            },
                        }
                    },
                    None => {},
                }
                let ghost settled = result;
                proof {
                    assert(definition_settings(pre, *context, remote@.len() > 0, settled));
                    if let LocalContext::One(ContextEntry::Definition(def)) = local {
                        assert(i == 0);
                        assert(*def == *context);
                        assert(definition_settings(*active, *def, remote@.len() > 0, settled));
                    }
                }
                let ghost c_set = result;
                proof {
                    assert(c_set.defs() == pre.defs());
                }
                let mut defined = DefinedTerms::new();
                let protected = match context.protected {
                    Some(p) => p,
                    None => false,
                };
                if context.type_.is_some() {
                    define(&mut result, context, &TermKey::Type, &mut defined, remote, base_url, protected, opts, depth + 1, warnings)?;
                }
                proof {
                    if overflowing {
                        assert(*local == LocalContext::One(ContextEntry::Definition(*context)));
                    }
                }
                let ghost none_started = Map::<Option<Seq<char>>, bool>::empty();
                let ghost c_init = result;
                proof {
                    if plain {
                        assert(i == 0);
                        assert(*local == LocalContext::One(ContextEntry::Definition(*context)));
                        assert(plain_context(*active, *context, options, depth));
                        assert(defined@ == Map::<Option<Seq<char>>, bool>::empty());
                    }
                    if nest {
                        assert(i == 0);
                        assert(*local == LocalContext::One(ContextEntry::Definition(*context)));
                        assert(defined@ == Map::<Option<Seq<char>>, bool>::empty());
                        lemma_shape_bindings(context.bindings@, context.bindings@, options);
                        lemma_names_bindings(context.bindings@, undefined_in(*active));
                    }
                }
                let mut j: usize = 0;
                while j < context.bindings.len()
                    invariant
                        depth < usize::MAX,
                        result.mode() == opts.processing_mode,
                        override0 == options.override_protected,
                        !(local.entries() =~= seq![ContextEntry::Null]),
                        !(local.entries().len() > 0 && local.entries()[0] is Null && !override0 && any_protected(active.defs(), active.type_def())),
                        settings_kept(settled, result),
                        j <= context.bindings@.len(),
                        new_terms_as_bound(none_started, defined@, result, context.bindings@, opts.vocab),
                        none_started == Map::<Option<Seq<char>>, bool>::empty(),
                        !(local.entries()[0] is IriRef),
                        options.processing_mode == ProcessingMode::JsonLd1_1 ==> !(local.entries()[0] matches ContextEntry::Definition(d)
                            && d.import is Some),
                        forall|i: int| 0 <= i < j ==> #[trigger] defined@.contains_key(Some(context.bindings@[i].0@)),
                        opts.vocab == options.vocab,
                        opts.override_protected == options.override_protected,
                        opts.processing_mode == options.processing_mode,
                        plain ==> plain_context(*active, *context, options, depth),
                        plain == plain_local(*active, *local, options, depth),
                        overflowing == overflows_at(*local, depth),
                        overflowing ==> j == 0 && context.type_ is None && *local == LocalContext::One(ContextEntry::Definition(*context)),
                        unbound_kept(c_set, result, context.bindings@),
                        c_set.defs() == pre.defs(),
                        depth + 1 >= MAX_SYNC_DEPTH ==> j == 0,
                        (plain || nest) ==> c_init.vocab() == active.vocab() && opt_view(c_init.base()) == opt_view(active.base())
                            && c_init.mode() == active.mode() && any_protected(c_init.defs(), c_init.type_def()) == any_protected(
                            active.defs(),
                            active.type_def(),
                        ),
                        (plain || nest) ==> c_init.defs().len() == active.defs().len() && (forall|x: int| 0 <= x < active.defs().len() ==> (
                        #[trigger] c_init.defs()[x]).0@ == active.defs()[x].0@),
                        (plain || nest) ==> result.vocab() == c_init.vocab() && result.base() == c_init.base() && result.mode() == c_init.mode(),
                        (plain || nest) ==> forall|t: Seq<char>| first_binding_of(context.bindings@, t) is None ==> #[trigger] result.lookup(t)
                            == c_init.lookup(t),
                        (plain || nest) ==> forall|t: Seq<char>| !defined@.contains_key(Some(t)) ==> #[trigger] result.lookup(t) == c_init.lookup(t),
                        (plain || nest) ==> forall|x: Option<Seq<char>>| #[trigger] defined@.get(x) != Some(false),
                        nest == nested_local(*active, *local, options),
                        nest ==> opts == options && i == 0 && *local == LocalContext::One(ContextEntry::Definition(*context)),
                        nest ==> active.mode() == options.processing_mode && (options.override_protected || !any_protected(
                            active.defs(),
                            active.type_def(),
                        )),
                        nest ==> forall|x: int| 0 <= x < context.bindings@.len() ==> shape_binding(
                            context.bindings@,
                            (#[trigger] context.bindings@[x]).0@,
                            context.bindings@[x].1,
                            options,
                        ) && names_binding(context.bindings@[x].1, undefined_in(*active)),
                        nest ==> forall|t: Seq<char>| #[trigger] defined@.contains_key(Some(t)) ==> (first_binding_of(context.bindings@, t) matches Some(
                            bb,
                        ) ==> binding_fits(bb, depth + 1)),
                    decreases context.bindings@.len() - j,
                {
                    let key = TermKey::Key(context.bindings[j].0.clone());
                    let ghost d_before = defined@;
                    let ghost c_before = result;
                    proof {
                        assert(key_view(key) == Some(context.bindings@[j as int].0@));
                        if plain {
                            assert(plain_entry(*active, context.bindings@, context.bindings@[j as int].0@, options));
                            lemma_plain_step(*active, c_init, result, defined@, context.bindings@, context.bindings@[j as int].0@, options, opts, depth);
                        }
                        if nest {
                            let kk = context.bindings@[j as int].0@;
                            let bj = context.bindings@[j as int].1;
                            assert(shape_binding(context.bindings@, kk, bj, options));
                            assert(names_binding(bj, undefined_in(*active)));
                            let sid = id_entry(bj)->0->0;
                            assert(undefined_in(*active)(sid));
                            assert(undefined_in(*active)(iri_prefix(sid)));
                            lemma_free_id_expansion(*active, sid, options.vocab);
                            assert(entry_id_ok(*active, context.bindings@, kk, bj, options));
                            lemma_plain_step(*active, c_init, result, defined@, context.bindings@, kk, options, opts, depth);
                            if scoped_binding(bj) {
                                let inner = scoped_context_of(bj)->0;
                                if let Nullable::Value(TermDefinitionSyntax::Expanded(e)) = bj {
                                    assert(inner == *e.context.unwrap());
                                }
                                assert forall|x: Seq<char>| undefined_in(*active)(x) && unbound_in(context.bindings@)(x) implies #[trigger] undefined_in(
                                    result,
                                )(x) by {
                                    assert(result.lookup(x) is None <==> active.lookup(x) is None);
                                }
                                lemma_names_all(inner, undefined_in(*active), unbound_in(context.bindings@), undefined_in(result));
                                assert(nested_local(result, inner, override_of(options)));
                            }
                        }
                    }
                    let rd = define(&mut result, context, &key, &mut defined, remote, base_url, protected, opts, depth + 1, warnings);
                    proof {
                        if plain {
                            assert(depth + 1 < MAX_SYNC_DEPTH);
                            assert(rd is Ok);
                        }
                        if nest {
                            let kk = context.bindings@[j as int].0@;
                            let bj = context.bindings@[j as int].1;
                            if d_before.contains_key(Some(kk)) {
                                assert(rd is Ok);
                                assert(binding_fits(bj, depth + 1));
                            } else if depth + 3 < MAX_SYNC_DEPTH {
                                if scoped_binding(bj) {
                                    assert(scoped_context_of(bj) is Some);
                                } else {
                                    assert(rd is Ok);
                                }
                                assert(rd is Ok <==> binding_fits(bj, depth + 1));
                            } else {
                                assert(rd == Err::<(), Error>(Error::ContextOverflow));
                            }
                            if rd is Err {
                                assert(rd == Err::<(), Error>(Error::ContextOverflow));
                                assert(!binding_fits(bj, depth + 1));
                                lemma_bindings_fit(context.bindings@, depth + 1);
                                assert(!fits_local(*local, depth as int));
                            }
                        }
                    }
                    rd?;
                    proof {
                        if nest {
                            let kk = context.bindings@[j as int].0@;
                            let bj = context.bindings@[j as int].1;
                            assert(binding_fits(bj, depth + 1));
                            assert forall|t: Seq<char>| #[trigger] defined@.contains_key(Some(t)) implies (first_binding_of(
                                context.bindings@,
                                t,
                            ) matches Some(bb) ==> binding_fits(bb, depth + 1)) by {
                                if !d_before.contains_key(Some(t)) && t != kk {
                                    assert(!d_before.insert(Some(kk), false).contains_key(Some(t)));
                                }
                            }
                        }
                        if plain || nest {
                            let kk = context.bindings@[j as int].0@;
                            if !d_before.contains_key(Some(kk)) {
                                assert forall|t: Seq<char>| first_binding_of(context.bindings@, t) is None implies #[trigger] result.lookup(t)
                                    == c_init.lookup(t) by {
                                    assert(t != kk);
                                    assert(c_before.lookup(t) == c_init.lookup(t));
                                }
                                assert forall|t: Seq<char>| !defined@.contains_key(Some(t)) implies #[trigger] result.lookup(t) == c_init.lookup(t) by {
                                    assert(t != kk);
                                    assert(!d_before.contains_key(Some(t)));
                                    assert(c_before.lookup(t) == c_init.lookup(t));
                                }
                                assert forall|x: Option<Seq<char>>| #[trigger] defined@.get(x) != Some(false) by {
                                    if defined@.get(x) == Some(false) {
                                        assert(d_before.get(x) == Some(false));
                                    }
                                }
                            }
                        }
                        assert(pending_kept(none_started, d_before)) by {
                            assert forall|k: Option<Seq<char>>| #[trigger] none_started.get(k) == Some(false) implies d_before.get(k) == Some(false) by {
                                assert(!none_started.dom().contains(k));
                            }
                        }
                        lemma_new_terms_trans(none_started, d_before, defined@, c_before, result, context.bindings@, opts.vocab);
                        assert(key_view(key) == Some(context.bindings@[j as int].0@));
                        assert forall|i: int| 0 <= i < j + 1 implies #[trigger] defined@.contains_key(Some(context.bindings@[i].0@)) by {
                            if i < j {
                                assert(d_before.contains_key(Some(context.bindings@[i].0@)));
                            }
                        }
                    }
                    j = j + 1;
                }
                proof {
                    assert(!overflowing);
                    if nest {
                        assert forall|x: int| 0 <= x < context.bindings@.len() implies binding_fits(#[trigger] context.bindings@[x].1, depth + 1) by {
                            assert(shape_binding(context.bindings@, context.bindings@[x].0@, context.bindings@[x].1, options));
                            assert(defined@.contains_key(Some(context.bindings@[x].0@)));
                        }
                        lemma_bindings_fit(context.bindings@, depth + 1);
                        assert(fits_local(*local, depth as int));
                    }
                    if i == 0 && *local == LocalContext::One(ContextEntry::Definition(*context)) {
                        assert forall|k: Seq<char>| first_binding_of(context.bindings@, k) is None implies same_definition(
                            #[trigger] result.lookup(k),
                            active.lookup(k),
                        ) by {
                            assert(result.lookup(k) == c_set.lookup(k));
                            assert(c_set.lookup(k) == dup.lookup(k));
                            lemma_same_context_lookup(dup, *active, k);
                        }
                    }
                    assert forall|i: int| 0 <= i < context.bindings@.len() implies term_as_bound(result, context.bindings@, #[trigger] context.bindings@[i].0@, opts.vocab) by {
                        assert(defined@.contains_key(Some(context.bindings@[i].0@)));
                        assert(!none_started.contains_key(Some(context.bindings@[i].0@)));
                    }
                    assert(unbound_kept(pre, result, context.bindings@)) by {
                        assert forall|k: Seq<char>| first_binding_of(context.bindings@, k) is None implies #[trigger] result.lookup(k) == pre.lookup(
                            k,
                        ) by {
                            assert(c_set.lookup(k) == pre.lookup(k));
                        }
                    }
                    assert(entry_step(pre, ContextEntry::Definition(*context), result, remote@.len() > 0, options.vocab));
                }
            },
        }
        proof {
            assert(entry_step(steps[i as int], local.entries()[i as int], result, remote@.len() > 0, options.vocab));
            steps = steps.push(result);
        }
        i = i + 1;
    }
    proof {
        assert(processed_in_turn(*active, local.entries(), steps, remote@.len() > 0, options.vocab));
        assert(steps.last() == result);
        if local.entries() =~= seq![ContextEntry::Null] {
            assert(n == 1);
            assert(i == 1);
        }
    }
    Ok(result)
}

/// Whether processing the local context `c` would have to load a
/// document: it names a remote context, has an `@import`, or holds a term
/// definition whose scoped context does.
pub open spec fn context_needs_loader(c: LocalContext) -> bool
    decreases c,
{
    match c {
        LocalContext::One(e) => entry_needs_loader(e),
        LocalContext::Many(v) => entries_need_loader(v@),
    }
}

/// Whether processing one of the entries `s` would have to load a
/// document.
pub open spec fn entries_need_loader(s: Seq<ContextEntry>) -> bool
    decreases s,
{
    if s.len() == 0 {
        false
    } else {
        proof {
            assert(decreases_to!(s => s.drop_last()));
        }
        entries_need_loader(s.drop_last()) || entry_needs_loader(s.last())
    }
}

/// Whether processing the context entry `e` would have to load a document.
pub open spec fn entry_needs_loader(e: ContextEntry) -> bool
    decreases e,
{
    match e {
        ContextEntry::Null => false,
        ContextEntry::IriRef(_) => true,
        ContextEntry::Definition(d) => d.import is Some || bindings_need_loader(d.bindings@),
    }
}

/// Whether one of the bindings `s` has a scoped context that would have to
/// load a document.
pub open spec fn bindings_need_loader(s: Seq<(String, Nullable<TermDefinitionSyntax>)>) -> bool
    decreases s,
{
    if s.len() == 0 {
        false
    } else {
        proof {
            assert(decreases_to!(s => s.drop_last()));
        }
        bindings_need_loader(s.drop_last()) || binding_needs_loader(s.last().1)
    }
}

/// Whether a term definition's scoped context would have to load a
/// document.
pub open spec fn binding_needs_loader(b: Nullable<TermDefinitionSyntax>) -> bool
    decreases b,
{
    match b {
        Nullable::Value(TermDefinitionSyntax::Expanded(x)) => match x.context {
            Some(c) => context_needs_loader(*c),
            None => false,
        },
        _ => false,
    }
}

/// Whether processing the local context `c` would have to load a
/// document; when it would not, [`process_context`] needs no loader.
pub fn requires_loader(c: &LocalContext) -> (b: bool)
    ensures
        b == context_needs_loader(*c),
    decreases c, 1nat,
{
    match c {
        LocalContext::One(e) => entry_requires_loader(e),
        LocalContext::Many(v) => {
            let mut i: usize = 0;
            while i < v.len()
                invariant
                    i <= v@.len(),
                    *c == LocalContext::Many(*v),
                    entries_need_loader(v@.take(i as int)) == false,
                decreases v@.len() - i,
            {
                proof {
                    assert(decreases_to!(c => c->Many_0));
                    assert(decreases_to!(c->Many_0 => c->Many_0@));
                    assert(decreases_to!(c->Many_0@ => c->Many_0@[i as int]));
                }
                proof {
                    assert(v@.take(i + 1).drop_last() =~= v@.take(i as int));
                }
                if entry_requires_loader(&v[i]) {
                    proof {
                        lemma_entries_need_prefix(v@, i + 1);
                    }
                    return true;
                }
                i = i + 1;
            }
            proof {
                assert(v@.take(i as int) =~= v@);
            }
            false
        },
    }
}

/// Whether processing the context entry `e` would have to load a document.
fn entry_requires_loader(e: &ContextEntry) -> (b: bool)
    ensures
        b == entry_needs_loader(*e),
    decreases e, 0nat,
{
    match e {
        ContextEntry::Null => false,
        ContextEntry::IriRef(_) => true,
        ContextEntry::Definition(d) => {
            if d.import.is_some() {
                return true;
            }
            let mut i: usize = 0;
            while i < d.bindings.len()
                invariant
                    i <= d.bindings@.len(),
                    *e == ContextEntry::Definition(*d),
                    d.import is None,
                    bindings_need_loader(d.bindings@.take(i as int)) == false,
                decreases d.bindings@.len() - i,
            {
                proof {
                    assert(d.bindings@.take(i + 1).drop_last() =~= d.bindings@.take(i as int));
                }
                match &d.bindings[i].1 {
                    Nullable::Value(TermDefinitionSyntax::Expanded(x)) => {
                        let x: &ExpandedDefinition = &**x;
                        match &x.context {
                            Some(nested) => {
                                proof {
                                    assert(decreases_to!(e => e->Definition_0));
                                    assert(decreases_to!(e->Definition_0 => e->Definition_0.bindings));
                                    assert(decreases_to!(e->Definition_0.bindings => e->Definition_0.bindings@));
                                    assert(decreases_to!(e->Definition_0.bindings@ => e->Definition_0.bindings@[i as int]));
                                    assert(decreases_to!(e->Definition_0.bindings@[i as int] => e->Definition_0.bindings@[i as int].1));
                                }
                                if requires_loader(&**nested) {
                                    proof {
                                        assert(binding_needs_loader(d.bindings@[i as int].1));
                                        lemma_bindings_need_prefix(d.bindings@, i + 1);
                                    }
                                    return true;
                                }
                            },
                            None => {},
                        }
                    },
                    _ => {},
                }
                proof {
                    assert(!binding_needs_loader(d.bindings@[i as int].1));
                    assert(d.bindings@.take(i + 1).last() == d.bindings@[i as int]);
                }
                i = i + 1;
            }
            proof {
                assert(d.bindings@.take(i as int) =~= d.bindings@);
            }
            false
        },
    }
}

proof fn lemma_entry_needs(c: LocalContext, i: int)
    requires
        0 <= i < c.entries().len(),
        entry_needs_loader(c.entries()[i]),
    ensures
        context_needs_loader(c),
{
    match c {
        LocalContext::One(e) => {},
        LocalContext::Many(v) => {
            let s = v@;
            assert(s.take(i + 1).last() == s[i]);
            assert(s.take(i + 1).drop_last() =~= s.take(i));
            lemma_entries_need_prefix(s, i + 1);
        },
    }
}

proof fn lemma_entries_need_prefix(s: Seq<ContextEntry>, i: int)
    requires
        0 <= i <= s.len(),
        entries_need_loader(s.take(i)),
    ensures
        entries_need_loader(s),
    decreases s.len() - i,
{
    if i < s.len() {
        assert(s.take(i + 1).drop_last() =~= s.take(i));
        lemma_entries_need_prefix(s, i + 1);
    } else {
        assert(s.take(i) =~= s);
    }
}

proof fn lemma_bindings_need_prefix(s: Seq<(String, Nullable<TermDefinitionSyntax>)>, i: int)
    requires
        0 <= i <= s.len(),
        bindings_need_loader(s.take(i)),
    ensures
        bindings_need_loader(s),
    decreases s.len() - i,
{
    if i < s.len() {
        assert(s.take(i + 1).drop_last() =~= s.take(i));
        lemma_bindings_need_prefix(s, i + 1);
    } else {
        assert(s.take(i) =~= s);
    }
}

} // verus!
