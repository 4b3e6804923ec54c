//! Compaction of value objects: the options and errors of compaction, the
//! aliases of keywords, and the value compaction algorithm.
use vstd::prelude::*;
use vstd::relations::sorted_by;
use crate::compact::{compact_iri, compact_iri_spec, has_mapping, keyless_containers, keyless_selection, maps_to, IriConfusedWithPrefix};
use crate::container::{Container, ContainerKind, Nullable};
use crate::context::{same_context, alias_index, keyword_alias_index, opt_view, type_key, Context, NormalTermDefinition, TermDefinitionRef};
use crate::expand::Action;
use crate::id::{Id, Term, TermBuf, ValidId};
use crate::inverse::{type_view, select_spec, defaults_of, entry_matches, key_maps, lemma_select_complete, lemma_select_sound, term_view, type_selection_slot, SelectionView, SlotView, TypeSelection};
use crate::json::{clone_json, entries_view, items_view, json_view, lemma_entries_view_index, lemma_entries_view_push, lemma_items_view_index, lemma_items_view_push, Json, JsonView};
use crate::local::{ContextEntry, LocalContext};
use crate::order::{chars_less, chars_lt, chars_order, lemma_chars_order_total, lemma_chars_total, lemma_chars_transitive};
use crate::process::{definition_settings, definition_terms, error_code, plain_local, process_context, Error as ProcessingError, Options as ProcessingOptions};
use crate::stack::ProcessingStack;
use crate::syntax::{keyword_text, Direction, ErrorCode, Keyword, ProcessingMode};
use crate::text::chars_of;
use crate::value::{literal_json, LangString, Literal, SyntaxType, Value};
use crate::warning::{Handler, Warning};

verus! {

broadcast use vstd::string::group_string_axioms;

/// Compaction options.
#[derive(Debug, Clone, Copy, PartialEq, Eq, Structural)]
pub struct Options {
    /// JSON-LD processing mode.
    pub processing_mode: ProcessingMode,
    /// Whether IRIs are compacted relative to the base IRI; honoured by
    /// seeding the active context's base IRI.
    pub compact_to_relative: bool,
    /// Whether arrays of one element are replaced by that element.
    pub compact_arrays: bool,
    /// Whether properties are processed in lexical order.
    pub ordered: bool,
}

impl Options {
    /// The default options: JSON-LD 1.1, relative IRIs, compacted arrays,
    /// no ordering.
    pub fn default_options() -> (o: Options)
        ensures
            o == (Options {
                processing_mode: ProcessingMode::JsonLd1_1,
                compact_to_relative: true,
                compact_arrays: true,
                ordered: false,
            }),
    {
        Options { processing_mode: ProcessingMode::JsonLd1_1, compact_to_relative: true, compact_arrays: true, ordered: false }
    }

    /// The context processing options these options imply: the same
    /// processing mode, everything else by default.
    pub fn processing_options(&self) -> (o: ProcessingOptions)
        ensures
            o == (ProcessingOptions {
                processing_mode: self.processing_mode,
                override_protected: false,
                propagate: true,
                vocab: Action::Keep,
            }),
    {
        ProcessingOptions { processing_mode: self.processing_mode, override_protected: false, propagate: true, vocab: Action::Keep }
    }
}

/// Error raised while compacting.
#[derive(Debug, Clone, Copy, PartialEq, Eq, Structural)]
pub enum Error {
    /// An IRI would be read back as a compact IRI.
    IriConfusedWithPrefix,
    /// Invalid `@nest` value.
    InvalidNestValue,
    /// Two terms compacted to the same key with incompatible shapes.
    CollidingEntry,
    /// Processing a scoped context failed.
    ContextProcessing(ProcessingError),
}

impl Error {
    /// The JSON-LD error code of this error: a colliding entry is reported
    /// as conflicting indexes, and a context processing failure by its own
    /// code.
    pub fn code(&self) -> (c: ErrorCode)
        ensures
            c == match *self {
                Error::IriConfusedWithPrefix => ErrorCode::IriConfusedWithPrefix,
                Error::InvalidNestValue => ErrorCode::InvalidNestValue,
                Error::CollidingEntry => ErrorCode::ConflictingIndexes,
                Error::ContextProcessing(e) => error_code(e),
            },
    {
        match self {
            Error::IriConfusedWithPrefix => ErrorCode::IriConfusedWithPrefix,
            Error::InvalidNestValue => ErrorCode::InvalidNestValue,
            Error::CollidingEntry => ErrorCode::ConflictingIndexes,
            Error::ContextProcessing(e) => e.code(),
        }
    }
}

/// What keyword `k` is written as under `ctx`: the term it compacts to, or
/// the keyword itself. Only the keywords that compaction emits are looked up.
pub open spec fn keyword_alias_spec(ctx: Context, mode: ProcessingMode, k: Keyword) -> Seq<char> {
    match alias_index(k) {
        Some(_) => match compact_iri_spec(ctx, Term::Keyword(k), true, false, mode) {
            Ok(Some(t)) => t,
            _ => keyword_text(k),
        },
        None => keyword_text(k),
    }
}

/// Returns the key that keyword `k` compacts to under `ctx`: an alias the
/// context defines for it, or the keyword itself.
pub fn keyword_alias(ctx: &Context, mode: ProcessingMode, k: Keyword) -> (s: String)
    ensures
        s@ == keyword_alias_spec(*ctx, mode, k),
{
    match keyword_alias_index(k) {
        Some(_) => match compact_iri(ctx, &Term::Keyword(k), true, false, mode) {
            Ok(Some(t)) => t,
            _ => k.into_str().to_owned(),
        },
        None => k.into_str().to_owned(),
    }
}

/// The normal definition of the active property, if it has one; `@type`
/// has none.
pub open spec fn property_def(ctx: Context, prop: Option<Seq<char>>) -> Option<NormalTermDefinition> {
    match prop {
        Some(p) => if p == type_key() { None } else { ctx.lookup(p) },
        None => None,
    }
}

/// The language that a string under the active property is taken to have:
/// the property's language mapping, or the default language.
pub open spec fn property_language(ctx: Context, prop: Option<Seq<char>>) -> Option<Seq<char>> {
    match property_def(ctx, prop) {
        Some(d) => match d.language {
            Some(Nullable::Null) => None,
            Some(Nullable::Value(l)) => Some(l@),
            None => opt_view(ctx.language()),
        },
        None => opt_view(ctx.language()),
    }
}

/// The base direction that a string under the active property is taken to
/// have: the property's direction mapping, or the default direction.
pub open spec fn property_direction(ctx: Context, prop: Option<Seq<char>>) -> Option<Direction> {
    match property_def(ctx, prop) {
        Some(d) => match d.direction {
            Some(Nullable::Null) => None,
            Some(Nullable::Value(x)) => Some(x),
            None => ctx.direction(),
        },
        None => ctx.direction(),
    }
}

/// The type mapping of the active property.
pub open spec fn property_type(ctx: Context, prop: Option<Seq<char>>) -> Option<SyntaxType<String>> {
    match property_def(ctx, prop) {
        Some(d) => d.typ,
        None => None,
    }
}

/// Whether the `@index` of the value is left out: there is none, or the
/// active property's container includes `@index`, so that the index is the
/// key of the enclosing map.
pub open spec fn index_dropped(ctx: Context, prop: Option<Seq<char>>, index: Option<Seq<char>>) -> bool {
    index is None || (property_def(ctx, prop) matches Some(d) && d.container.has(ContainerKind::Index))
}

/// Whether the datatype of a literal is the type mapping of the active
/// property (both absent counts).
pub open spec fn type_matches(ty: Option<String>, mapping: Option<SyntaxType<String>>) -> bool {
    match (ty, mapping) {
        (None, None) => true,
        (Some(t), Some(SyntaxType::Iri(m))) => t@ == m@,
        _ => false,
    }
}

/// `entries`, followed by the `@index` entry when the index is kept.
pub open spec fn with_index(
    ctx: Context,
    mode: ProcessingMode,
    entries: Seq<(Seq<char>, JsonView)>,
    index: Option<Seq<char>>,
    dropped: bool,
) -> Seq<(Seq<char>, JsonView)> {
    match index {
        Some(i) => if dropped { entries } else { entries.push((keyword_alias_spec(ctx, mode, Keyword::Index), JsonView::String(i))) },
        None => entries,
    }
}

/// The entries of a compacted language-tagged string: its value, then its
/// language and its direction when it has them.
pub open spec fn lang_string_entries(ctx: Context, mode: ProcessingMode, s: LangString) -> Seq<(Seq<char>, JsonView)> {
    let v = seq![(keyword_alias_spec(ctx, mode, Keyword::Value), JsonView::String(s.data_spec()))];
    let l = match s.language_spec() {
        Some(l) => v.push((keyword_alias_spec(ctx, mode, Keyword::Language), JsonView::String(l))),
        None => v,
    };
    match s.direction_spec() {
        Some(d) => l.push((keyword_alias_spec(ctx, mode, Keyword::Direction), JsonView::String(direction_text(d)))),
        None => l,
    }
}

/// The text of a base direction.
pub open spec fn direction_text(d: Direction) -> Seq<char> {
    match d {
        Direction::Ltr => seq!['l', 't', 'r'],
        Direction::Rtl => seq!['r', 't', 'l'],
    }
}

/// What the value compaction algorithm makes of `v`, reached through
/// `index`, under the active property `prop` of `ctx`; `Err` when the
/// datatype IRI would be confused with a compact IRI.
pub open spec fn compact_value_spec(
    ctx: Context,
    mode: ProcessingMode,
    v: Value<String>,
    index: Option<Seq<char>>,
    prop: Option<Seq<char>>,
) -> Result<JsonView, ()> {
    let language = property_language(ctx, prop);
    let direction = property_direction(ctx, prop);
    let mapping = property_type(ctx, prop);
    let dropped = index_dropped(ctx, prop, index);
    let value_key = keyword_alias_spec(ctx, mode, Keyword::Value);
    match v {
        Value::Literal(lit, ty) => {
            if type_matches(ty, mapping) && dropped {
                match lit {
                    Literal::String(s) => if ty is Some || (language is None && direction is None) {
                        Ok(JsonView::String(s@))
                    } else {
                        Ok(JsonView::Object(seq![(value_key, JsonView::String(s@))]))
                    },
                    _ => Ok(literal_json(lit)),
                }
            } else {
                let base = seq![(value_key, literal_json(lit))];
                match ty {
                    None => Ok(JsonView::Object(with_index(ctx, mode, base, index, dropped))),
                    Some(t) => match compact_iri_spec(ctx, Term::Id(Id::Valid(ValidId::Iri(t))), true, false, mode) {
                        Err(_) => Err(()),
                        Ok(c) => {
                            let typed = base.push((
                                keyword_alias_spec(ctx, mode, Keyword::Type),
                                match c {
                                    Some(x) => JsonView::String(x),
                                    None => JsonView::Null,
                                },
                            ));
                            Ok(JsonView::Object(with_index(ctx, mode, typed, index, dropped)))
                        },
                    },
                }
            }
        },
        Value::LangString(s) => {
            if dropped && (s.language_spec() is None || language == s.language_spec()) && (s.direction_spec() is None
                || direction == s.direction_spec()) {
                Ok(JsonView::String(s.data_spec()))
            } else {
                Ok(JsonView::Object(with_index(ctx, mode, lang_string_entries(ctx, mode, s), index, dropped)))
            }
        },
        Value::Json(j) => {
            if mapping == Some(SyntaxType::<String>::Json) && dropped {
                Ok(j@)
            } else {
                let entries = seq![
                    (value_key, j@),
                    (keyword_alias_spec(ctx, mode, Keyword::Type), JsonView::String(keyword_alias_spec(ctx, mode, Keyword::Json))),
                ];
                Ok(JsonView::Object(with_index(ctx, mode, entries, index, dropped)))
            }
        },
    }
}

/// A language-tagged string never compacts to a bare string when its base
/// direction is not the one the active property (or the context's default)
/// gives, nor when its language is not the one they give: the compacted
/// value is an object that keeps the `@direction` (and `@language`) entry
/// under the keyword's alias.
pub proof fn lemma_lang_string_keeps_what_differs(
    ctx: Context,
    mode: ProcessingMode,
    s: LangString,
    index: Option<Seq<char>>,
    prop: Option<Seq<char>>,
    d: Direction,
    l: Seq<char>,
)
    ensures
        s.direction_spec() == Some(d) && property_direction(ctx, prop) != Some(d) ==> (compact_value_spec(
            ctx,
            mode,
            Value::LangString(s),
            index,
            prop,
        ) matches Ok(JsonView::Object(entries)) && entries.contains(
            (keyword_alias_spec(ctx, mode, Keyword::Direction), JsonView::String(direction_text(d))),
        )),
        s.language_spec() == Some(l) && property_language(ctx, prop) != Some(l) ==> (compact_value_spec(
            ctx,
            mode,
            Value::LangString(s),
            index,
            prop,
        ) matches Ok(JsonView::Object(entries)) && entries.contains(
            (keyword_alias_spec(ctx, mode, Keyword::Language), JsonView::String(l)),
        )),
        compact_value_spec(ctx, mode, Value::LangString(s), index, prop) matches Ok(JsonView::String(t)) ==> t == s.data_spec() && (
        s.language_spec() is None || s.language_spec() == property_language(ctx, prop)) && (s.direction_spec() is None
            || s.direction_spec() == property_direction(ctx, prop)),
{
    let e = lang_string_entries(ctx, mode, s);
    let v = seq![(keyword_alias_spec(ctx, mode, Keyword::Value), JsonView::String(s.data_spec()))];
    let lv = match s.language_spec() {
        Some(x) => v.push((keyword_alias_spec(ctx, mode, Keyword::Language), JsonView::String(x))),
        None => v,
    };
    if let Some(lg) = s.language_spec() {
        assert(lv[1] == (keyword_alias_spec(ctx, mode, Keyword::Language), JsonView::String(lg)));
        assert(e[1] == lv[1]);
        assert(with_index(ctx, mode, e, index, index_dropped(ctx, prop, index))[1] == e[1]);
    }
    if let Some(dd) = s.direction_spec() {
        assert(e[e.len() - 1] == (keyword_alias_spec(ctx, mode, Keyword::Direction), JsonView::String(direction_text(dd))));
        assert(with_index(ctx, mode, e, index, index_dropped(ctx, prop, index))[e.len() - 1] == e[e.len() - 1]);
    }
}

/// A string literal compacts to a bare string only when reading that string
/// back under the active property gives the same value: it is the string
/// itself, its datatype is the property's type mapping, and, without a
/// datatype, no language or base direction would be attached to it.
pub proof fn lemma_bare_string_reads_back(
    ctx: Context,
    mode: ProcessingMode,
    x: String,
    ty: Option<String>,
    index: Option<Seq<char>>,
    prop: Option<Seq<char>>,
    t: Seq<char>,
)
    ensures
        compact_value_spec(ctx, mode, Value::Literal(Literal::String(x), ty), index, prop) == Ok::<JsonView, ()>(JsonView::String(t))
            ==> t == x@ && index_dropped(ctx, prop, index) && (ty matches Some(u) ==> property_type(ctx, prop) is Some && type_view(
            property_type(ctx, prop).unwrap(),
        ) == SyntaxType::<Seq<char>>::Iri(u@)) && (ty is None ==> property_type(ctx, prop) is None && property_language(ctx, prop) is None && property_direction(ctx, prop)
            is None),
{
    if compact_value_spec(ctx, mode, Value::Literal(Literal::String(x), ty), index, prop) == Ok::<JsonView, ()>(JsonView::String(t)) {
        if !(type_matches(ty, property_type(ctx, prop)) && index_dropped(ctx, prop, index)) {
            assert(literal_json(Literal::String(x)) == JsonView::String(x@));
        }
    }
}

/// The view of an optional string slice.
pub open spec fn opt_str_view(o: Option<&str>) -> Option<Seq<char>> {
    match o {
        Some(s) => Some(s@),
        None => None,
    }
}

/// The view of an optional string reference.
pub open spec fn opt_string_view(o: Option<&String>) -> Option<Seq<char>> {
    match o {
        Some(s) => Some(s@),
        None => None,
    }
}

/// The normal definition of the active property, if it has one.
fn property_definition<'a>(ctx: &'a Context, prop: Option<&str>) -> (r: Option<&'a NormalTermDefinition>)
    ensures
        match property_def(*ctx, opt_str_view(prop)) {
            Some(d) => r == Some(&d),
            None => r is None,
        },
{
    match prop {
        Some(p) => {
            let cs = chars_of(p);
            match ctx.get(cs.as_slice()) {
                Some(TermDefinitionRef::Normal(d)) => Some(d),
                _ => None,
            }
        },
        None => None,
    }
}

/// The text of a base direction.
fn direction_str(d: Direction) -> (s: &'static str)
    ensures
        s@ == direction_text(d),
{
    match d {
        Direction::Ltr => {
            proof { reveal_strlit("ltr"); }
            "ltr"
        },
        Direction::Rtl => {
            proof { reveal_strlit("rtl"); }
            "rtl"
        },
    }
}

/// Whether two optional strings are equal.
fn opt_string_eq(a: Option<&String>, b: Option<&String>) -> (r: bool)
    ensures
        r == (opt_string_view(a) == opt_string_view(b)),
{
    match (a, b) {
        (Some(x), Some(y)) => *x == *y,
        (None, None) => true,
        _ => false,
    }
}

/// The JSON value of a literal.
fn literal_to_json(l: &Literal) -> (j: Json)
    ensures
        j@ == literal_json(*l),
{
    match l {
        Literal::Null => Json::Null,
        Literal::Boolean(b) => Json::Boolean(*b),
        Literal::Number(n) => Json::Number(n.clone()),
        Literal::String(s) => Json::String(s.clone()),
    }
}

/// Appends an entry to the entries of an object.
fn push_entry(out: &mut Vec<(String, Json)>, key: String, value: Json)
    ensures
        crate::json::entries_view(final(out)@) == crate::json::entries_view(old(out)@).push((key@, value@)),
{
    proof {
        lemma_entries_view_push(out@, (key, value));
    }
    out.push((key, value));
}

/// Appends the `@index` entry when the index is kept.
fn push_index(ctx: &Context, mode: ProcessingMode, out: &mut Vec<(String, Json)>, index: Option<&str>, dropped: bool)
    ensures
        crate::json::entries_view(final(out)@) == with_index(*ctx, mode, crate::json::entries_view(old(out)@), opt_str_view(index), dropped),
{
    if !dropped {
        if let Some(i) = index {
            let key = keyword_alias(ctx, mode, Keyword::Index);
            push_entry(out, key, Json::String(i.to_owned()));
        }
    }
}

/// Runs the value compaction algorithm on `value`, reached through `index`,
/// under the active property `active_property` of `ctx`.
///
/// The value is written as a bare JSON scalar whenever the property's type,
/// language and direction mappings already say everything it spells out;
/// otherwise it becomes an object with `@value` and whichever of `@type`,
/// `@language`, `@direction` and `@index` still carry information. The
/// index is left out when the property's container includes `@index`.
pub fn compact_value(
    ctx: &Context,
    mode: ProcessingMode,
    value: &Value<String>,
    index: Option<&str>,
    active_property: Option<&str>,
) -> (r: Result<Json, Error>)
    ensures
        match (r, compact_value_spec(*ctx, mode, *value, opt_str_view(index), opt_str_view(active_property))) {
            (Ok(j), Ok(v)) => j@ == v,
            (Err(e), Err(_)) => e == Error::IriConfusedWithPrefix,
            _ => false,
        },
{
    let def = property_definition(ctx, active_property);
    let language: Option<&String> = match def {
        Some(d) => match &d.language {
            Some(Nullable::Null) => None,
            Some(Nullable::Value(l)) => Some(l),
            None => ctx.default_language(),
        },
        None => ctx.default_language(),
    };
    let direction: Option<Direction> = match def {
        Some(d) => match d.direction {
            Some(Nullable::Null) => None,
            Some(Nullable::Value(x)) => Some(x),
            None => ctx.default_base_direction(),
        },
        None => ctx.default_base_direction(),
    };
    let mapping: Option<&SyntaxType<String>> = match def {
        Some(d) => d.typ.as_ref(),
        None => None,
    };
    let dropped = index.is_none() || match def {
        Some(d) => d.container.contains(ContainerKind::Index),
        None => false,
    };
    proof {
        assert(opt_string_view(language) == property_language(*ctx, opt_str_view(active_property)));
        assert(direction == property_direction(*ctx, opt_str_view(active_property)));
        assert(dropped == index_dropped(*ctx, opt_str_view(active_property), opt_str_view(index)));
    }
    let mut out: Vec<(String, Json)> = Vec::new();
    proof {
        assert(crate::json::entries_view(out@) =~= Seq::<(Seq<char>, JsonView)>::empty());
    }
    match value {
        Value::Literal(lit, ty) => {
            let matches = match (ty, mapping) {
                (None, None) => true,
                (Some(t), Some(SyntaxType::Iri(m))) => *t == *m,
                _ => false,
            };
            proof {
                assert(matches == type_matches(*ty, property_type(*ctx, opt_str_view(active_property))));
            }
            if matches && dropped {
                match lit {
                    Literal::String(s) => {
                        if ty.is_some() || (language.is_none() && direction.is_none()) {
                            return Ok(Json::String(s.clone()));
                        }
                        let key = keyword_alias(ctx, mode, Keyword::Value);
                        push_entry(&mut out, key, Json::String(s.clone()));
                        return Ok(Json::Object(out));
                    },
                    _ => {
                        return Ok(literal_to_json(lit));
                    },
                }
            }
            let key = keyword_alias(ctx, mode, Keyword::Value);
            push_entry(&mut out, key, literal_to_json(lit));
            proof {
                assert(crate::json::entries_view(out@) =~= seq![(keyword_alias_spec(*ctx, mode, Keyword::Value), literal_json(*lit))]);
            }
            if let Some(t) = ty {
                let c = compact_iri(ctx, &Term::Id(Id::Valid(ValidId::Iri(t.clone()))), true, false, mode);
                let c = match c {
                    Ok(c) => c,
                    Err(_) => return Err(Error::IriConfusedWithPrefix),
                };
                let type_key = keyword_alias(ctx, mode, Keyword::Type);
                let compacted = match c {
                    Some(x) => Json::String(x),
                    None => Json::Null,
                };
                push_entry(&mut out, type_key, compacted);
            }
            push_index(ctx, mode, &mut out, index, dropped);
            Ok(Json::Object(out))
        },
        Value::LangString(ls) => {
            let ls_language = ls.language();
            let ls_direction = ls.direction();
            if dropped && (ls_language.is_none() || opt_string_eq(language, ls_language)) && (ls_direction.is_none()
                || direction == ls_direction) {
                return Ok(Json::String(ls.as_str().to_owned()));
            }
            let key = keyword_alias(ctx, mode, Keyword::Value);
            push_entry(&mut out, key, Json::String(ls.as_str().to_owned()));
            if let Some(l) = ls_language {
                let lang_key = keyword_alias(ctx, mode, Keyword::Language);
                push_entry(&mut out, lang_key, Json::String(l.clone()));
            }
            if let Some(d) = ls_direction {
                let dir_key = keyword_alias(ctx, mode, Keyword::Direction);
                push_entry(&mut out, dir_key, Json::String(direction_str(d).to_owned()));
            }
            proof {
                assert(crate::json::entries_view(out@) =~= lang_string_entries(*ctx, mode, *ls));
            }
            push_index(ctx, mode, &mut out, index, dropped);
            Ok(Json::Object(out))
        },
        Value::Json(j) => {
            let is_json = match mapping {
                Some(SyntaxType::Json) => true,
                _ => false,
            };
            if is_json && dropped {
                return Ok(clone_json(j));
            }
            let key = keyword_alias(ctx, mode, Keyword::Value);
            push_entry(&mut out, key, clone_json(j));
            let type_key = keyword_alias(ctx, mode, Keyword::Type);
            let json_alias = keyword_alias(ctx, mode, Keyword::Json);
            push_entry(&mut out, type_key, Json::String(json_alias));
            proof {
                assert(crate::json::entries_view(out@) =~= seq![
                    (keyword_alias_spec(*ctx, mode, Keyword::Value), j@),
                    (keyword_alias_spec(*ctx, mode, Keyword::Type), JsonView::String(keyword_alias_spec(*ctx, mode, Keyword::Json))),
                ]);
            }
            push_index(ctx, mode, &mut out, index, dropped);
            Ok(Json::Object(out))
        },
    }
}

/// Whether the active property has a scoped context.
pub open spec fn has_scoped_context(ctx: Context, prop: Option<Seq<char>>) -> bool {
    property_def(ctx, prop) matches Some(d) && d.context is Some
}

/// The options under which a scoped context is processed during
/// compaction: those of `options`, with protected terms redefinable.
pub open spec fn scoped_options(options: Options) -> ProcessingOptions {
    ProcessingOptions {
        processing_mode: options.processing_mode,
        override_protected: true,
        propagate: true,
        vocab: Action::Keep,
    }
}

/// The scoped context of the active property `prop` in `ctx`.
pub open spec fn scoped_local(ctx: Context, prop: Option<Seq<char>>) -> LocalContext {
    *property_def(ctx, prop).unwrap().context.unwrap()
}

/// Whether `c` has what processing the local context `local` against
/// `active` under `opts` promises: the processing mode, and for a single
/// context definition its settings and term definitions.
pub open spec fn processed_from(active: Context, local: LocalContext, opts: ProcessingOptions, c: Context) -> bool {
    &&& c.mode() == opts.processing_mode
    &&& local matches LocalContext::One(ContextEntry::Definition(def)) ==> definition_settings(active, def, false, c)
        && definition_terms(def, c, opts.vocab)
}

/// Whether `r` is what value compaction gives under `ctx`.
pub open spec fn compacts_to(r: Result<Json, Error>, ctx: Context, mode: ProcessingMode, v: Value<String>, index: Option<Seq<char>>, prop: Option<Seq<char>>) -> bool {
    match (r, compact_value_spec(ctx, mode, v, index, prop)) {
        (Ok(j), Ok(w)) => j@ == w,
        (Err(e), Err(_)) => e == Error::IriConfusedWithPrefix,
        _ => false,
    }
}

/// Compacts a value object reached through `index` under the active
/// property `active_property` of `active_context`.
///
/// When the active property has a scoped context, it is processed first,
/// with protected terms allowed to be redefined, and the value is compacted
/// under the result; a failure there is a [`Error::ContextProcessing`].
pub fn compact_indexed_value_with<H: Handler<Warning>>(
    value: &Value<String>,
    index: Option<&str>,
    active_context: &Context,
    active_property: Option<&str>,
    options: Options,
    warnings: &mut H,
) -> (r: Result<Json, Error>)
    ensures
        !has_scoped_context(*active_context, opt_str_view(active_property)) ==> compacts_to(
            r,
            *active_context,
            options.processing_mode,
            *value,
            opt_str_view(index),
            opt_str_view(active_property),
        ),
        has_scoped_context(*active_context, opt_str_view(active_property)) && plain_local(
            *active_context,
            scoped_local(*active_context, opt_str_view(active_property)),
            scoped_options(options),
            0,
        ) ==> !(r matches Err(Error::ContextProcessing(_))),
        has_scoped_context(*active_context, opt_str_view(active_property)) ==> (r matches Err(Error::ContextProcessing(_))
            || exists|c: Context| processed_from(
            *active_context,
            scoped_local(*active_context, opt_str_view(active_property)),
            scoped_options(options),
            c,
        ) && compacts_to(
            r,
            c,
            options.processing_mode,
            *value,
            opt_str_view(index),
            opt_str_view(active_property),
        )),
{
    let mode = options.processing_mode;
    if let Some(def) = property_definition(active_context, active_property) {
        if let Some(local) = &def.context {
            let processed = process_context(
                active_context,
                &**local,
                &ProcessingStack::new(),
                &def.base_url,
                options.processing_options().with_override(),
                0,
                warnings,
            );
            return match processed {
                Ok(c) => {
                    let r = compact_value(&c, mode, value, index, active_property);
                    proof {
                        assert(compacts_to(r, c, mode, *value, opt_str_view(index), opt_str_view(active_property)));
                        assert(processed_from(
                            *active_context,
                            scoped_local(*active_context, opt_str_view(active_property)),
                            scoped_options(options),
                            c,
                        ));
                    }
                    r
                },
                Err(e) => Err(Error::ContextProcessing(e)),
            };
        }
    }
    compact_value(active_context, mode, value, index, active_property)
}

/// The non-array values that `v` holds, in order: `v` itself unless it is
/// an array, whose items are flattened in turn.
pub open spec fn leaves(v: JsonView) -> Seq<JsonView>
    decreases v, 1nat,
{
    match v {
        JsonView::Array(items) => leaves_of(items),
        _ => seq![v],
    }
}

/// The leaves of a sequence of values, one after the other.
pub open spec fn leaves_of(s: Seq<JsonView>) -> Seq<JsonView>
    decreases s, 0nat,
{
    if s.len() == 0 {
        Seq::empty()
    } else {
        leaves_of(s.subrange(0, s.len() - 1)) + leaves(s[s.len() - 1])
    }
}

/// Whether no two entries of an object share a key.
pub open spec fn unique_keys(entries: Seq<(Seq<char>, JsonView)>) -> bool {
    forall|i: int, j: int| 0 <= i < entries.len() && 0 <= j < entries.len() && i != j ==> entries[i].0 != entries[j].0
}

/// The position of the entry with `key`, if any.
pub open spec fn entry_position(entries: Seq<(Seq<char>, JsonView)>, key: Seq<char>) -> Option<int> {
    if exists|i: int| 0 <= i < entries.len() && entries[i].0 == key {
        Some(choose|i: int| 0 <= i < entries.len() && entries[i].0 == key)
    } else {
        None
    }
}

/// An existing entry value with more values appended: an array grows, any
/// other value becomes the first item of an array.
pub open spec fn appended(existing: JsonView, more: Seq<JsonView>) -> JsonView {
    match existing {
        JsonView::Array(items) => JsonView::Array(items + more),
        _ => JsonView::Array(seq![existing] + more),
    }
}

/// The entries of an object once `value` is added under `key`: the values
/// it holds are appended to an existing entry; a new entry holds them as an
/// array when `as_array` is set or there are several, the value alone when
/// there is one, and is not created when there is none.
pub open spec fn add_value_spec(entries: Seq<(Seq<char>, JsonView)>, key: Seq<char>, value: JsonView, as_array: bool) -> Seq<(Seq<char>, JsonView)> {
    let l = leaves(value);
    match entry_position(entries, key) {
        Some(i) => entries.update(i, (key, appended(entries[i].1, l))),
        None => if as_array || l.len() > 1 {
            entries.push((key, JsonView::Array(l)))
        } else if l.len() == 1 {
            entries.push((key, l[0]))
        } else {
            entries
        },
    }
}

proof fn lemma_leaves_of_push(s: Seq<JsonView>, x: JsonView)
    ensures
        leaves_of(s.push(x)) == leaves_of(s) + leaves(x),
{
    assert(s.push(x).subrange(0, s.len() as int) =~= s);
}

/// Appends the leaves of `value` to `out`.
fn flatten_into(value: Json, out: &mut Vec<Json>)
    ensures
        items_view(final(out)@) == items_view(old(out)@) + leaves(value@),
    decreases value,
{
    let ghost whole = value;
    match value {
        Json::Array(mut items) => {
            let ghost orig = items@;
            let ghost start = items_view(out@);
            let ghost n = orig.len();
            proof {
                assert(n == items.len());
            }
            let mut i: usize = 0;
            proof {
                assert(orig.subrange(0, 0) =~= Seq::<Json>::empty());
                assert(items_view(orig.subrange(0, 0)) =~= Seq::<JsonView>::empty());
                assert(leaves_of(Seq::<JsonView>::empty()) =~= Seq::<JsonView>::empty());
                assert(start + Seq::<JsonView>::empty() =~= start);
            }
            while items.len() > 0
                invariant
                    whole == value,
                    whole == Json::Array(whole->Array_0),
                    n <= usize::MAX,
                    whole->Array_0@ == orig,
                    n == orig.len(),
                    i <= n,
                    items@ == orig.subrange(i as int, n as int),
                    items_view(out@) == start + leaves_of(items_view(orig.subrange(0, i as int))),
                decreases items.len(),
            {
                let v = items.remove(0);
                proof {
                    assert(v == orig[i as int]);
                    assert(decreases_to!(whole => whole->Array_0));
                    assert(decreases_to!(whole->Array_0 => whole->Array_0@));
                    assert(decreases_to!(orig => orig[i as int]));
                }
                flatten_into(v, out);
                proof {
                    let pre = orig.subrange(0, i as int);
                    assert(orig.subrange(0, i + 1) =~= pre.push(orig[i as int]));
                    lemma_items_view_push(pre, orig[i as int]);
                    lemma_leaves_of_push(items_view(pre), json_view(orig[i as int]));
                    assert(start + leaves_of(items_view(pre)) + leaves(json_view(orig[i as int]))
                        =~= start + (leaves_of(items_view(pre)) + leaves(json_view(orig[i as int]))));
                    assert(items@ =~= orig.subrange(i + 1, n as int));
                }
                i = i + 1;
            }
            proof {
                assert(orig.subrange(0, i as int) =~= orig);
            }
        },
        other => {
            proof {
                lemma_items_view_push(out@, other);
                assert(leaves(json_view(other)) =~= seq![json_view(other)]);
                assert(items_view(out@) + seq![json_view(other)] =~= items_view(out@).push(json_view(other)));
            }
            out.push(other);
        },
    }
}

/// The position of the entry with `key` in `map`, if any.
fn find_entry(map: &Vec<(String, Json)>, key: &String) -> (r: Option<usize>)
    requires
        unique_keys(entries_view(map@)),
    ensures
        match r {
            Some(i) => entry_position(entries_view(map@), key@) == Some(i as int),
            None => entry_position(entries_view(map@), key@) is None,
        },
{
    proof {
        lemma_entries_view_index(map@);
    }
    let mut i: usize = 0;
    while i < map.len()
        invariant
            i <= map.len(),
            entries_view(map@).len() == map@.len(),
            forall|j: int| 0 <= j < map@.len() ==> #[trigger] entries_view(map@)[j] == (map@[j].0@, json_view(map@[j].1)),
            forall|j: int| 0 <= j < i ==> map@[j].0@ != key@,
            unique_keys(entries_view(map@)),
        decreases map.len() - i,
    {
        if map[i].0 == *key {
            proof {
                let e = entries_view(map@);
                assert(e[i as int].0 == key@);
                let c = choose|j: int| 0 <= j < e.len() && e[j].0 == key@;
                assert(c == i as int);
            }
            return Some(i);
        }
        i = i + 1;
    }
    proof {
        let e = entries_view(map@);
        assert forall|j: int| 0 <= j < e.len() implies e[j].0 != key@ by {
            assert(e[j] == (map@[j].0@, json_view(map@[j].1)));
        }
    }
    None
}

/// Adds `value` to the entry `key` of a compacted object, following the
/// "add value" procedure of compaction: an existing entry becomes an array
/// that collects the values, and a new entry is an array when `as_array` is
/// set. Arrays in `value` are flattened.
pub fn add_value(map: &mut Vec<(String, Json)>, key: &str, value: Json, as_array: bool)
    requires
        unique_keys(entries_view(old(map)@)),
    ensures
        entries_view(final(map)@) == add_value_spec(entries_view(old(map)@), key@, value@, as_array),
        unique_keys(entries_view(final(map)@)),
{
    let mut flat: Vec<Json> = Vec::new();
    proof {
        assert(items_view(flat@) =~= Seq::<JsonView>::empty());
    }
    flatten_into(value, &mut flat);
    let ghost l = leaves(value@);
    proof {
        assert(items_view(flat@) =~= l);
        lemma_items_view_index(flat@);
        lemma_entries_view_index(map@);
    }
    let key_s = key.to_owned();
    let ghost before = entries_view(map@);
    match find_entry(map, &key_s) {
        Some(i) => {
            let (k, existing) = map.remove(i);
            let combined = match existing {
                Json::Array(mut items) => {
                    let ghost a = items@;
                    proof {
                        lemma_items_view_index(items@);
                    }
                    let mut j: usize = 0;
                    let ghost m = flat@;
                    proof {
                        assert(m.len() == flat.len());
                        lemma_items_view_index(m);
                    }
                    while flat.len() > 0
                        invariant
                            j <= m.len(),
                            m.len() <= usize::MAX,
                            l.len() == m.len(),
                            flat@ == m.subrange(j as int, m.len() as int),
                            items_view(m) == l,
                            items_view(items@) == items_view(a) + l.subrange(0, j as int),
                        decreases flat.len(),
                    {
                        let x = flat.remove(0);
                        proof {
                            lemma_items_view_push(items@, x);
                            lemma_items_view_index(m);
                            assert(x == m[j as int]);
                            assert(l.subrange(0, j + 1) =~= l.subrange(0, j as int).push(json_view(x)));
                            assert(items_view(a) + l.subrange(0, j as int).push(json_view(x))
                                =~= (items_view(a) + l.subrange(0, j as int)).push(json_view(x)));
                            assert(flat@ =~= m.subrange(j + 1, m.len() as int));
                        }
                        items.push(x);
                        j = j + 1;
                    }
                    proof {
                        lemma_items_view_index(m);
                        assert(l.subrange(0, j as int) =~= l);
                    }
                    Json::Array(items)
                },
                other => {
                    let mut items: Vec<Json> = Vec::new();
                    proof {
                        lemma_items_view_push(items@, other);
                    }
                    items.push(other);
                    let ghost first = items@;
                    proof {
                        assert(items_view(first) =~= seq![json_view(other)]);
                    }
                    let mut j: usize = 0;
                    let ghost m = flat@;
                    proof {
                        assert(m.len() == flat.len());
                        lemma_items_view_index(m);
                    }
                    while flat.len() > 0
                        invariant
                            j <= m.len(),
                            m.len() <= usize::MAX,
                            l.len() == m.len(),
                            flat@ == m.subrange(j as int, m.len() as int),
                            items_view(m) == l,
                            items_view(items@) == seq![json_view(other)] + l.subrange(0, j as int),
                        decreases flat.len(),
                    {
                        let x = flat.remove(0);
                        proof {
                            lemma_items_view_push(items@, x);
                            lemma_items_view_index(m);
                            assert(x == m[j as int]);
                            assert(l.subrange(0, j + 1) =~= l.subrange(0, j as int).push(json_view(x)));
                            assert(seq![json_view(other)] + l.subrange(0, j as int).push(json_view(x))
                                =~= (seq![json_view(other)] + l.subrange(0, j as int)).push(json_view(x)));
                            assert(flat@ =~= m.subrange(j + 1, m.len() as int));
                        }
                        items.push(x);
                        j = j + 1;
                    }
                    proof {
                        assert(l.subrange(0, j as int) =~= l);
                    }
                    Json::Array(items)
                },
            };
            proof {
                assert(json_view(combined) == appended(before[i as int].1, l));
            }
            map.insert(i, (k, combined));
            proof {
                lemma_entries_view_index(map@);
                let after = entries_view(map@);
                assert(after =~= before.update(i as int, (key@, appended(before[i as int].1, l))));
            }
        },
        None => {
            if as_array || flat.len() > 1 {
                push_entry(map, key_s, Json::Array(flat));
            } else if flat.len() == 1 {
                let x = flat.remove(0);
                push_entry(map, key_s, x);
            }
            proof {
                lemma_entries_view_index(map@);
            }
        },
    }
}

/// The leaves held by the entry `key`; none when there is no such entry.
pub open spec fn leaves_at(entries: Seq<(Seq<char>, JsonView)>, key: Seq<char>) -> Seq<JsonView> {
    match entry_position(entries, key) {
        Some(i) => leaves(entries[i].1),
        None => Seq::empty(),
    }
}

/// Whether no value of `s` is an array.
pub open spec fn no_arrays(s: Seq<JsonView>) -> bool {
    forall|i: int| 0 <= i < s.len() ==> !(#[trigger] s[i] is Array)
}

proof fn lemma_leaves_of_concat(a: Seq<JsonView>, b: Seq<JsonView>)
    ensures
        leaves_of(a + b) == leaves_of(a) + leaves_of(b),
    decreases b.len(),
{
    if b.len() == 0 {
        assert(a + b =~= a);
        assert(leaves_of(a) + leaves_of(b) =~= leaves_of(a));
    } else {
        let init = b.subrange(0, b.len() - 1);
        lemma_leaves_of_concat(a, init);
        assert((a + b).subrange(0, (a + b).len() - 1) =~= a + init);
        assert((a + b)[(a + b).len() - 1] == b[b.len() - 1]);
        assert(leaves_of(a) + leaves_of(init) + leaves(b[b.len() - 1])
            =~= leaves_of(a) + (leaves_of(init) + leaves(b[b.len() - 1])));
    }
}

proof fn lemma_leaves_have_no_arrays(v: JsonView)
    ensures
        no_arrays(leaves(v)),
    decreases v, 1nat,
{
    if let JsonView::Array(items) = v {
        lemma_leaves_of_have_no_arrays(items);
    }
}

proof fn lemma_leaves_of_have_no_arrays(s: Seq<JsonView>)
    ensures
        no_arrays(leaves_of(s)),
    decreases s, 0nat,
{
    if s.len() > 0 {
        let init = s.subrange(0, s.len() - 1);
        lemma_leaves_of_have_no_arrays(init);
        lemma_leaves_have_no_arrays(s[s.len() - 1]);
        let a = leaves_of(init);
        let b = leaves(s[s.len() - 1]);
        assert forall|i: int| 0 <= i < (a + b).len() implies !(#[trigger] (a + b)[i] is Array) by {
            if i < a.len() {
                assert((a + b)[i] == a[i]);
            } else {
                assert((a + b)[i] == b[i - a.len()]);
            }
        }
    }
}

proof fn lemma_leaves_of_flat(s: Seq<JsonView>)
    requires
        no_arrays(s),
    ensures
        leaves_of(s) == s,
    decreases s.len(),
{
    if s.len() > 0 {
        let init = s.subrange(0, s.len() - 1);
        lemma_leaves_of_flat(init);
        let last = s[s.len() - 1];
        assert(!(last is Array));
        assert(leaves(last) == seq![last]);
        assert(leaves_of(s) == leaves_of(init) + leaves(last));
        assert(init + seq![last] =~= s);
    } else {
        assert(s =~= Seq::<JsonView>::empty());
    }
}

/// Adding a value to an object collects what the entry held and what the
/// value holds: the leaves of the entry `key` afterwards are those it had,
/// followed by those of `value`; every other entry is unchanged.
pub proof fn lemma_add_value_collects(entries: Seq<(Seq<char>, JsonView)>, key: Seq<char>, value: JsonView, as_array: bool)
    requires
        unique_keys(entries),
    ensures
        leaves_at(add_value_spec(entries, key, value, as_array), key) == leaves_at(entries, key) + leaves(value),
        forall|k: Seq<char>| k != key ==> #[trigger] entry_position(add_value_spec(entries, key, value, as_array), k)
            == entry_position(entries, k),
        forall|i: int| 0 <= i < entries.len() && entries[i].0 != key ==> add_value_spec(entries, key, value, as_array)[i]
            == #[trigger] entries[i],
{
    let l = leaves(value);
    let after = add_value_spec(entries, key, value, as_array);
    lemma_leaves_have_no_arrays(value);
    lemma_leaves_of_flat(l);
    match entry_position(entries, key) {
        Some(i) => {
            assert(after[i].0 == key);
            assert(entry_position(after, key) == Some(i)) by {
                let c = choose|j: int| 0 <= j < after.len() && after[j].0 == key;
                if c != i {
                    assert(entries[c].0 == key);
                }
            }
            match entries[i].1 {
                JsonView::Array(items) => {
                    lemma_leaves_of_concat(items, l);
                },
                x => {
                    lemma_leaves_of_concat(seq![x], l);
                    let e = Seq::<JsonView>::empty();
                    assert(seq![x].subrange(0, 0) =~= e);
                    assert(leaves_of(e) == e);
                    assert(leaves_of(seq![x]) == leaves_of(e) + leaves(x));
                    assert(e + leaves(x) =~= leaves(x));
                },
            }
            assert forall|k: Seq<char>| k != key implies #[trigger] entry_position(after, k) == entry_position(entries, k) by {
                if exists|j: int| 0 <= j < entries.len() && entries[j].0 == k {
                    let c = choose|j: int| 0 <= j < entries.len() && entries[j].0 == k;
                    assert(after[c].0 == k);
                    let d = choose|j: int| 0 <= j < after.len() && after[j].0 == k;
                    assert(entries[d].0 == k);
                } else {
                    assert forall|j: int| 0 <= j < after.len() implies after[j].0 != k by {
                        if j != i {
                            assert(after[j] == entries[j]);
                        }
                    }
                }
            }
        },
        None => {
            assert(leaves_at(entries, key) =~= Seq::<JsonView>::empty());
            if as_array || l.len() > 1 {
                assert(after[entries.len() as int].0 == key);
                assert(leaves(JsonView::Array(l)) == l);
            } else if l.len() == 1 {
                assert(after[entries.len() as int].0 == key);
                assert(!(l[0] is Array));
                assert(leaves(l[0]) =~= l);
            } else {
                assert(l =~= Seq::<JsonView>::empty());
            }
            if as_array || l.len() >= 1 {
                assert(entry_position(after, key) == Some(entries.len() as int)) by {
                    let c = choose|j: int| 0 <= j < after.len() && after[j].0 == key;
                    if c != entries.len() {
                        assert(entries[c].0 == key);
                    }
                }
            }
            assert forall|k: Seq<char>| k != key implies #[trigger] entry_position(after, k) == entry_position(entries, k) by {
                if exists|j: int| 0 <= j < entries.len() && entries[j].0 == k {
                    let c = choose|j: int| 0 <= j < entries.len() && entries[j].0 == k;
                    assert(after[c].0 == k);
                    let d = choose|j: int| 0 <= j < after.len() && after[j].0 == k;
                    assert(entries[d].0 == k);
                } else {
                    assert forall|j: int| 0 <= j < after.len() implies after[j].0 != k by {
                        if j < entries.len() {
                            assert(after[j] == entries[j]);
                        }
                    }
                }
            }
        },
    }
}

/// What a node type compacts to under `ctx`: the compacted IRI, or `null`;
/// `Err` when it would be confused with a compact IRI.
pub open spec fn compacted_type(ctx: Context, t: Id<String, String>, mode: ProcessingMode) -> Result<JsonView, ()> {
    match compact_iri_spec(ctx, Term::Id(t), true, false, mode) {
        Ok(Some(s)) => Ok(JsonView::String(s)),
        Ok(None) => Ok(JsonView::Null),
        Err(_) => Err(()),
    }
}

/// The compacted forms of `ts`, in order; `Err` if one fails.
pub open spec fn compacted_types(ctx: Context, ts: Seq<Id<String, String>>, mode: ProcessingMode) -> Result<Seq<JsonView>, ()>
    decreases ts.len(),
{
    if ts.len() == 0 {
        Ok(Seq::empty())
    } else {
        match (compacted_types(ctx, ts.drop_last(), mode), compacted_type(ctx, ts.last(), mode)) {
            (Ok(init), Ok(v)) => Ok(init.push(v)),
            _ => Err(()),
        }
    }
}

/// Whether the container mapping of `key` in `ctx` includes `@set`; the
/// `@type` definition has it when declared with `@container: @set`.
pub open spec fn key_has_set(ctx: Context, key: Seq<char>) -> bool {
    if key == type_key() {
        ctx.type_def() matches Some(t) && t.container_set
    } else {
        ctx.lookup(key) matches Some(d) && d.container.has(ContainerKind::AtSet)
    }
}

/// The `@type` entry of a compacted node: the compacted types of `ts`
/// (alone when there is one) added under the alias of `@type`, as an array
/// when JSON-LD 1.1 gives that alias the `@set` container or arrays are
/// not compacted.
pub open spec fn compact_types_spec(
    entries: Seq<(Seq<char>, JsonView)>,
    ts: Seq<Id<String, String>>,
    active: Context,
    type_scoped: Context,
    options: Options,
) -> Result<Seq<(Seq<char>, JsonView)>, ()> {
    if ts.len() == 0 {
        Ok(entries)
    } else {
        let mode = options.processing_mode;
        match compacted_types(type_scoped, ts, mode) {
            Err(_) => Err(()),
            Ok(vs) => {
                let value = if ts.len() == 1 { vs[0] } else { JsonView::Array(vs) };
                let alias = keyword_alias_spec(active, mode, Keyword::Type);
                let as_array = (mode == ProcessingMode::JsonLd1_1 && key_has_set(active, alias)) || !options.compact_arrays;
                Ok(add_value_spec(entries, alias, value, as_array))
            },
        }
    }
}

/// A copy of a node identifier.
pub(crate) fn clone_id(id: &Id<String, String>) -> (r: Id<String, String>)
    ensures
        r == *id,
{
    match id {
        Id::Valid(ValidId::Iri(i)) => Id::Valid(ValidId::Iri(i.clone())),
        Id::Valid(ValidId::Blank(b)) => Id::Valid(ValidId::Blank(b.clone())),
        Id::Invalid(s) => Id::Invalid(s.clone()),
    }
}

/// The compacted form of a node type.
fn compact_type(ctx: &Context, t: &Id<String, String>, mode: ProcessingMode) -> (r: Result<Json, Error>)
    ensures
        match (r, compacted_type(*ctx, *t, mode)) {
            (Ok(j), Ok(v)) => j@ == v,
            (Err(e), Err(_)) => e == Error::IriConfusedWithPrefix,
            _ => false,
        },
{
    match compact_iri(ctx, &Term::Id(clone_id(t)), true, false, mode) {
        Ok(Some(s)) => Ok(Json::String(s)),
        Ok(None) => Ok(Json::Null),
        Err(_) => Err(Error::IriConfusedWithPrefix),
    }
}

/// Whether the container mapping of `key` in `ctx` includes `@set`.
fn has_set_container(ctx: &Context, key: &str) -> (b: bool)
    ensures
        b == key_has_set(*ctx, key@),
{
    let cs = chars_of(key);
    match ctx.get(cs.as_slice()) {
        Some(TermDefinitionRef::Type(t)) => t.container_set,
        Some(TermDefinitionRef::Normal(d)) => d.container.contains(ContainerKind::AtSet),
        None => false,
    }
}

/// Adds the `@type` entry of a compacted node to `result`: each of `types`
/// is IRI-compacted under `type_scoped_context`, and the result added under
/// the alias of `@type` in `active_context`. Nothing is added when there are
/// no types.
pub fn compact_types(
    result: &mut Vec<(String, Json)>,
    types: Option<&[Id<String, String>]>,
    active_context: &Context,
    type_scoped_context: &Context,
    options: Options,
) -> (r: Result<(), Error>)
    requires
        unique_keys(entries_view(old(result)@)),
    ensures
        unique_keys(entries_view(final(result)@)),
        match compact_types_spec(
            entries_view(old(result)@),
            match types { Some(ts) => ts@, None => Seq::empty() },
            *active_context,
            *type_scoped_context,
            options,
        ) {
            Ok(e) => r is Ok && entries_view(final(result)@) == e,
            Err(_) => r == Err::<(), Error>(Error::IriConfusedWithPrefix),
        },
{
    let mode = options.processing_mode;
    let ts: &[Id<String, String>] = match types {
        Some(ts) => ts,
        None => {
            proof {
                assert(compact_types_spec(entries_view(result@), Seq::empty(), *active_context, *type_scoped_context, options)
                    == Ok::<Seq<(Seq<char>, JsonView)>, ()>(entries_view(result@)));
            }
            return Ok(());
        },
    };
    if ts.len() == 0 {
        return Ok(());
    }
    let compacted = if ts.len() == 1 {
        match compact_type(type_scoped_context, &ts[0], mode) {
            Ok(j) => j,
            Err(e) => {
                proof {
                    assert(ts@.drop_last() =~= Seq::<Id<String, String>>::empty());
                }
                return Err(e);
            },
        }
    } else {
        let mut items: Vec<Json> = Vec::new();
        let mut i: usize = 0;
        while i < ts.len()
            invariant
                i <= ts@.len(),
                ts@.len() > 1,
                mode == options.processing_mode,
                types == Some(ts),
                result@ == old(result)@,
                unique_keys(entries_view(result@)),
                compacted_types(*type_scoped_context, ts@.subrange(0, i as int), mode) == Ok::<Seq<JsonView>, ()>(items_view(items@)),
            decreases ts.len() - i,
        {
            let c = compact_type(type_scoped_context, &ts[i], mode);
            proof {
                let pre = ts@.subrange(0, i as int);
                assert(ts@.subrange(0, i + 1).drop_last() =~= pre);
                assert(ts@.subrange(0, i + 1).last() == ts@[i as int]);
            }
            match c {
                Ok(j) => {
                    proof {
                        lemma_items_view_push(items@, j);
                    }
                    items.push(j);
                },
                Err(e) => {
                    proof {
                        let next = ts@.subrange(0, i + 1);
                        assert(compacted_type(*type_scoped_context, next.last(), mode) is Err);
                        assert(compacted_types(*type_scoped_context, next, mode) is Err);
                        lemma_compacted_types_prefix_err(*type_scoped_context, ts@, i as int + 1, mode);
                        assert(compact_types_spec(entries_view(result@), ts@, *active_context, *type_scoped_context, options) is Err);
                    }
                    return Err(e);
                },
            }
            i = i + 1;
        }
        proof {
            assert(ts@.subrange(0, i as int) =~= ts@);
        }
        Json::Array(items)
    };
    proof {
        if ts@.len() == 1 {
            assert(ts@.drop_last() =~= Seq::<Id<String, String>>::empty());
        }
    }
    let alias = keyword_alias(active_context, mode, Keyword::Type);
    let as_array = (mode == ProcessingMode::JsonLd1_1 && has_set_container(active_context, alias.as_str())) || !options.compact_arrays;
    add_value(result, alias.as_str(), compacted, as_array);
    Ok(())
}

/// A failure on a prefix of the types is a failure on all of them.
proof fn lemma_compacted_types_prefix_err(ctx: Context, ts: Seq<Id<String, String>>, k: int, mode: ProcessingMode)
    requires
        0 <= k <= ts.len(),
        compacted_types(ctx, ts.subrange(0, k), mode) is Err,
    ensures
        compacted_types(ctx, ts, mode) is Err,
    decreases ts.len() - k,
{
    if k < ts.len() {
        let next = ts.subrange(0, k + 1);
        assert(next.drop_last() =~= ts.subrange(0, k));
        lemma_compacted_types_prefix_err(ctx, ts, k + 1, mode);
    } else {
        assert(ts.subrange(0, k) =~= ts);
    }
}

/// The `@value` entry of a value object.
pub open spec fn value_entry(v: Value<String>) -> JsonView {
    match v {
        Value::Literal(l, _) => literal_json(l),
        Value::LangString(s) => JsonView::String(s.data_spec()),
        Value::Json(j) => j@,
    }
}

/// Returns the `@value` entry of a value object.
pub fn value_value(value: &Value<String>) -> (j: Json)
    ensures
        j@ == value_entry(*value),
{
    match value {
        Value::Literal(l, _) => literal_to_json(l),
        Value::LangString(s) => Json::String(s.as_str().to_owned()),
        Value::Json(j) => clone_json(j),
    }
}

/// The items of `s` that are not `null`, in order.
pub open spec fn non_null(s: Seq<JsonView>) -> Seq<JsonView>
    decreases s.len(),
{
    if s.len() == 0 {
        s
    } else if s.last() == JsonView::Null {
        non_null(s.drop_last())
    } else {
        non_null(s.drop_last()).push(s.last())
    }
}

/// Whether the container mapping of `key` in `ctx` includes `@list` or
/// `@set`.
pub open spec fn list_or_set(ctx: Context, key: Seq<char>) -> bool {
    if key == type_key() {
        ctx.type_def() matches Some(t) && t.container_set
    } else {
        ctx.lookup(key) matches Some(d) && (d.container.has(ContainerKind::List) || d.container.has(ContainerKind::AtSet))
    }
}

/// The spelling of `@graph`.
pub open spec fn graph_key() -> Seq<char> {
    seq!['@', 'g', 'r', 'a', 'p', 'h']
}

/// The spelling of `@set`.
pub open spec fn set_key() -> Seq<char> {
    seq!['@', 's', 'e', 't']
}

/// What a collection compacts to, given its compacted items: the items
/// that are not `null`, as an array, unless there is exactly one, arrays are
/// compacted, and the active property neither is `@graph` or `@set` nor has
/// a `@list` or `@set` container, in which case the item alone.
pub open spec fn collection_spec(items: Seq<JsonView>, ctx: Context, prop: Option<Seq<char>>, compact_arrays: bool) -> JsonView {
    let kept = non_null(items);
    let keep_array = match prop {
        Some(p) => p == graph_key() || p == set_key() || list_or_set(ctx, p),
        None => false,
    };
    if kept.len() != 1 || !compact_arrays || keep_array {
        JsonView::Array(kept)
    } else {
        kept[0]
    }
}

/// Whether the container mapping of `key` in `ctx` includes `@list` or
/// `@set`.
fn has_list_or_set(ctx: &Context, key: &[char]) -> (b: bool)
    ensures
        b == list_or_set(*ctx, key@),
{
    match ctx.get(key) {
        Some(TermDefinitionRef::Type(t)) => t.container_set,
        Some(TermDefinitionRef::Normal(d)) => d.container.contains(ContainerKind::List) || d.container.contains(ContainerKind::AtSet),
        None => false,
    }
}

/// Finishes the compaction of a collection from its compacted items: the
/// `null` items are dropped, and the rest is an array unless it can be
/// written as its only item (see [`collection_spec`]).
pub fn collect_compacted(items: Vec<Json>, active_context: &Context, active_property: Option<&str>, options: Options) -> (r: Json)
    ensures
        r@ == collection_spec(items_view(items@), *active_context, opt_str_view(active_property), options.compact_arrays),
{
    let ghost all = items@;
    let mut items = items;
    let mut kept: Vec<Json> = Vec::new();
    let mut i: usize = 0;
    let n = items.len();
    proof {
        lemma_items_view_index(all);
        assert(all.subrange(0, 0) =~= Seq::<Json>::empty());
        assert(items_view(all.subrange(0, 0)) =~= Seq::<JsonView>::empty());
        assert(items_view(kept@) =~= Seq::<JsonView>::empty());
    }
    while items.len() > 0
        invariant
            n == all.len(),
            i <= n,
            items@ == all.subrange(i as int, n as int),
            items_view(kept@) == non_null(items_view(all.subrange(0, i as int))),
        decreases items.len(),
    {
        let x = items.remove(0);
        proof {
            assert(x == all[i as int]);
            let pre = all.subrange(0, i as int);
            assert(all.subrange(0, i + 1) =~= pre.push(x));
            lemma_items_view_push(pre, x);
            assert(items_view(pre.push(x)).drop_last() =~= items_view(pre));
            assert(items@ =~= all.subrange(i + 1, n as int));
        }
        let is_null = match &x {
            Json::Null => true,
            _ => false,
        };
        if !is_null {
            proof {
                lemma_items_view_push(kept@, x);
            }
            kept.push(x);
        }
        i = i + 1;
    }
    proof {
        assert(all.subrange(0, i as int) =~= all);
        lemma_items_view_index(kept@);
    }
    let keep_array = match active_property {
        Some(p) => {
            let cs = chars_of(p);
            let g = chars_of("@graph");
            let st = chars_of("@set");
            proof {
                reveal_strlit("@graph");
                reveal_strlit("@set");
                assert(g@ =~= graph_key());
                assert(st@ =~= set_key());
            }
            crate::text::chars_eq(cs.as_slice(), g.as_slice()) || crate::text::chars_eq(cs.as_slice(), st.as_slice())
                || has_list_or_set(active_context, cs.as_slice())
        },
        None => false,
    };
    if kept.len() != 1 || !options.compact_arrays || keep_array {
        Json::Array(kept)
    } else {
        kept.remove(0)
    }
}

/// How the compaction of a node object starts.
#[derive(Debug)]
pub enum NodeStart {
    /// The node is a bare reference that the active property's type
    /// mapping lets be written as a string (or `null`): this is the whole
    /// result.
    Reference(Json),
    /// The entries the compacted node object starts with.
    Entries(Vec<(String, Json)>),
}

/// The JSON value of an optional compacted IRI.
pub open spec fn optional_string(c: Option<Seq<char>>) -> JsonView {
    match c {
        Some(s) => JsonView::String(s),
        None => JsonView::Null,
    }
}

/// How the compaction of a node with the given `@id`, under the active
/// property `prop` of `ctx`, starts: a node that is nothing but a reference
/// is written as its compacted IRI when the property's type mapping is
/// `@id` (IRI compacted without `@vocab`) or `@vocab` (with it); otherwise
/// the object starts with the `@id` entry, compacted without `@vocab`.
pub open spec fn node_start_spec(
    ctx: Context,
    id: Option<Id<String, String>>,
    only_id: bool,
    prop: Option<Seq<char>>,
    mode: ProcessingMode,
) -> Result<Result<JsonView, Seq<(Seq<char>, JsonView)>>, ()> {
    match id {
        None => Ok(Err(Seq::empty())),
        Some(i) => {
            let mapping = property_type(ctx, prop);
            if only_id && (mapping == Some(SyntaxType::<String>::Id) || mapping == Some(SyntaxType::<String>::Vocab)) {
                match compact_iri_spec(ctx, Term::Id(i), mapping == Some(SyntaxType::<String>::Vocab), false, mode) {
                    Ok(c) => Ok(Ok(optional_string(c))),
                    Err(_) => Err(()),
                }
            } else {
                match compact_iri_spec(ctx, Term::Id(i), false, false, mode) {
                    Ok(c) => Ok(Err(seq![(keyword_alias_spec(ctx, mode, Keyword::Id), optional_string(c))])),
                    Err(_) => Err(()),
                }
            }
        },
    }
}

/// A bare node reference under a property whose type mapping is `@vocab`
/// is compacted as a vocabulary-relative IRI: when the context has a plain
/// term (no container, type, language or direction mapping, not reverse)
/// for the reference's IRI, the node is written as a term of the context
/// whose IRI mapping is that IRI.
pub proof fn lemma_vocab_reference_is_a_term(ctx: Context, i: Id<String, String>, prop: Option<Seq<char>>, mode: ProcessingMode, n: int)
    requires
        property_type(ctx, prop) == Some(SyntaxType::<String>::Vocab),
        0 <= n < ctx.defs().len(),
        ctx.defs()[n].1.value matches Some(v) && term_view(v) == term_view(Term::Id(i)),
        ctx.defs()[n].1.container == Container::Empty,
        ctx.defs()[n].1.typ is None,
        ctx.defs()[n].1.language is None,
        ctx.defs()[n].1.direction is None,
        !ctx.defs()[n].1.reverse_property,
    ensures
        node_start_spec(ctx, Some(i), true, prop, mode) matches Ok(Ok(JsonView::String(k))) && exists|m: int|
            0 <= m < ctx.defs().len() && #[trigger] key_maps(ctx.defs()[m], k, term_view(Term::Id(i))),
{
    let var = term_view(Term::Id(i));
    let defs = ctx.defs();
    let dflt = defaults_of(ctx);
    assert(has_mapping(defs[n], var));
    assert(maps_to(ctx, var));
    let containers = keyless_containers(false, mode);
    let slots = keyless_selection(false).map_values(|t: TypeSelection| type_selection_slot(t));
    assert(containers[5] == Container::Empty);
    assert(slots[1] == SlotView::TypeMap(SyntaxType::<Seq<char>>::Nothing));
    assert(entry_matches(defs[n], dflt, var, containers[5], slots[1]));
    assert(entry_matches(defs[n], dflt, var, containers[5], SlotView::AnyNone));
    lemma_select_complete(defs, dflt, var, containers, slots, 5, 1, n);
    lemma_select_sound(defs, dflt, var, containers, SelectionView::Slots(slots));
    let t = select_spec(defs, dflt, var, containers, SelectionView::Slots(slots));
    assert(t is Some);
    assert(compact_iri_spec(ctx, Term::Id(i), true, false, mode) == Ok::<Option<Seq<char>>, ()>(t));
    assert(node_start_spec(ctx, Some(i), true, prop, mode) == Ok::<Result<JsonView, Seq<(Seq<char>, JsonView)>>, ()>(Ok(JsonView::String(t->0))));
    let m = choose|m: int| 0 <= m < defs.len() && #[trigger] key_maps(defs[m], t->0, var);
    assert(key_maps(ctx.defs()[m], t->0, term_view(Term::Id(i))));
    assert(node_start_spec(ctx, Some(i), true, prop, mode) matches Ok(Ok(JsonView::String(k))) && key_maps(ctx.defs()[m], k, term_view(Term::Id(i))));
}

/// Under a property whose type mapping is `@id`, a bare node reference is
/// written exactly as the `@id` entry of a node that has more entries: the
/// same compacted IRI (or the same failure).
pub proof fn lemma_id_reference_is_its_id_entry(ctx: Context, i: Id<String, String>, prop: Option<Seq<char>>, mode: ProcessingMode)
    requires
        property_type(ctx, prop) == Some(SyntaxType::<String>::Id),
    ensures
        match (node_start_spec(ctx, Some(i), true, prop, mode), node_start_spec(ctx, Some(i), false, prop, mode)) {
            (Ok(Ok(v)), Ok(Err(e))) => e == seq![(keyword_alias_spec(ctx, mode, Keyword::Id), v)],
            (Err(_), Err(_)) => true,
            _ => false,
        },
{
}

/// Starts the compaction of a node object with the given `@id` under the
/// active property `active_property` of `ctx`; `only_id` says the node has
/// no entry but `@id` (see [`node_start_spec`]).
pub fn compact_node_id(
    ctx: &Context,
    id: Option<&Id<String, String>>,
    only_id: bool,
    active_property: Option<&str>,
    mode: ProcessingMode,
) -> (r: Result<NodeStart, Error>)
    ensures
        match node_start_spec(*ctx, match id { Some(i) => Some(*i), None => None }, only_id, opt_str_view(active_property), mode) {
            Ok(Ok(v)) => r matches Ok(NodeStart::Reference(j)) && j@ == v,
            Ok(Err(e)) => r matches Ok(NodeStart::Entries(m)) && entries_view(m@) == e,
            Err(_) => r == Err::<NodeStart, Error>(Error::IriConfusedWithPrefix),
        },
{
    let mut out: Vec<(String, Json)> = Vec::new();
    let i = match id {
        Some(i) => i,
        None => {
            proof {
                assert(entries_view(out@) =~= Seq::<(Seq<char>, JsonView)>::empty());
            }
            return Ok(NodeStart::Entries(out));
        },
    };
    let def = property_definition(ctx, active_property);
    let (by_id, by_vocab) = match def {
        Some(d) => match &d.typ {
            Some(SyntaxType::Id) => (true, false),
            Some(SyntaxType::Vocab) => (false, true),
            _ => (false, false),
        },
        None => (false, false),
    };
    if only_id && (by_id || by_vocab) {
        return match compact_iri(ctx, &Term::Id(clone_id(i)), by_vocab, false, mode) {
            Ok(Some(c)) => Ok(NodeStart::Reference(Json::String(c))),
            Ok(None) => Ok(NodeStart::Reference(Json::Null)),
            Err(_) => Err(Error::IriConfusedWithPrefix),
        };
    }
    let compacted = match compact_iri(ctx, &Term::Id(clone_id(i)), false, false, mode) {
        Ok(Some(c)) => Json::String(c),
        Ok(None) => Json::Null,
        Err(_) => {
            return Err(Error::IriConfusedWithPrefix);
        },
    };
    let alias = keyword_alias(ctx, mode, Keyword::Id);
    push_entry(&mut out, alias, compacted);
    proof {
        assert(entries_view(out@) =~= seq![(keyword_alias_spec(*ctx, mode, Keyword::Id), json_view(compacted))]);
    }
    Ok(NodeStart::Entries(out))
}

/// The entries of a compacted node once its `@index` is added: kept under
/// the alias of `@index` unless the active property's container includes
/// `@index`, in which case the index is the key of the enclosing map.
pub open spec fn node_index_spec(
    entries: Seq<(Seq<char>, JsonView)>,
    ctx: Context,
    index: Option<Seq<char>>,
    prop: Option<Seq<char>>,
    mode: ProcessingMode,
) -> Seq<(Seq<char>, JsonView)> {
    match index {
        Some(i) => if index_dropped(ctx, prop, index) {
            entries
        } else {
            entries.push((keyword_alias_spec(ctx, mode, Keyword::Index), JsonView::String(i)))
        },
        None => entries,
    }
}

/// Adds the `@index` entry of a compacted node object (see
/// [`node_index_spec`]).
pub fn compact_node_index(
    entries: &mut Vec<(String, Json)>,
    index: Option<&str>,
    ctx: &Context,
    active_property: Option<&str>,
    mode: ProcessingMode,
)
    ensures
        entries_view(final(entries)@) == node_index_spec(entries_view(old(entries)@), *ctx, opt_str_view(index), opt_str_view(active_property), mode),
{
    if let Some(i) = index {
        let def = property_definition(ctx, active_property);
        let index_container = match def {
            Some(d) => d.container.contains(ContainerKind::Index),
            None => false,
        };
        if !index_container {
            let alias = keyword_alias(ctx, mode, Keyword::Index);
            push_entry(entries, alias, Json::String(i.to_owned()));
        }
    }
}


/// The entries of an object once `key` is set to `value`: an existing
/// entry with that key takes the new value in place, otherwise the entry is
/// appended.
pub open spec fn insert_spec(entries: Seq<(Seq<char>, JsonView)>, key: Seq<char>, value: JsonView) -> Seq<(Seq<char>, JsonView)> {
    match entry_position(entries, key) {
        Some(i) => entries.update(i, (key, value)),
        None => entries.push((key, value)),
    }
}

/// Sets the entry `key` of an object to `value` (see [`insert_spec`]).
fn insert_entry(map: &mut Vec<(String, Json)>, key: String, value: Json)
    requires
        unique_keys(entries_view(old(map)@)),
    ensures
        entries_view(final(map)@) == insert_spec(entries_view(old(map)@), key@, value@),
        unique_keys(entries_view(final(map)@)),
{
    let ghost before = entries_view(map@);
    proof {
        lemma_entries_view_index(map@);
    }
    match find_entry(map, &key) {
        Some(i) => {
            map.set(i, (key, value));
            proof {
                lemma_entries_view_index(map@);
                assert(entries_view(map@) =~= before.update(i as int, (key@, value@)));
            }
        },
        None => {
            push_entry(map, key, value);
            proof {
                lemma_entries_view_index(map@);
                let after = entries_view(map@);
                assert forall|a: int, b: int| 0 <= a < after.len() && 0 <= b < after.len() && a != b implies after[a].0 != after[b].0 by {
                    if a < before.len() && b < before.len() {
                        assert(after[a] == before[a] && after[b] == before[b]);
                    } else if a < before.len() {
                        assert(after[a] == before[a]);
                    } else {
                        assert(after[b] == before[b]);
                    }
                }
            }
        },
    }
}

/// Whether `key` names a reverse property in `ctx`.
pub open spec fn is_reverse_key(ctx: Context, key: Seq<char>) -> bool {
    property_def(ctx, Some(key)) matches Some(d) && d.reverse_property
}

/// Whether a value added under the reverse property `key` is kept as an
/// array: its container includes `@set`, or arrays are not compacted.
pub open spec fn reverse_as_array(ctx: Context, key: Seq<char>, compact_arrays: bool) -> bool {
    (property_def(ctx, Some(key)) matches Some(d) && d.container.has(ContainerKind::AtSet)) || !compact_arrays
}

/// The compacted `@reverse` entries, taken in order, split between the node
/// itself (an entry whose key is a reverse property is added to `result`)
/// and the map kept under `@reverse` (every other entry).
pub open spec fn reverse_split(
    ctx: Context,
    compact_arrays: bool,
    result: Seq<(Seq<char>, JsonView)>,
    entries: Seq<(Seq<char>, JsonView)>,
) -> (Seq<(Seq<char>, JsonView)>, Seq<(Seq<char>, JsonView)>)
    decreases entries.len(),
{
    if entries.len() == 0 {
        (result, Seq::empty())
    } else {
        let (r, m) = reverse_split(ctx, compact_arrays, result, entries.drop_last());
        let e = entries.last();
        if is_reverse_key(ctx, e.0) {
            (add_value_spec(r, e.0, e.1, reverse_as_array(ctx, e.0, compact_arrays)), m)
        } else {
            (r, insert_spec(m, e.0, e.1))
        }
    }
}

/// The entries of a compacted node once its compacted `@reverse` entries
/// are placed: those under reverse properties are added to the node, and
/// the others, if any, are set under the alias of `@reverse`.
pub open spec fn place_reverse_spec(
    ctx: Context,
    mode: ProcessingMode,
    compact_arrays: bool,
    result: Seq<(Seq<char>, JsonView)>,
    entries: Seq<(Seq<char>, JsonView)>,
) -> Seq<(Seq<char>, JsonView)> {
    let (r, m) = reverse_split(ctx, compact_arrays, result, entries);
    if m.len() == 0 {
        r
    } else {
        insert_spec(r, keyword_alias_spec(ctx, mode, Keyword::Reverse), JsonView::Object(m))
    }
}

/// Whether `key` names a reverse property, and how a value under it is added.
fn reverse_key(ctx: &Context, key: &String, compact_arrays: bool) -> (r: (bool, bool))
    ensures
        r.0 == is_reverse_key(*ctx, key@),
        r.1 == reverse_as_array(*ctx, key@, compact_arrays),
{
    match property_definition(ctx, Some(key.as_str())) {
        Some(d) => (d.reverse_property, d.container.contains(ContainerKind::AtSet) || !compact_arrays),
        None => (false, !compact_arrays),
    }
}

/// Places the compacted `@reverse` entries of a node into its compacted
/// object `result` (see [`place_reverse_spec`]).
pub fn compact_reverse_entries(result: &mut Vec<(String, Json)>, reverse: Vec<(String, Json)>, ctx: &Context, options: Options)
    requires
        unique_keys(entries_view(old(result)@)),
    ensures
        entries_view(final(result)@) == place_reverse_spec(
            *ctx,
            options.processing_mode,
            options.compact_arrays,
            entries_view(old(result)@),
            entries_view(reverse@),
        ),
        unique_keys(entries_view(final(result)@)),
{
    let ghost start = entries_view(result@);
    let ghost orig = reverse@;
    let ghost n = orig.len();
    let mut rest = reverse;
    proof {
        assert(n == rest.len());
    }
    let mut map: Vec<(String, Json)> = Vec::new();
    let mut i: usize = 0;
    proof {
        assert(orig.subrange(0, 0) =~= Seq::<(String, Json)>::empty());
        assert(entries_view(map@) =~= Seq::<(Seq<char>, JsonView)>::empty());
        assert(rest@ =~= orig.subrange(0, n as int));
    }
    while rest.len() > 0
        invariant
            n == orig.len(),
            n <= usize::MAX,
            i <= n,
            rest@ == orig.subrange(i as int, n as int),
            unique_keys(entries_view(result@)),
            unique_keys(entries_view(map@)),
            (entries_view(result@), entries_view(map@)) == reverse_split(
                *ctx,
                options.compact_arrays,
                start,
                entries_view(orig.subrange(0, i as int)),
            ),
        decreases rest.len(),
    {
        let (k, v) = rest.remove(0);
        let ghost pre = orig.subrange(0, i as int);
        proof {
            assert(orig[i as int] == (k, v));
            assert(orig.subrange(0, i + 1) =~= pre.push((k, v)));
            lemma_entries_view_push(pre, (k, v));
            let ev = entries_view(pre.push((k, v)));
            assert(ev.drop_last() =~= entries_view(pre));
            assert(ev.last() == (k@, v@));
        }
        let (is_rev, as_array) = reverse_key(ctx, &k, options.compact_arrays);
        if is_rev {
            add_value(result, k.as_str(), v, as_array);
        } else {
            insert_entry(&mut map, k, v);
        }
        proof {
            assert(rest@ =~= orig.subrange(i + 1, n as int));
        }
        i = i + 1;
    }
    proof {
        assert(orig.subrange(0, n as int) =~= orig);
    }
    if map.len() > 0 {
        let alias = keyword_alias(ctx, options.processing_mode, Keyword::Reverse);
        proof {
            lemma_entries_view_index(map@);
        }
        insert_entry(result, alias, Json::Object(map));
    } else {
        proof {
            lemma_entries_view_index(map@);
        }
    }
}


/// The character sequences of a list of strings.
pub open spec fn strings_view(v: Seq<String>) -> Seq<Seq<char>> {
    v.map_values(|t: String| t@)
}

/// The compacted types that are terms (not `null`), in order.
pub open spec fn type_terms(vs: Seq<JsonView>) -> Seq<Seq<char>>
    decreases vs.len(),
{
    if vs.len() == 0 {
        Seq::empty()
    } else {
        let init = type_terms(vs.drop_last());
        match vs.last() {
            JsonView::String(t) => init.push(t),
            _ => init,
        }
    }
}

/// The order in which the scoped contexts of the types of a node are
/// applied: the types compacted under the type-scoped context, sorted
/// lexicographically; `Err` when one cannot be compacted.
pub open spec fn type_scope_order_spec(ctx: Context, ts: Seq<Id<String, String>>, mode: ProcessingMode) -> Result<Seq<Seq<char>>, ()> {
    match compacted_types(ctx, ts, mode) {
        Ok(vs) => Ok(type_terms(vs).sort_by(chars_order())),
        Err(_) => Err(()),
    }
}

/// Inserting `x` before the first element it sorts before keeps a sorted
/// sequence sorted.
proof fn lemma_insert_sorted(s: Seq<Seq<char>>, k: int, x: Seq<char>)
    requires
        sorted_by(s, chars_order()),
        0 <= k <= s.len(),
        forall|j: int| 0 <= j < k ==> !chars_lt(x, #[trigger] s[j]),
        k < s.len() ==> chars_lt(x, s[k]),
    ensures
        sorted_by(s.insert(k, x), chars_order()),
{
    let t = s.insert(k, x);
    let r = chars_order();
    assert forall|a: int, b: int| 0 <= a < b < t.len() implies #[trigger] r(t[a], t[b]) by {
        if a < k && b < k {
            assert(r(s[a], s[b]));
        } else if a < k && b == k {
            assert(!chars_lt(x, s[a]));
            if s[a] != x {
                lemma_chars_total(s[a], x);
            }
        } else if a < k {
            assert(t[b] == s[b - 1]);
            assert(r(s[a], s[b - 1]));
        } else if a == k {
            assert(t[b] == s[b - 1]);
            if b - 1 == k {
            } else {
                assert(r(s[k], s[b - 1]));
                if s[k] != s[b - 1] {
                    lemma_chars_transitive(x, s[k], s[b - 1]);
                }
            }
        } else {
            assert(t[a] == s[a - 1] && t[b] == s[b - 1]);
            assert(r(s[a - 1], s[b - 1]));
        }
    }
}

/// The compacted types of a node that are terms, in the order in which
/// their scoped contexts apply (see [`type_scope_order_spec`]).
pub fn type_scope_order(type_scoped_context: &Context, types: &[Id<String, String>], mode: ProcessingMode) -> (r: Result<Vec<String>, Error>)
    ensures
        match type_scope_order_spec(*type_scoped_context, types@, mode) {
            Ok(terms) => r matches Ok(v) && strings_view(v@) == terms,
            Err(_) => r == Err::<Vec<String>, Error>(Error::IriConfusedWithPrefix),
        },
{
    let mut out: Vec<String> = Vec::new();
    let ghost mut vs: Seq<JsonView> = Seq::empty();
    let mut i: usize = 0;
    proof {
        assert(types@.subrange(0, 0) =~= Seq::<Id<String, String>>::empty());
        assert(strings_view(out@) =~= Seq::<Seq<char>>::empty());
        assert(type_terms(vs) =~= Seq::<Seq<char>>::empty());
    }
    while i < types.len()
        invariant
            i <= types@.len(),
            compacted_types(*type_scoped_context, types@.subrange(0, i as int), mode) == Ok::<Seq<JsonView>, ()>(vs),
            sorted_by(strings_view(out@), chars_order()),
            strings_view(out@).to_multiset() == type_terms(vs).to_multiset(),
        decreases types.len() - i,
    {
        let c = compact_type(type_scoped_context, &types[i], mode);
        proof {
            let pre = types@.subrange(0, i as int);
            assert(types@.subrange(0, i + 1).drop_last() =~= pre);
            assert(types@.subrange(0, i + 1).last() == types@[i as int]);
        }
        match c {
            Ok(j) => {
                let ghost before = strings_view(out@);
                match j {
                    Json::String(t) => {
                        let tc = chars_of(t.as_str());
                        let mut k: usize = 0;
                        while k < out.len()
                            invariant
                                k <= out@.len(),
                                tc@ == t@,
                                before == strings_view(out@),
                                forall|m: int| 0 <= m < k ==> !chars_lt(t@, #[trigger] before[m]),
                            ensures
                                k <= out@.len(),
                                before == strings_view(out@),
                                forall|m: int| 0 <= m < k ==> !chars_lt(t@, #[trigger] before[m]),
                                k < out@.len() ==> chars_lt(t@, before[k as int]),
                            decreases out.len() - k,
                        {
                            let oc = chars_of(out[k].as_str());
                            if chars_less(tc.as_slice(), oc.as_slice()) {
                                proof {
                                    assert(before[k as int] == out@[k as int]@);
                                }
                                break;
                            }
                            k = k + 1;
                        }
                        let ghost tv = t@;
                        out.insert(k, t);
                        proof {
                            lemma_insert_sorted(before, k as int, tv);
                            assert(strings_view(out@) =~= before.insert(k as int, tv));
                            vstd::seq_lib::to_multiset_insert(before, k as int, tv);
                            let nvs = vs.push(JsonView::String(tv));
                            assert(nvs.drop_last() =~= vs);
                            assert(type_terms(nvs) == type_terms(vs).push(tv));
                            vstd::seq_lib::to_multiset_build(type_terms(vs), tv);
                            vs = nvs;
                        }
                    },
                    other => {
                        proof {
                            let nvs = vs.push(json_view(other));
                            assert(nvs.drop_last() =~= vs);
                            vs = nvs;
                        }
                    },
                }
            },
            Err(e) => {
                proof {
                    let next = types@.subrange(0, i + 1);
                    assert(compacted_types(*type_scoped_context, next, mode) is Err);
                    lemma_compacted_types_prefix_err(*type_scoped_context, types@, i as int + 1, mode);
                }
                return Err(e);
            },
        }
        i = i + 1;
    }
    proof {
        assert(types@.subrange(0, i as int) =~= types@);
        lemma_chars_order_total();
        type_terms(vs).lemma_sort_by_ensures(chars_order());
        vstd::seq_lib::lemma_sorted_unique(strings_view(out@), type_terms(vs).sort_by(chars_order()), chars_order());
    }
    Ok(out)
}


/// The context a node object is compacted under before any scoped context
/// applies: the previous context of `ctx`, if it has one, unless the node
/// is nothing but an `@id`, since a term-scoped context does not reach into
/// new node objects.
pub open spec fn node_base(ctx: Context, single_id: bool) -> Context {
    if !single_id && ctx.previous() is Some {
        ctx.previous()->0
    } else {
        ctx
    }
}

/// Whether one of `terms` has a scoped context in `ctx`.
pub open spec fn some_type_scoped(ctx: Context, terms: Seq<Seq<char>>) -> bool {
    exists|j: int| 0 <= j < terms.len() && has_scoped_context(ctx, Some(#[trigger] terms[j]))
}

/// The options under which the scoped context of a node type is
/// processed: those of `options`, without propagation.
pub open spec fn type_scope_options(options: Options) -> ProcessingOptions {
    ProcessingOptions {
        processing_mode: options.processing_mode,
        override_protected: false,
        propagate: false,
        vocab: Action::Keep,
    }
}

/// Whether the contexts `cs` are the steps of processing, one after the
/// other, the scoped contexts in `ts` of those of `terms` that have one,
/// each against the context built so far: a term without a scoped context
/// leaves the context as it is.
pub open spec fn type_steps(ts: Context, terms: Seq<Seq<char>>, opts: ProcessingOptions, cs: Seq<Context>) -> bool {
    &&& cs.len() == terms.len() + 1
    &&& forall|k: int| 0 <= k < terms.len() ==> if has_scoped_context(ts, Some(#[trigger] terms[k])) {
        processed_from(cs[k], scoped_local(ts, Some(terms[k])), opts, cs[k + 1])
    } else {
        cs[k + 1] == cs[k]
    }
}

/// Whether `end` comes from `c0` by the steps of [`type_steps`].
pub open spec fn type_chain(c0: Context, ts: Context, terms: Seq<Seq<char>>, opts: ProcessingOptions, end: Context) -> bool {
    exists|cs: Seq<Context>| #[trigger] type_steps(ts, terms, opts, cs) && cs[0] == c0 && cs.last() == end
}

/// Whether `c` comes from `c0` by the scoped contexts of the node types
/// `types`, in the order of [`type_scope_order_spec`] (see
/// [`type_chain`]); with no types it is `c0`.
pub open spec fn node_types_applied(c0: Context, ts: Context, types: Seq<Id<String, String>>, options: Options, c: Context) -> bool {
    if types.len() == 0 {
        c == c0
    } else {
        match type_scope_order_spec(ts, types, options.processing_mode) {
            Ok(terms) => type_chain(c0, ts, terms, type_scope_options(options), c),
            Err(_) => false,
        }
    }
}

/// Whether `c0` is where the compaction of a node starts before its types
/// apply: the scoped context of the active property, processed against
/// [`node_base`], or that base itself.
pub open spec fn node_start_context(active: Context, ts: Context, single_id: bool, prop: Option<Seq<char>>, options: Options, c0: Context) -> bool {
    if has_scoped_context(ts, prop) {
        processed_from(node_base(active, single_id), scoped_local(ts, prop), scoped_options(options), c0)
    } else {
        same_context(c0, node_base(active, single_id))
    }
}

/// Whether the types `ts` of a node bring no scoped context: there are
/// none, or none of their compacted forms has one in `ctx`.
pub open spec fn no_type_scopes(ctx: Context, ts: Seq<Id<String, String>>, mode: ProcessingMode) -> bool {
    ts.len() == 0 || (type_scope_order_spec(ctx, ts, mode) matches Ok(terms) && !some_type_scoped(ctx, terms))
}

/// The active context under which the entries of a node object are
/// compacted. From [`node_base`], the scoped context of the active property
/// in `type_scoped_context` is applied first (protected terms may be
/// redefined), then the scoped contexts of the node's types, in the order
/// of [`type_scope_order_spec`], without propagation.
///
/// When none of these scoped contexts exists, the result is the base
/// context itself. A type that cannot be compacted is an
/// [`Error::IriConfusedWithPrefix`], unless the property's scoped context
/// already failed, which is an [`Error::ContextProcessing`], as is any
/// failure to process a scoped context.
pub fn node_active_context<H: Handler<Warning>>(
    active_context: &Context,
    type_scoped_context: &Context,
    types: &[Id<String, String>],
    single_id: bool,
    active_property: Option<&str>,
    options: Options,
    warnings: &mut H,
) -> (r: Result<Context, Error>)
    ensures
        !has_scoped_context(*type_scoped_context, opt_str_view(active_property)) && no_type_scopes(
            *type_scoped_context,
            types@,
            options.processing_mode,
        ) ==> (r matches Ok(c) && same_context(c, node_base(*active_context, single_id))),
        !has_scoped_context(*type_scoped_context, opt_str_view(active_property)) && types@.len() > 0
            && type_scope_order_spec(*type_scoped_context, types@, options.processing_mode) is Err
            ==> r == Err::<Context, Error>(Error::IriConfusedWithPrefix),
        r matches Err(Error::IriConfusedWithPrefix) ==> types@.len() > 0 && type_scope_order_spec(
            *type_scoped_context,
            types@,
            options.processing_mode,
        ) is Err,
        r matches Err(e) ==> e is IriConfusedWithPrefix || e is ContextProcessing,
        r matches Ok(c) ==> same_context(c, node_base(*active_context, single_id)) || c.mode() == options.processing_mode,
        r matches Ok(c) ==> exists|c0: Context| node_start_context(
            *active_context,
            *type_scoped_context,
            single_id,
            opt_str_view(active_property),
            options,
            c0,
        ) && node_types_applied(c0, *type_scoped_context, types@, options, c),
{
    let mode = options.processing_mode;
    let base: &Context = if !single_id {
        match active_context.previous_context() {
            Some(p) => p,
            None => active_context,
        }
    } else {
        active_context
    };
    let ghost b = node_base(*active_context, single_id);
    let mut current = base.duplicate();
    let ghost mut touched = false;
    if let Some(def) = property_definition(type_scoped_context, active_property) {
        if let Some(local) = &def.context {
            match process_context(
                base,
                &**local,
                &ProcessingStack::new(),
                &def.base_url,
                options.processing_options().with_override(),
                0,
                warnings,
            ) {
                Ok(c) => {
                    current = c;
                    proof {
                        touched = true;
                    }
                },
                Err(e) => {
                    return Err(Error::ContextProcessing(e));
                },
            }
        }
    }
    let ghost c0 = current;
    if types.len() == 0 {
        proof {
            assert(node_start_context(*active_context, *type_scoped_context, single_id, opt_str_view(active_property), options, c0)
                && node_types_applied(c0, *type_scoped_context, types@, options, current));
        }
        return Ok(current);
    }
    let terms = match type_scope_order(type_scoped_context, types, mode) {
        Ok(t) => t,
        Err(e) => {
            return Err(e);
        },
    };
    let ghost tv = strings_view(terms@);
    let ghost mut cs: Seq<Context> = seq![current];
    proof {
        assert(type_steps(*type_scoped_context, tv.subrange(0, 0), type_scope_options(options), cs));
    }
    let mut i: usize = 0;
    while i < terms.len()
        invariant
            i <= terms@.len(),
            tv == strings_view(terms@),
            type_scope_order_spec(*type_scoped_context, types@, mode) == Ok::<Seq<Seq<char>>, ()>(tv),
            types@.len() > 0,
            b == node_base(*active_context, single_id),
            !touched ==> same_context(current, b),
            touched ==> current.mode() == mode,
            touched ==> has_scoped_context(*type_scoped_context, opt_str_view(active_property))
                || exists|j: int| 0 <= j < i && has_scoped_context(*type_scoped_context, Some(#[trigger] tv[j])),
            mode == options.processing_mode,
            node_start_context(*active_context, *type_scoped_context, single_id, opt_str_view(active_property), options, c0),
            type_steps(*type_scoped_context, tv.subrange(0, i as int), type_scope_options(options), cs),
            cs[0] == c0,
            cs.last() == current,
        decreases terms.len() - i,
    {
        let ghost tvi = tv[i as int];
        let ghost prev = current;
        proof {
            assert(tvi == terms@[i as int]@);
            assert(tv.subrange(0, i + 1).drop_last() =~= tv.subrange(0, i as int));
            assert(tv.subrange(0, i + 1).last() == tvi);
        }
        if let Some(def) = property_definition(type_scoped_context, Some(terms[i].as_str())) {
            if let Some(local) = &def.context {
                match process_context(
                    &current,
                    &**local,
                    &ProcessingStack::new(),
                    &def.base_url,
                    options.processing_options().without_propagation(),
                    0,
                    warnings,
                ) {
                    Ok(c) => {
                        current = c;
                        proof {
                            touched = true;
                            assert(has_scoped_context(*type_scoped_context, Some(tv[i as int])));
                            assert(processed_from(prev, scoped_local(*type_scoped_context, Some(tvi)), type_scope_options(options), current));
                        }
                    },
                    Err(e) => {
                        proof {
                            assert(has_scoped_context(*type_scoped_context, Some(tv[i as int])));
                            assert(some_type_scoped(*type_scoped_context, tv));
                        }
                        return Err(Error::ContextProcessing(e));
                    },
                }
            }
        }
        proof {
            let ncs = cs.push(current);
            let sub = tv.subrange(0, i + 1);
            assert forall|k: int| 0 <= k < sub.len() implies if has_scoped_context(*type_scoped_context, Some(#[trigger] sub[k])) {
                processed_from(ncs[k], scoped_local(*type_scoped_context, Some(sub[k])), type_scope_options(options), ncs[k + 1])
            } else {
                ncs[k + 1] == ncs[k]
            } by {
                if k < i {
                    assert(sub[k] == tv.subrange(0, i as int)[k]);
                } else {
                    assert(sub[k] == tvi);
                }
            }
            cs = ncs;
        }
        i = i + 1;
    }
    proof {
        assert(tv.subrange(0, i as int) =~= tv);
        assert(type_chain(c0, *type_scoped_context, tv, type_scope_options(options), current));
        assert(node_start_context(*active_context, *type_scoped_context, single_id, opt_str_view(active_property), options, c0)
            && node_types_applied(c0, *type_scoped_context, types@, options, current));
        if touched && !has_scoped_context(*type_scoped_context, opt_str_view(active_property)) {
            let j = choose|j: int| 0 <= j < terms@.len() && has_scoped_context(*type_scoped_context, Some(#[trigger] tv[j]));
            assert(some_type_scoped(*type_scoped_context, tv));
        }
    }
    Ok(current)
}

} // verus!
