//! The inverse context, used to pick terms during compaction.
//!
//! For every IRI mapping, container mapping and type or language criterion,
//! the inverse context holds the term that compaction prefers: the shortest
//! one, and among those of equal length the lexicographically least.
use vstd::prelude::*;
use vstd::utf8::encode_utf8;
use crate::container::{Container, Nullable};
use crate::context::{Context, NormalTermDefinition};
use crate::id::{Id, Term, TermBuf, ValidId};
use crate::order::{shortlex_less, shortlex_lt, lemma_shortlex_order};
use crate::syntax::{Direction, Keyword};
use crate::value::SyntaxType;

verus! {

broadcast use vstd::string::group_string_axioms;

/// A term, with its identifiers given by their characters.
pub enum TermView {
    /// `null`.
    Null,
    /// A keyword.
    Kw(Keyword),
    /// An IRI.
    Iri(Seq<char>),
    /// A blank node identifier.
    Blank(Seq<char>),
    /// An invalid identifier.
    Invalid(Seq<char>),
}

/// The characters-level view of a term.
pub open spec fn term_view(t: TermBuf) -> TermView {
    match t {
        Term::Null => TermView::Null,
        Term::Keyword(k) => TermView::Kw(k),
        Term::Id(Id::Valid(ValidId::Iri(i))) => TermView::Iri(i@),
        Term::Id(Id::Valid(ValidId::Blank(b))) => TermView::Blank(b@),
        Term::Id(Id::Invalid(s)) => TermView::Invalid(s@),
    }
}

/// Compares two terms by their characters.
pub fn term_eq(a: &TermBuf, b: &TermBuf) -> (r: bool)
    ensures
        r == (term_view(*a) == term_view(*b)),
{
    match (a, b) {
        (Term::Null, Term::Null) => true,
        (Term::Keyword(x), Term::Keyword(y)) => *x == *y,
        (Term::Id(Id::Valid(ValidId::Iri(x))), Term::Id(Id::Valid(ValidId::Iri(y)))) => *x == *y,
        (Term::Id(Id::Valid(ValidId::Blank(x))), Term::Id(Id::Valid(ValidId::Blank(y)))) => *x == *y,
        (Term::Id(Id::Invalid(x)), Term::Id(Id::Invalid(y))) => *x == *y,
        _ => false,
    }
}

/// Language and direction criterion: explicitly `null`, or an optional
/// language tag with an optional base direction.
pub type LangDir = Nullable<(Option<String>, Option<Direction>)>;

/// Characters-level view of a language and direction criterion.
pub type LangDirView = Nullable<(Option<Seq<char>>, Option<Direction>)>;

/// The characters-level view of a language and direction criterion.
pub open spec fn lang_dir_view(l: LangDir) -> LangDirView {
    match l {
        Nullable::Null => Nullable::Null,
        Nullable::Value((lang, dir)) => Nullable::Value((
            match lang { Some(s) => Some(s@), None => None },
            dir,
        )),
    }
}

/// The characters-level view of a type mapping.
pub open spec fn type_view(t: SyntaxType<String>) -> SyntaxType<Seq<char>> {
    match t {
        SyntaxType::Id => SyntaxType::Id,
        SyntaxType::Json => SyntaxType::Json,
        SyntaxType::Nothing => SyntaxType::Nothing,
        SyntaxType::Vocab => SyntaxType::Vocab,
        SyntaxType::Iri(s) => SyntaxType::Iri(s@),
    }
}

/// Type criterion used when selecting a term from the inverse context.
#[derive(Clone, Debug)]
pub enum TypeSelection {
    /// Select a reverse property.
    Reverse,
    /// Accept any type.
    Any,
    /// Select a term whose type mapping matches.
    Type(SyntaxType<String>),
}

/// Language criterion used when selecting a term from the inverse context.
#[derive(Clone, Debug)]
pub enum LangSelection {
    /// Accept any language.
    Any,
    /// Select a term matching the given language and base direction.
    Lang(LangDir),
}

/// Criterion used to pick a term out of the inverse context.
pub enum Selection {
    /// Accept any term.
    Any,
    /// Prefer terms matching one of the given type criteria, in order.
    Type(Vec<TypeSelection>),
    /// Prefer terms matching one of the given language criteria, in order.
    Lang(Vec<LangSelection>),
}

/// One place of the inverse context that holds a term.
#[derive(Clone, Debug)]
pub enum Slot {
    /// The term preferred for the container, whatever the value.
    AnyNone,
    /// The preferred reverse property.
    Reverse,
    /// The preferred term with the `@none` type mapping, for typed values.
    TypeAny,
    /// The preferred term for the given type.
    TypeMap(SyntaxType<String>),
    /// The preferred term with the `@none` type mapping, for language values.
    LangAny,
    /// The preferred term for the given language and direction.
    LangMap(LangDir),
}

/// Characters-level view of a slot.
pub enum SlotView {
    /// See [`Slot::AnyNone`].
    AnyNone,
    /// See [`Slot::Reverse`].
    Reverse,
    /// See [`Slot::TypeAny`].
    TypeAny,
    /// See [`Slot::TypeMap`].
    TypeMap(SyntaxType<Seq<char>>),
    /// See [`Slot::LangAny`].
    LangAny,
    /// See [`Slot::LangMap`].
    LangMap(LangDirView),
}

/// The characters-level view of a slot.
pub open spec fn slot_view(s: Slot) -> SlotView {
    match s {
        Slot::AnyNone => SlotView::AnyNone,
        Slot::Reverse => SlotView::Reverse,
        Slot::TypeAny => SlotView::TypeAny,
        Slot::TypeMap(t) => SlotView::TypeMap(type_view(t)),
        Slot::LangAny => SlotView::LangAny,
        Slot::LangMap(l) => SlotView::LangMap(lang_dir_view(l)),
    }
}

/// The default language and base direction of a context.
pub type Defaults = (Option<Seq<char>>, Option<Direction>);

/// The default language and base direction, by their characters.
pub open spec fn defaults_from(language: Option<String>, direction: Option<Direction>) -> Defaults {
    (match language { Some(s) => Some(s@), None => None }, direction)
}

/// The default language and base direction of `ctx`.
pub open spec fn defaults_of(ctx: Context) -> Defaults {
    defaults_from(ctx.language(), ctx.direction())
}

/// The language and direction slot a definition without type mapping fills
/// through its own language and direction mappings, if it has one of them.
pub open spec fn own_lang_dir(d: NormalTermDefinition) -> Option<LangDirView> {
    match (d.language, d.direction) {
        (Some(Nullable::Value(l)), Some(Nullable::Value(dir))) => Some(Nullable::Value((Some(l@), Some(dir)))),
        (Some(Nullable::Value(l)), Some(Nullable::Null)) => Some(Nullable::Value((Some(l@), None))),
        (Some(Nullable::Null), Some(Nullable::Value(dir))) => Some(Nullable::Value((None, Some(dir)))),
        (Some(Nullable::Null), Some(Nullable::Null)) => Some(Nullable::Null),
        (Some(Nullable::Value(l)), None) => Some(Nullable::Value((Some(l@), None))),
        (Some(Nullable::Null), None) => Some(Nullable::Null),
        (None, Some(Nullable::Value(dir))) => Some(Nullable::Value((None, Some(dir)))),
        (None, Some(Nullable::Null)) => Some(Nullable::Value((None, None))),
        (None, None) => None,
    }
}

/// Whether a definition is a candidate for the slot `s`, under the defaults
/// `dflt` of its context.
pub open spec fn contributes(d: NormalTermDefinition, dflt: Defaults, s: SlotView) -> bool {
    match s {
        SlotView::AnyNone => true,
        SlotView::Reverse => d.reverse_property,
        SlotView::TypeAny => !d.reverse_property && d.typ == Some(SyntaxType::<String>::Nothing),
        SlotView::LangAny => !d.reverse_property && d.typ == Some(SyntaxType::<String>::Nothing),
        SlotView::TypeMap(t) => !d.reverse_property && match d.typ {
            Some(u) => u != SyntaxType::<String>::Nothing && type_view(u) == t,
            None => own_lang_dir(d) is None && t == SyntaxType::<Seq<char>>::Nothing,
        },
        SlotView::LangMap(ld) => !d.reverse_property && d.typ is None && match own_lang_dir(d) {
            Some(own) => ld == own,
            None => ld == Nullable::Value((dflt.0, dflt.1)) || ld == Nullable::<(Option<Seq<char>>, Option<Direction>)>::Value((None, None)),
        },
    }
}

/// Whether the definition `e` is a candidate for the slot `s` of the IRI
/// mapping `var` under the container mapping `c`.
pub open spec fn entry_matches(e: (String, NormalTermDefinition), dflt: Defaults, var: TermView, c: Container, s: SlotView) -> bool {
    &&& e.1.value matches Some(v) && term_view(v) == var
    &&& e.1.container == c
    &&& contributes(e.1, dflt, s)
}

/// Whether the term `a` is preferred over `b`: shorter in bytes, or of the
/// same length and byte-wise less.
pub open spec fn term_lt(a: Seq<char>, b: Seq<char>) -> bool {
    shortlex_lt(encode_utf8(a), encode_utf8(b))
}

/// The preferred of a held term and a candidate.
pub open spec fn keep_smaller(held: Option<Seq<char>>, candidate: Seq<char>) -> Option<Seq<char>> {
    match held {
        None => Some(candidate),
        Some(h) => if term_lt(candidate, h) { Some(candidate) } else { Some(h) },
    }
}

/// The term the inverse context of the definitions `defs` holds in a slot:
/// the preferred of the candidate terms.
pub open spec fn slot_value(defs: Seq<(String, NormalTermDefinition)>, dflt: Defaults, var: TermView, c: Container, s: SlotView) -> Option<Seq<char>>
    decreases defs.len(),
{
    if defs.len() == 0 {
        None
    } else {
        let held = slot_value(defs.drop_last(), dflt, var, c, s);
        if entry_matches(defs.last(), dflt, var, c, s) {
            keep_smaller(held, defs.last().0@)
        } else {
            held
        }
    }
}

/// Characters-level view of a selection.
pub enum SelectionView {
    /// See [`Selection::Any`].
    Any,
    /// The slots to try, in order of preference.
    Slots(Seq<SlotView>),
}

/// The slot a type criterion reads.
pub open spec fn type_selection_slot(t: TypeSelection) -> SlotView {
    match t {
        TypeSelection::Reverse => SlotView::Reverse,
        TypeSelection::Any => SlotView::TypeAny,
        TypeSelection::Type(ty) => SlotView::TypeMap(type_view(ty)),
    }
}

/// The slot a language criterion reads.
pub open spec fn lang_selection_slot(l: LangSelection) -> SlotView {
    match l {
        LangSelection::Any => SlotView::LangAny,
        LangSelection::Lang(ld) => SlotView::LangMap(lang_dir_view(ld)),
    }
}

/// The characters-level view of a selection.
pub open spec fn selection_view(sel: Selection) -> SelectionView {
    match sel {
        Selection::Any => SelectionView::Any,
        Selection::Type(v) => SelectionView::Slots(v@.map_values(|t: TypeSelection| type_selection_slot(t))),
        Selection::Lang(v) => SelectionView::Slots(v@.map_values(|l: LangSelection| lang_selection_slot(l))),
    }
}

/// The first slot of `slots` that holds a term, and that term.
pub open spec fn first_held(defs: Seq<(String, NormalTermDefinition)>, dflt: Defaults, var: TermView, c: Container, slots: Seq<SlotView>) -> Option<Seq<char>>
    decreases slots.len(),
{
    if slots.len() == 0 {
        None
    } else {
        match slot_value(defs, dflt, var, c, slots[0]) {
            Some(t) => Some(t),
            None => first_held(defs, dflt, var, c, slots.drop_first()),
        }
    }
}

/// The term selected for `var`: under the first container of `containers`
/// that some definition of `var` uses and that has a term for the
/// selection, the term of the first preferred criterion.
pub open spec fn select_spec(defs: Seq<(String, NormalTermDefinition)>, dflt: Defaults, var: TermView, containers: Seq<Container>, sel: SelectionView) -> Option<Seq<char>>
    decreases containers.len(),
{
    if containers.len() == 0 {
        None
    } else {
        let c = containers[0];
        let found = if slot_value(defs, dflt, var, c, SlotView::AnyNone) is Some {
            match sel {
                SelectionView::Any => slot_value(defs, dflt, var, c, SlotView::AnyNone),
                SelectionView::Slots(slots) => first_held(defs, dflt, var, c, slots),
            }
        } else {
            None
        };
        match found {
            Some(t) => Some(t),
            None => select_spec(defs, dflt, var, containers.drop_first(), sel),
        }
    }
}

/// A copy of `t`.
pub fn clone_term(t: &TermBuf) -> (r: TermBuf)
    ensures
        r == *t,
{
    match t {
        Term::Null => Term::Null,
        Term::Keyword(k) => Term::Keyword(*k),
        Term::Id(Id::Valid(ValidId::Iri(i))) => Term::Id(Id::Valid(ValidId::Iri(i.clone()))),
        Term::Id(Id::Valid(ValidId::Blank(b))) => Term::Id(Id::Valid(ValidId::Blank(b.clone()))),
        Term::Id(Id::Invalid(s)) => Term::Id(Id::Invalid(s.clone())),
    }
}

/// A copy of `t`.
pub fn clone_type(t: &SyntaxType<String>) -> (r: SyntaxType<String>)
    ensures
        r == *t,
{
    match t {
        SyntaxType::Id => SyntaxType::Id,
        SyntaxType::Json => SyntaxType::Json,
        SyntaxType::Nothing => SyntaxType::Nothing,
        SyntaxType::Vocab => SyntaxType::Vocab,
        SyntaxType::Iri(s) => SyntaxType::Iri(s.clone()),
    }
}

/// A copy of `l`.
pub fn clone_opt_string(l: &Option<String>) -> (r: Option<String>)
    ensures
        r == *l,
{
    match l {
        Some(s) => Some(s.clone()),
        None => None,
    }
}

/// Compares two type mappings by their characters.
pub fn type_eq(a: &SyntaxType<String>, b: &SyntaxType<String>) -> (r: bool)
    ensures
        r == (type_view(*a) == type_view(*b)),
{
    match (a, b) {
        (SyntaxType::Id, SyntaxType::Id) => true,
        (SyntaxType::Json, SyntaxType::Json) => true,
        (SyntaxType::Nothing, SyntaxType::Nothing) => true,
        (SyntaxType::Vocab, SyntaxType::Vocab) => true,
        (SyntaxType::Iri(x), SyntaxType::Iri(y)) => *x == *y,
        _ => false,
    }
}

/// Compares two language and direction criteria by their characters.
pub fn lang_dir_eq(a: &LangDir, b: &LangDir) -> (r: bool)
    ensures
        r == (lang_dir_view(*a) == lang_dir_view(*b)),
{
    match (a, b) {
        (Nullable::Null, Nullable::Null) => true,
        (Nullable::Value((la, da)), Nullable::Value((lb, db))) => {
            let same_lang = match (la, lb) {
                (Some(x), Some(y)) => *x == *y,
                (None, None) => true,
                _ => false,
            };
            let same_dir = match (da, db) {
                (Some(x), Some(y)) => *x == *y,
                (None, None) => true,
                _ => false,
            };
            same_lang && same_dir
        },
        _ => false,
    }
}

/// Compares two slots by their characters.
pub fn slot_eq(a: &Slot, b: &Slot) -> (r: bool)
    ensures
        r == (slot_view(*a) == slot_view(*b)),
{
    match (a, b) {
        (Slot::AnyNone, Slot::AnyNone) => true,
        (Slot::Reverse, Slot::Reverse) => true,
        (Slot::TypeAny, Slot::TypeAny) => true,
        (Slot::TypeMap(x), Slot::TypeMap(y)) => type_eq(x, y),
        (Slot::LangAny, Slot::LangAny) => true,
        (Slot::LangMap(x), Slot::LangMap(y)) => lang_dir_eq(x, y),
        _ => false,
    }
}

/// The language and direction slot that a definition's own language and
/// direction mappings select, if it has one of them.
fn own_lang_dir_of(d: &NormalTermDefinition) -> (r: Option<LangDir>)
    ensures
        match r {
            Some(l) => own_lang_dir(*d) == Some(lang_dir_view(l)),
            None => own_lang_dir(*d) is None,
        },
{
    match (&d.language, &d.direction) {
        (Some(Nullable::Value(l)), Some(Nullable::Value(dir))) => Some(Nullable::Value((Some(l.clone()), Some(*dir)))),
        (Some(Nullable::Value(l)), Some(Nullable::Null)) => Some(Nullable::Value((Some(l.clone()), None))),
        (Some(Nullable::Null), Some(Nullable::Value(dir))) => Some(Nullable::Value((None, Some(*dir)))),
        (Some(Nullable::Null), Some(Nullable::Null)) => Some(Nullable::Null),
        (Some(Nullable::Value(l)), None) => Some(Nullable::Value((Some(l.clone()), None))),
        (Some(Nullable::Null), None) => Some(Nullable::Null),
        (None, Some(Nullable::Value(dir))) => Some(Nullable::Value((None, Some(*dir)))),
        (None, Some(Nullable::Null)) => Some(Nullable::Value((None, None))),
        (None, None) => None,
    }
}

/// The slots a definition is a candidate for.
fn contributing_slots(d: &NormalTermDefinition, default_language: &Option<String>, default_direction: Option<Direction>) -> (v: Vec<Slot>)
    ensures
        forall|s: SlotView| #[trigger] contributes(*d, defaults_from(*default_language, default_direction), s)
            <==> exists|i: int| 0 <= i < v@.len() && #[trigger] slot_view(v@[i]) == s,
{
    let ghost dflt: Defaults = defaults_from(*default_language, default_direction);
    let mut v: Vec<Slot> = Vec::new();
    v.push(Slot::AnyNone);
    proof { assert(slot_view(v@[0]) == SlotView::AnyNone); }
    if d.reverse_property {
        v.push(Slot::Reverse);
        proof {
            assert(slot_view(v@[1]) == SlotView::Reverse);
            assert forall|s: SlotView| #[trigger] contributes(*d, dflt, s) <==> exists|i: int| 0 <= i < v@.len() && #[trigger] slot_view(v@[i]) == s by {
                if contributes(*d, dflt, s) {
                    match s {
                        SlotView::AnyNone => { assert(slot_view(v@[0]) == s); },
                        SlotView::Reverse => { assert(slot_view(v@[1]) == s); },
                        _ => {},
                    }
                }
                if exists|i: int| 0 <= i < v@.len() && slot_view(v@[i]) == s {
                    let i = choose|i: int| 0 <= i < v@.len() && slot_view(v@[i]) == s;
                }
            }
        }
        return v;
    }
    match &d.typ {
        Some(SyntaxType::Nothing) => {
            v.push(Slot::TypeAny);
            v.push(Slot::LangAny);
            proof {
                assert(slot_view(v@[1]) == SlotView::TypeAny);
                assert(slot_view(v@[2]) == SlotView::LangAny);
                assert forall|s: SlotView| #[trigger] contributes(*d, dflt, s) <==> exists|i: int| 0 <= i < v@.len() && #[trigger] slot_view(v@[i]) == s by {
                    if contributes(*d, dflt, s) {
                        match s {
                            SlotView::AnyNone => { assert(slot_view(v@[0]) == s); },
                            SlotView::TypeAny => { assert(slot_view(v@[1]) == s); },
                            SlotView::LangAny => { assert(slot_view(v@[2]) == s); },
                            _ => {},
                        }
                    }
                    if exists|i: int| 0 <= i < v@.len() && slot_view(v@[i]) == s {
                        let i = choose|i: int| 0 <= i < v@.len() && slot_view(v@[i]) == s;
                    }
                }
            }
        },
        Some(t) => {
            v.push(Slot::TypeMap(clone_type(t)));
            proof {
                assert(slot_view(v@[1]) == SlotView::TypeMap(type_view(*t)));
                assert forall|s: SlotView| #[trigger] contributes(*d, dflt, s) <==> exists|i: int| 0 <= i < v@.len() && #[trigger] slot_view(v@[i]) == s by {
                    if contributes(*d, dflt, s) {
                        match s {
                            SlotView::AnyNone => { assert(slot_view(v@[0]) == s); },
                            SlotView::TypeMap(_) => { assert(slot_view(v@[1]) == s); },
                            _ => {},
                        }
                    }
                    if exists|i: int| 0 <= i < v@.len() && slot_view(v@[i]) == s {
                        let i = choose|i: int| 0 <= i < v@.len() && slot_view(v@[i]) == s;
                    }
                }
            }
        },
        None => {
            match own_lang_dir_of(d) {
                Some(ld) => {
                    let ghost ldv = lang_dir_view(ld);
                    v.push(Slot::LangMap(ld));
                    proof {
                        assert(slot_view(v@[1]) == SlotView::LangMap(ldv));
                        assert forall|s: SlotView| #[trigger] contributes(*d, dflt, s) <==> exists|i: int| 0 <= i < v@.len() && #[trigger] slot_view(v@[i]) == s by {
                            if contributes(*d, dflt, s) {
                                match s {
                                    SlotView::AnyNone => { assert(slot_view(v@[0]) == s); },
                                    SlotView::LangMap(_) => { assert(slot_view(v@[1]) == s); },
                                    _ => {},
                                }
                            }
                            if exists|i: int| 0 <= i < v@.len() && slot_view(v@[i]) == s {
                                let i = choose|i: int| 0 <= i < v@.len() && slot_view(v@[i]) == s;
                            }
                        }
                    }
                },
                None => {
                    let first = Nullable::Value((clone_opt_string(default_language), default_direction));
                    let ghost fv = lang_dir_view(first);
                    v.push(Slot::LangMap(first));
                    v.push(Slot::LangMap(Nullable::Value((None, None))));
                    v.push(Slot::TypeMap(SyntaxType::Nothing));
                    proof {
                        assert(fv == Nullable::Value((dflt.0, dflt.1)));
                        assert(slot_view(v@[1]) == SlotView::LangMap(fv));
                        assert(slot_view(v@[2]) == SlotView::LangMap(Nullable::Value((None, None))));
                        assert(slot_view(v@[3]) == SlotView::TypeMap(SyntaxType::Nothing));
                        assert forall|s: SlotView| #[trigger] contributes(*d, dflt, s) <==> exists|i: int| 0 <= i < v@.len() && #[trigger] slot_view(v@[i]) == s by {
                            if contributes(*d, dflt, s) {
                                match s {
                                    SlotView::AnyNone => { assert(slot_view(v@[0]) == s); },
                                    SlotView::LangMap(ld) => {
                                        if ld == Nullable::Value((dflt.0, dflt.1)) {
                                            assert(slot_view(v@[1]) == s);
                                        } else {
                                            assert(slot_view(v@[2]) == s);
                                        }
                                    },
                                    SlotView::TypeMap(_) => { assert(slot_view(v@[3]) == s); },
                                    _ => {},
                                }
                            }
                            if exists|i: int| 0 <= i < v@.len() && slot_view(v@[i]) == s {
                                let i = choose|i: int| 0 <= i < v@.len() && slot_view(v@[i]) == s;
                            }
                        }
                    }
                },
            }
        },
    }
    v
}

/// A copy of `s`.
pub fn clone_slot(s: &Slot) -> (r: Slot)
    ensures
        r == *s,
{
    match s {
        Slot::AnyNone => Slot::AnyNone,
        Slot::Reverse => Slot::Reverse,
        Slot::TypeAny => Slot::TypeAny,
        Slot::TypeMap(t) => Slot::TypeMap(clone_type(t)),
        Slot::LangAny => Slot::LangAny,
        Slot::LangMap(Nullable::Null) => Slot::LangMap(Nullable::Null),
        Slot::LangMap(Nullable::Value((l, d))) => Slot::LangMap(Nullable::Value((clone_opt_string(l), *d))),
    }
}

/// One slot of the inverse context and the term it holds.
struct InverseEntry {
    var: TermBuf,
    container: Container,
    slot: Slot,
    term: String,
}

/// Where an entry sits: its IRI mapping, container and slot.
spec fn entry_place(e: InverseEntry) -> (TermView, Container, SlotView) {
    (term_view(e.var), e.container, slot_view(e.slot))
}

/// Whether no two entries sit in the same place.
spec fn places_unique(es: Seq<InverseEntry>) -> bool {
    forall|i: int, j: int| 0 <= i < es.len() && 0 <= j < es.len() && i != j ==> entry_place(es[i]) != entry_place(es[j])
}

/// The term held at a place of `es`, if any.
spec fn held_at(es: Seq<InverseEntry>, var: TermView, c: Container, s: SlotView) -> Option<Seq<char>> {
    if exists|i: int| 0 <= i < es.len() && entry_place(es[i]) == (var, c, s) {
        Some(es[choose|i: int| 0 <= i < es.len() && entry_place(es[i]) == (var, c, s)].term@)
    } else {
        None
    }
}

/// Entries of an inverse context under construction.
struct Entries {
    entries: Vec<InverseEntry>,
}

impl Entries {
    spec fn held(self, var: TermView, c: Container, s: SlotView) -> Option<Seq<char>> {
        held_at(self.entries@, var, c, s)
    }

    fn position(&self, var: &TermBuf, c: Container, slot: &Slot) -> (r: Option<usize>)
        requires
            places_unique(self.entries@),
        ensures
            match r {
                Some(i) => i < self.entries@.len() && entry_place(self.entries@[i as int]) == (term_view(*var), c, slot_view(*slot)),
                None => forall|i: int| 0 <= i < self.entries@.len() ==> entry_place(self.entries@[i]) != (term_view(*var), c, slot_view(*slot)),
            },
    {
        let mut i: usize = 0;
        while i < self.entries.len()
            invariant
                i <= self.entries@.len(),
                forall|j: int| 0 <= j < i ==> entry_place(self.entries@[j]) != (term_view(*var), c, slot_view(*slot)),
            decreases self.entries@.len() - i,
        {
            let e = &self.entries[i];
            if term_eq(&e.var, var) && e.container == c && slot_eq(&e.slot, slot) {
                return Some(i);
            }
            i = i + 1;
        }
        None
    }

    /// Offers `key` for a place: it is kept if the place is empty or holds
    /// a term that `key` is preferred over.
    fn offer(&mut self, var: &TermBuf, c: Container, slot: &Slot, key: &String)
        requires
            places_unique(old(self).entries@),
        ensures
            places_unique(final(self).entries@),
            forall|v: TermView, d: Container, s: SlotView| #![auto]
                final(self).held(v, d, s) == if (v, d, s) == (term_view(*var), c, slot_view(*slot)) {
                    keep_smaller(old(self).held(v, d, s), key@)
                } else {
                    old(self).held(v, d, s)
                },
    {
        let ghost before = self.entries@;
        let ghost place = (term_view(*var), c, slot_view(*slot));
        match self.position(var, c, slot) {
            Some(i) => {
                proof {
                    assert(held_at(before, place.0, place.1, place.2) == Some(before[i as int].term@)) by {
                        let k = choose|k: int| 0 <= k < before.len() && entry_place(before[k]) == place;
                        assert(k == i);
                    }
                }
                let current = self.entries[i].term.as_str().as_bytes();
                if shortlex_less(key.as_str().as_bytes(), current) {
                    let replacement = InverseEntry {
                        var: clone_term(&self.entries[i].var),
                        container: self.entries[i].container,
                        slot: clone_slot(&self.entries[i].slot),
                        term: key.clone(),
                    };
                    self.entries.set(i, replacement);
                    proof {
                        let after = self.entries@;
                        assert(forall|j: int| 0 <= j < after.len() ==> entry_place(after[j]) == entry_place(before[j]));
                        assert forall|v: TermView, d: Container, s: SlotView| #![auto]
                            held_at(after, v, d, s) == if (v, d, s) == place { keep_smaller(held_at(before, v, d, s), key@) } else { held_at(before, v, d, s) } by {
                            if exists|j: int| 0 <= j < before.len() && entry_place(before[j]) == (v, d, s) {
                                let j = choose|j: int| 0 <= j < before.len() && entry_place(before[j]) == (v, d, s);
                                assert(entry_place(after[j]) == (v, d, s));
                                let j2 = choose|j2: int| 0 <= j2 < after.len() && entry_place(after[j2]) == (v, d, s);
                                assert(j2 == j);
                            }
                        }
                    }
                } else {
                }
            },
            None => {
                let entry = InverseEntry {
                    var: clone_term(var),
                    container: c,
                    slot: clone_slot(slot),
                    term: key.clone(),
                };
                self.entries.push(entry);
                proof {
                    let after = self.entries@;
                    assert(entry_place(after[before.len() as int]) == place);
                    assert(forall|j: int| 0 <= j < before.len() ==> after[j] == before[j]);
                    assert forall|v: TermView, d: Container, s: SlotView| #![auto]
                        held_at(after, v, d, s) == if (v, d, s) == place { keep_smaller(held_at(before, v, d, s), key@) } else { held_at(before, v, d, s) } by {
                        if (v, d, s) == place {
                            let j2 = choose|j2: int| 0 <= j2 < after.len() && entry_place(after[j2]) == (v, d, s);
                            assert(j2 == before.len());
                        } else if exists|j: int| 0 <= j < before.len() && entry_place(before[j]) == (v, d, s) {
                            let j = choose|j: int| 0 <= j < before.len() && entry_place(before[j]) == (v, d, s);
                            assert(entry_place(after[j]) == (v, d, s));
                            let j2 = choose|j2: int| 0 <= j2 < after.len() && entry_place(after[j2]) == (v, d, s);
                            assert(j2 == j);
                        } else {
                            assert forall|j: int| 0 <= j < after.len() implies entry_place(after[j]) != (v, d, s) by {
                                if j < before.len() {}
                            }
                        }
                    }
                }
            },
        }
    }
}

/// Inverse context: for every IRI mapping, container, and type or language
/// criterion, the term compaction prefers.
pub struct InverseContext {
    entries: Vec<InverseEntry>,
    source: Ghost<(Seq<(String, NormalTermDefinition)>, Defaults)>,
}

impl InverseContext {
    #[verifier::type_invariant]
    spec fn inv(self) -> bool {
        &&& places_unique(self.entries@)
        &&& forall|v: TermView, d: Container, s: SlotView| #![auto]
            held_at(self.entries@, v, d, s) == slot_value(self.source@.0, self.source@.1, v, d, s)
    }

    /// The definitions and defaults this inverse context was built from.
    pub closed spec fn source(self) -> (Seq<(String, NormalTermDefinition)>, Defaults) {
        self.source@
    }

    /// Builds the inverse of `ctx`.
    pub fn from_context(ctx: &Context) -> (inv: Self)
        ensures
            inv.source() == (ctx.defs(), defaults_of(*ctx)),
    {
        let ghost defs = ctx.defs();
        let ghost dflt = defaults_of(*ctx);
        let n = ctx.len();
        let default_language = clone_opt_string_ref(ctx.default_language());
        let default_direction = ctx.default_base_direction();
        let mut acc = Entries { entries: Vec::new() };
        let mut i: usize = 0;
        while i < n
            invariant
                i <= n,
                n == defs.len(),
                defs == ctx.defs(),
                dflt == defaults_of(*ctx),
                dflt == defaults_from(default_language, default_direction),
                places_unique(acc.entries@),
                forall|v: TermView, d: Container, s: SlotView| #![auto]
                    acc.held(v, d, s) == slot_value(defs.subrange(0, i as int), dflt, v, d, s),
            decreases n - i,
        {
            let (key, def) = ctx.definition_at(i);
            let ghost prev = defs.subrange(0, i as int);
            let ghost next = defs.subrange(0, i + 1);
            proof {
                assert(next.drop_last() =~= prev);
                assert(next.last() == defs[i as int]);
                assert(defs[i as int] == (*key, *def));
            }
            match &def.value {
                Some(var) => {
                    let slots = contributing_slots(def, &default_language, default_direction);
                    let mut k: usize = 0;
                    while k < slots.len()
                        invariant
                            k <= slots@.len(),
                            places_unique(acc.entries@),
                            next.drop_last() == prev,
                            next.len() > 0,
                            next.last() == (*key, *def),
                            def.value == Some(*var),
                            dflt == defaults_from(default_language, default_direction),
                            forall|s: SlotView| #[trigger] contributes(*def, dflt, s)
                                <==> exists|m: int| 0 <= m < slots@.len() && #[trigger] slot_view(slots@[m]) == s,
                            forall|v: TermView, d: Container, s: SlotView| #![auto]
                                acc.held(v, d, s) == if v == term_view(*var) && d == def.container
                                    && exists|m: int| 0 <= m < k && slot_view(slots@[m]) == s {
                                    slot_value(next, dflt, v, d, s)
                                } else {
                                    slot_value(prev, dflt, v, d, s)
                                },
                        decreases slots@.len() - k,
                    {
                        let ghost before = acc;
                        acc.offer(var, def.container, &slots[k], key);
                        proof {
                            let place_s = slot_view(slots@[k as int]);
                            assert(contributes(*def, dflt, place_s));
                            assert forall|v: TermView, d: Container, s: SlotView| #![auto]
                                acc.held(v, d, s) == if v == term_view(*var) && d == def.container
                                    && exists|m: int| 0 <= m < k + 1 && slot_view(slots@[m]) == s {
                                    slot_value(next, dflt, v, d, s)
                                } else {
                                    slot_value(prev, dflt, v, d, s)
                                } by {
                                if v == term_view(*var) && d == def.container && s == place_s {
                                    assert(slot_view(slots@[k as int]) == s);
                                    assert(entry_matches(next.last(), dflt, v, d, s));
                                    if exists|m: int| 0 <= m < k && slot_view(slots@[m]) == s {
                                        let t = before.held(v, d, s);
                                        lemma_keep_smaller_idempotent(slot_value(prev, dflt, v, d, s), key@);
                                    }
                                } else if v == term_view(*var) && d == def.container && (exists|m: int| 0 <= m < k + 1 && slot_view(slots@[m]) == s) {
                                    let m = choose|m: int| 0 <= m < k + 1 && slot_view(slots@[m]) == s;
                                    assert(m < k);
                                }
                            }
                        }
                        k = k + 1;
                    }
                    proof {
                        assert forall|v: TermView, d: Container, s: SlotView| #![auto]
                            acc.held(v, d, s) == slot_value(next, dflt, v, d, s) by {
                            if v == term_view(*var) && d == def.container && contributes(*def, dflt, s) {
                                let m = choose|m: int| 0 <= m < slots@.len() && slot_view(slots@[m]) == s;
                            } else {
                                assert(!entry_matches(next.last(), dflt, v, d, s));
                            }
                        }
                    }
                },
                None => {
                    proof {
                        assert forall|v: TermView, d: Container, s: SlotView| #![auto]
                            acc.held(v, d, s) == slot_value(next, dflt, v, d, s) by {
                            assert(!entry_matches(next.last(), dflt, v, d, s));
                        }
                    }
                },
            }
            i = i + 1;
        }
        proof {
            assert(defs.subrange(0, n as int) =~= defs);
            assert forall|v: TermView, d: Container, s: SlotView| #![auto]
                held_at(acc.entries@, v, d, s) == slot_value(defs, dflt, v, d, s) by {
                assert(acc.held(v, d, s) == slot_value(defs.subrange(0, n as int), dflt, v, d, s));
            }
        }
        InverseContext { entries: acc.entries, source: Ghost((defs, dflt)) }
    }

    /// The term held in a place, if any.
    fn lookup(&self, var: &TermBuf, c: Container, slot: &Slot) -> (r: Option<&String>)
        ensures
            match r {
                Some(t) => slot_value(self.source().0, self.source().1, term_view(*var), c, slot_view(*slot)) == Some(t@),
                None => slot_value(self.source().0, self.source().1, term_view(*var), c, slot_view(*slot)) is None,
            },
    {
        proof { use_type_invariant(self); }
        let mut i: usize = 0;
        let ghost place = (term_view(*var), c, slot_view(*slot));
        while i < self.entries.len()
            invariant
                i <= self.entries@.len(),
                places_unique(self.entries@),
                place == (term_view(*var), c, slot_view(*slot)),
                forall|j: int| 0 <= j < i ==> entry_place(self.entries@[j]) != place,
            decreases self.entries@.len() - i,
        {
            let e = &self.entries[i];
            let same_var = term_eq(&e.var, var);
            let same_container = e.container == c;
            let same_slot = slot_eq(&e.slot, slot);
            if same_var && same_container && same_slot {
                proof {
                    assert(*e == self.entries@[i as int]);
                    assert(term_view(self.entries@[i as int].var) == term_view(*var));
                    assert(self.entries@[i as int].container == c);
                    assert(slot_view(self.entries@[i as int].slot) == slot_view(*slot));
                    assert(entry_place(self.entries@[i as int]) == place);
                    let k = choose|k: int| 0 <= k < self.entries@.len() && entry_place(self.entries@[k]) == place;
                    assert(k == i);
                    assert(held_at(self.entries@, place.0, place.1, place.2) == Some(e.term@));
                    use_type_invariant(self);
                }
                return Some(&e.term);
            }
            i = i + 1;
        }
        proof {
            assert(held_at(self.entries@, place.0, place.1, place.2) is None);
        }
        None
    }

    /// Selects the term `var` compacts to: under the first container of
    /// `containers` in use for `var` that has a term for `selection`, the
    /// term of the first criterion of `selection` that has one.
    pub fn select(&self, var: &TermBuf, containers: &[Container], selection: &Selection) -> (r: Option<&String>)
        ensures
            match r {
                Some(t) => select_spec(self.source().0, self.source().1, term_view(*var), containers@, selection_view(*selection)) == Some(t@),
                None => select_spec(self.source().0, self.source().1, term_view(*var), containers@, selection_view(*selection)) is None,
            },
    {
        let ghost defs = self.source().0;
        let ghost dflt = self.source().1;
        let ghost var_v = term_view(*var);
        let ghost sel = selection_view(*selection);
        let mut i: usize = 0;
        proof {
            assert(containers@.subrange(0, containers@.len() as int) =~= containers@);
        }
        while i < containers.len()
            invariant
                i <= containers@.len(),
                defs == self.source().0,
                dflt == self.source().1,
                var_v == term_view(*var),
                sel == selection_view(*selection),
                select_spec(defs, dflt, var_v, containers@, sel) == select_spec(defs, dflt, var_v, containers@.subrange(i as int, containers@.len() as int), sel),
            decreases containers@.len() - i,
        {
            let c = containers[i];
            let ghost rest = containers@.subrange(i as int, containers@.len() as int);
            proof {
                assert(rest[0] == c);
                assert(rest.drop_first() =~= containers@.subrange(i + 1, containers@.len() as int));
            }
            if let Some(any) = self.lookup(var, c, &Slot::AnyNone) {
                match selection {
                    Selection::Any => {
                        return Some(any);
                    },
                    Selection::Type(prefs) => {
                        let ghost slots = prefs@.map_values(|t: TypeSelection| type_selection_slot(t));
                        let mut k: usize = 0;
                        proof {
                            assert(slots.subrange(0, slots.len() as int) =~= slots);
                        }
                        while k < prefs.len()
                            invariant
                                k <= prefs@.len(),
                                defs == self.source().0,
                                dflt == self.source().1,
                                var_v == term_view(*var),
                                i < containers@.len(),
                                containers@[i as int] == c,
                                slot_value(defs, dflt, var_v, c, SlotView::AnyNone) is Some,
                                sel == selection_view(*selection),
                                sel == SelectionView::Slots(slots),
                                select_spec(defs, dflt, var_v, containers@, sel) == select_spec(defs, dflt, var_v, containers@.subrange(i as int, containers@.len() as int), sel),
                                slots == prefs@.map_values(|t: TypeSelection| type_selection_slot(t)),
                                first_held(defs, dflt, var_v, c, slots) == first_held(defs, dflt, var_v, c, slots.subrange(k as int, slots.len() as int)),
                            decreases prefs@.len() - k,
                        {
                            let slot = match &prefs[k] {
                                TypeSelection::Reverse => Slot::Reverse,
                                TypeSelection::Any => Slot::TypeAny,
                                TypeSelection::Type(t) => Slot::TypeMap(clone_type(t)),
                            };
                            proof {
                                let sub = slots.subrange(k as int, slots.len() as int);
                                assert(sub[0] == slot_view(slot));
                                assert(sub.drop_first() =~= slots.subrange(k + 1, slots.len() as int));
                            }
                            if let Some(t) = self.lookup(var, c, &slot) {
                                return Some(t);
                            }
                            k = k + 1;
                        }
                    },
                    Selection::Lang(prefs) => {
                        let ghost slots = prefs@.map_values(|l: LangSelection| lang_selection_slot(l));
                        let mut k: usize = 0;
                        proof {
                            assert(slots.subrange(0, slots.len() as int) =~= slots);
                        }
                        while k < prefs.len()
                            invariant
                                k <= prefs@.len(),
                                defs == self.source().0,
                                dflt == self.source().1,
                                var_v == term_view(*var),
                                i < containers@.len(),
                                containers@[i as int] == c,
                                slot_value(defs, dflt, var_v, c, SlotView::AnyNone) is Some,
                                sel == selection_view(*selection),
                                sel == SelectionView::Slots(slots),
                                select_spec(defs, dflt, var_v, containers@, sel) == select_spec(defs, dflt, var_v, containers@.subrange(i as int, containers@.len() as int), sel),
                                slots == prefs@.map_values(|l: LangSelection| lang_selection_slot(l)),
                                first_held(defs, dflt, var_v, c, slots) == first_held(defs, dflt, var_v, c, slots.subrange(k as int, slots.len() as int)),
                            decreases prefs@.len() - k,
                        {
                            let slot = match &prefs[k] {
                                LangSelection::Any => Slot::LangAny,
                                LangSelection::Lang(Nullable::Null) => Slot::LangMap(Nullable::Null),
                                LangSelection::Lang(Nullable::Value((l, d))) => Slot::LangMap(Nullable::Value((clone_opt_string(l), *d))),
                            };
                            proof {
                                let sub = slots.subrange(k as int, slots.len() as int);
                                assert(sub[0] == slot_view(slot));
                                assert(sub.drop_first() =~= slots.subrange(k + 1, slots.len() as int));
                            }
                            if let Some(t) = self.lookup(var, c, &slot) {
                                return Some(t);
                            }
                            k = k + 1;
                        }
                    },
                }
            }
            i = i + 1;
        }
        None
    }
}

/// A copy of an optional borrowed string.
fn clone_opt_string_ref(l: Option<&String>) -> (r: Option<String>)
    ensures
        match l { Some(s) => r == Some(*s), None => r is None },
{
    match l {
        Some(s) => Some(s.clone()),
        None => None,
    }
}

proof fn lemma_keep_smaller_idempotent(held: Option<Seq<char>>, key: Seq<char>)
    ensures
        keep_smaller(keep_smaller(held, key), key) == keep_smaller(held, key),
{
    lemma_shortlex_order(encode_utf8(key), encode_utf8(key), encode_utf8(key));
}

/// Two distinct terms are ordered one way or the other.
proof fn lemma_term_lt_total(a: Seq<char>, b: Seq<char>)
    requires
        a != b,
    ensures
        term_lt(a, b) || term_lt(b, a),
{
    broadcast use vstd::utf8::encode_utf8_decode_utf8;
    assert(encode_utf8(a) != encode_utf8(b)) by {
        if encode_utf8(a) == encode_utf8(b) {
            assert(vstd::utf8::decode_utf8(encode_utf8(a)) == a);
            assert(vstd::utf8::decode_utf8(encode_utf8(b)) == b);
        }
    }
    lemma_shortlex_order(encode_utf8(a), encode_utf8(b), encode_utf8(a));
}

/// The term a slot holds is the preferred candidate: the slot is empty
/// exactly when no definition is a candidate, and otherwise holds the key of
/// a candidate that no other candidate is preferred over.
pub proof fn lemma_slot_value_is_min(defs: Seq<(String, NormalTermDefinition)>, dflt: Defaults, var: TermView, c: Container, s: SlotView)
    ensures
        slot_value(defs, dflt, var, c, s) is None <==> !exists|i: int| 0 <= i < defs.len() && entry_matches(defs[i], dflt, var, c, s),
        slot_value(defs, dflt, var, c, s) matches Some(k) ==> (exists|i: int| 0 <= i < defs.len() && entry_matches(defs[i], dflt, var, c, s) && defs[i].0@ == k),
        slot_value(defs, dflt, var, c, s) matches Some(k) ==> (forall|j: int| 0 <= j < defs.len() && entry_matches(defs[j], dflt, var, c, s) ==> !term_lt(#[trigger] defs[j].0@, k)),
    decreases defs.len(),
{
    if defs.len() > 0 {
        let p = defs.drop_last();
        lemma_slot_value_is_min(p, dflt, var, c, s);
        let last = defs.last();
        assert(forall|j: int| 0 <= j < p.len() ==> p[j] == defs[j]);
        if entry_matches(last, dflt, var, c, s) {
            let k = last.0@;
            lemma_shortlex_order(encode_utf8(k), encode_utf8(k), encode_utf8(k));
            match slot_value(p, dflt, var, c, s) {
                None => {
                    assert(entry_matches(defs[defs.len() - 1], dflt, var, c, s));
                    assert forall|j: int| 0 <= j < defs.len() && entry_matches(defs[j], dflt, var, c, s) implies !term_lt(#[trigger] defs[j].0@, k) by {
                        if j < defs.len() - 1 {
                            assert(entry_matches(p[j], dflt, var, c, s));
                        }
                    }
                },
                Some(h) => {
                    if term_lt(k, h) {
                        assert(entry_matches(defs[defs.len() - 1], dflt, var, c, s));
                        assert forall|j: int| 0 <= j < defs.len() && entry_matches(defs[j], dflt, var, c, s) implies !term_lt(#[trigger] defs[j].0@, k) by {
                            if j < defs.len() - 1 {
                                assert(entry_matches(p[j], dflt, var, c, s));
                                assert(!term_lt(p[j].0@, h));
                                lemma_shortlex_order(encode_utf8(defs[j].0@), encode_utf8(k), encode_utf8(h));
                            }
                        }
                    } else {
                        let i = choose|i: int| 0 <= i < p.len() && entry_matches(p[i], dflt, var, c, s) && p[i].0@ == h;
                        assert(defs[i] == p[i]);
                        assert forall|j: int| 0 <= j < defs.len() && entry_matches(defs[j], dflt, var, c, s) implies !term_lt(#[trigger] defs[j].0@, h) by {
                            if j < defs.len() - 1 {
                                assert(entry_matches(p[j], dflt, var, c, s));
                            }
                        }
                    }
                },
            }
        } else {
            if exists|i: int| 0 <= i < defs.len() && entry_matches(defs[i], dflt, var, c, s) {
                let i = choose|i: int| 0 <= i < defs.len() && entry_matches(defs[i], dflt, var, c, s);
                assert(i < defs.len() - 1);
                assert(entry_matches(p[i], dflt, var, c, s));
            }
            if let Some(k) = slot_value(p, dflt, var, c, s) {
                let i = choose|i: int| 0 <= i < p.len() && entry_matches(p[i], dflt, var, c, s) && p[i].0@ == k;
                assert(defs[i] == p[i]);
                assert forall|j: int| 0 <= j < defs.len() && entry_matches(defs[j], dflt, var, c, s) implies !term_lt(#[trigger] defs[j].0@, k) by {
                    if j < defs.len() - 1 {
                        assert(entry_matches(p[j], dflt, var, c, s));
                    }
                }
            }
        }
    }
}

/// Whether the definition `e` is the term `t` with the IRI mapping `var`.
pub open spec fn key_maps(e: (String, NormalTermDefinition), t: Seq<char>, var: TermView) -> bool {
    &&& e.0@ == t
    &&& (e.1.value matches Some(v) && term_view(v) == var)
}

/// A slot of `slots` that holds a term makes `first_held` find one.
proof fn lemma_first_held_found(defs: Seq<(String, NormalTermDefinition)>, dflt: Defaults, var: TermView, c: Container, slots: Seq<SlotView>, k: int)
    requires
        0 <= k < slots.len(),
        slot_value(defs, dflt, var, c, slots[k]) is Some,
    ensures
        first_held(defs, dflt, var, c, slots) is Some,
    decreases slots.len(),
{
    if slot_value(defs, dflt, var, c, slots[0]) is None {
        assert(slots.drop_first()[k - 1] == slots[k]);
        lemma_first_held_found(defs, dflt, var, c, slots.drop_first(), k - 1);
    }
}

/// What `first_held` finds is a term of `defs` with the IRI mapping `var`.
proof fn lemma_first_held_sound(defs: Seq<(String, NormalTermDefinition)>, dflt: Defaults, var: TermView, c: Container, slots: Seq<SlotView>)
    ensures
        first_held(defs, dflt, var, c, slots) matches Some(t) ==> exists|i: int| 0 <= i < defs.len() && #[trigger] key_maps(defs[i], t, var),
    decreases slots.len(),
{
    if slots.len() > 0 {
        lemma_slot_value_is_min(defs, dflt, var, c, slots[0]);
        if let Some(t) = slot_value(defs, dflt, var, c, slots[0]) {
            let i = choose|i: int| 0 <= i < defs.len() && entry_matches(defs[i], dflt, var, c, slots[0]) && defs[i].0@ == t;
            assert(key_maps(defs[i], t, var));
        } else {
            lemma_first_held_sound(defs, dflt, var, c, slots.drop_first());
        }
    }
}

/// The term selected for `var` is always a term with the IRI mapping `var`.
pub proof fn lemma_select_sound(defs: Seq<(String, NormalTermDefinition)>, dflt: Defaults, var: TermView, containers: Seq<Container>, sel: SelectionView)
    ensures
        select_spec(defs, dflt, var, containers, sel) matches Some(t) ==> exists|i: int| 0 <= i < defs.len() && #[trigger] key_maps(defs[i], t, var),
    decreases containers.len(),
{
    if containers.len() > 0 {
        let c = containers[0];
        lemma_slot_value_is_min(defs, dflt, var, c, SlotView::AnyNone);
        match sel {
            SelectionView::Any => {
                if let Some(t) = slot_value(defs, dflt, var, c, SlotView::AnyNone) {
                    let i = choose|i: int| 0 <= i < defs.len() && entry_matches(defs[i], dflt, var, c, SlotView::AnyNone) && defs[i].0@ == t;
                    assert(key_maps(defs[i], t, var));
                }
            },
            SelectionView::Slots(slots) => {
                lemma_first_held_sound(defs, dflt, var, c, slots);
            },
        }
        lemma_select_sound(defs, dflt, var, containers.drop_first(), sel);
    }
}

/// A definition of `var` under one of the containers that is a candidate
/// for one of the preferred slots makes the selection find a term.
pub proof fn lemma_select_complete(
    defs: Seq<(String, NormalTermDefinition)>,
    dflt: Defaults,
    var: TermView,
    containers: Seq<Container>,
    slots: Seq<SlotView>,
    j: int,
    k: int,
    n: int,
)
    requires
        0 <= j < containers.len(),
        0 <= k < slots.len(),
        0 <= n < defs.len(),
        entry_matches(defs[n], dflt, var, containers[j], slots[k]),
        entry_matches(defs[n], dflt, var, containers[j], SlotView::AnyNone),
    ensures
        select_spec(defs, dflt, var, containers, SelectionView::Slots(slots)) is Some,
    decreases containers.len(),
{
    let c = containers[0];
    if j == 0 {
        lemma_slot_value_is_min(defs, dflt, var, c, SlotView::AnyNone);
        lemma_slot_value_is_min(defs, dflt, var, c, slots[k]);
        lemma_first_held_found(defs, dflt, var, c, slots, k);
    } else {
        assert(containers.drop_first()[j - 1] == containers[j]);
        lemma_select_complete(defs, dflt, var, containers.drop_first(), slots, j - 1, k, n);
    }
}

/// The inverse context does not depend on the order of the definitions: two
/// lists holding the same definitions fill every slot with the same term.
pub proof fn lemma_inverse_order_independent(a: Seq<(String, NormalTermDefinition)>, b: Seq<(String, NormalTermDefinition)>, dflt: Defaults, var: TermView, c: Container, s: SlotView)
    requires
        a.to_multiset() == b.to_multiset(),
    ensures
        slot_value(a, dflt, var, c, s) == slot_value(b, dflt, var, c, s),
{
    broadcast use vstd::seq_lib::group_to_multiset_ensures;
    lemma_slot_value_is_min(a, dflt, var, c, s);
    lemma_slot_value_is_min(b, dflt, var, c, s);
    assert(forall|x: (String, NormalTermDefinition)| a.contains(x) <==> b.contains(x)) by {
        assert forall|x: (String, NormalTermDefinition)| a.contains(x) <==> b.contains(x) by {
            vstd::seq_lib::to_multiset_contains(a, x);
            vstd::seq_lib::to_multiset_contains(b, x);
        }
    }
    if exists|i: int| 0 <= i < a.len() && entry_matches(a[i], dflt, var, c, s) {
        let i = choose|i: int| 0 <= i < a.len() && entry_matches(a[i], dflt, var, c, s);
        assert(a.contains(a[i]));
        let j = choose|j: int| 0 <= j < b.len() && b[j] == a[i];
        assert(entry_matches(b[j], dflt, var, c, s));
    }
    if exists|j: int| 0 <= j < b.len() && entry_matches(b[j], dflt, var, c, s) {
        let j = choose|j: int| 0 <= j < b.len() && entry_matches(b[j], dflt, var, c, s);
        assert(b.contains(b[j]));
        let i = choose|i: int| 0 <= i < a.len() && a[i] == b[j];
        assert(entry_matches(a[i], dflt, var, c, s));
    }
    if let (Some(ka), Some(kb)) = (slot_value(a, dflt, var, c, s), slot_value(b, dflt, var, c, s)) {
        let ia = choose|i: int| 0 <= i < a.len() && entry_matches(a[i], dflt, var, c, s) && a[i].0@ == ka;
        let ib = choose|i: int| 0 <= i < b.len() && entry_matches(b[i], dflt, var, c, s) && b[i].0@ == kb;
        assert(a.contains(a[ia]));
        let jb = choose|j: int| 0 <= j < b.len() && b[j] == a[ia];
        assert(!term_lt(b[jb].0@, kb));
        assert(b.contains(b[ib]));
        let ja = choose|j: int| 0 <= j < a.len() && a[j] == b[ib];
        assert(!term_lt(a[ja].0@, ka));
        if ka != kb {
            lemma_term_lt_total(ka, kb);
        }
    }
}

} // verus!
