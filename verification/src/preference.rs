//! IRI compaction for a key that holds a given value: the value decides
//! which container mappings and which type or language mappings are
//! preferred when a term is selected from the inverse context.
use vstd::prelude::*;
use crate::compact::{compact_iri, compact_iri_fallback, compact_iri_spec, fallback_spec, keyless_containers, keyless_selection, maps_to, maps_to_exec, IriConfusedWithPrefix};
use crate::compaction::clone_id;
use crate::container::{Container, Nullable};
use crate::context::{type_key, Context, TermDefinitionRef};
use crate::id::{Id, Term, TermBuf, ValidId};
use crate::inverse::{
    clone_opt_string, clone_term, defaults_of, lang_dir_eq, lang_dir_view, select_spec, selection_view, term_eq, term_view,
    type_eq, type_view, InverseContext, LangDir, LangDirView, LangSelection, Selection, SelectionView, SlotView, TypeSelection,
};
use crate::syntax::{Direction, ProcessingMode};
use crate::text::chars_of;
use crate::value::{LangString, Literal, SyntaxType, Value};

verus! {

broadcast use vstd::string::group_string_axioms;

/// What IRI compaction reads of the object that a key is compacted for.
#[derive(Debug)]
pub enum ObjectShape {
    /// A value object.
    Value(Value<String>),
    /// A node object: its `@id`, if any, and whether it is a graph object.
    Node(Option<Id<String, String>>, bool),
    /// A list object, with its items.
    List(Vec<ObjectShape>),
}

/// An object with its `@index`, if any.
#[derive(Debug)]
pub struct IndexedShape {
    /// The `@index` entry.
    pub index: Option<String>,
    /// The object.
    pub object: ObjectShape,
}

/// A type criterion, by its characters.
pub enum TypeSel {
    /// A reverse property.
    Reverse,
    /// Any type.
    Any,
    /// The given type mapping.
    Type(SyntaxType<Seq<char>>),
}

/// A language criterion, by its characters.
pub enum LangSel {
    /// Any language.
    Any,
    /// The given language and direction.
    Lang(LangDirView),
}

/// The type or language criterion a value prefers.
pub enum Preference {
    /// A type criterion.
    Type(TypeSel),
    /// A language criterion.
    Lang(LangSel),
}

/// The slot of the inverse context a type criterion reads.
pub open spec fn type_sel_slot(t: TypeSel) -> SlotView {
    match t {
        TypeSel::Reverse => SlotView::Reverse,
        TypeSel::Any => SlotView::TypeAny,
        TypeSel::Type(ty) => SlotView::TypeMap(ty),
    }
}

/// The slot of the inverse context a language criterion reads.
pub open spec fn lang_sel_slot(l: LangSel) -> SlotView {
    match l {
        LangSel::Any => SlotView::LangAny,
        LangSel::Lang(ld) => SlotView::LangMap(ld),
    }
}

/// The language of a value object, if it has one.
pub open spec fn value_language(v: Value<String>) -> Option<Seq<char>> {
    match v {
        Value::LangString(s) => s.language_spec(),
        _ => None,
    }
}

/// The base direction of a value object, if it has one.
pub open spec fn value_direction(v: Value<String>) -> Option<Direction> {
    match v {
        Value::LangString(s) => s.direction_spec(),
        _ => None,
    }
}

/// The type of a value object, as a type mapping, if it has one.
pub open spec fn value_type(v: Value<String>) -> Option<SyntaxType<Seq<char>>> {
    match v {
        Value::Literal(_, Some(t)) => Some(SyntaxType::Iri(t@)),
        Value::Json(_) => Some(SyntaxType::Json),
        _ => None,
    }
}

/// The language and direction a list item brings, if any.
pub open spec fn item_lang_dir(o: ObjectShape) -> Option<LangDirView> {
    match o {
        ObjectShape::Value(Value::LangString(s)) => Some(Nullable::Value((s.language_spec(), s.direction_spec()))),
        ObjectShape::Value(Value::Literal(_, None)) => Some(Nullable::Null),
        _ => None,
    }
}

/// The type a list item brings, if any: node objects and lists count as
/// `@id`.
pub open spec fn item_type(o: ObjectShape) -> Option<SyntaxType<Seq<char>>> {
    match o {
        ObjectShape::Value(v) => value_type(v),
        _ => Some(SyntaxType::Id),
    }
}

/// The language and direction, and the type, that the items of a list
/// have in common. The language is unset until an item brings one, and
/// becomes "none" when a value item disagrees; the type is unset before the
/// first item, and becomes "none" (`Some(None)`) when an item disagrees.
pub open spec fn list_common(items: Seq<ObjectShape>) -> (Option<LangDirView>, Option<Option<SyntaxType<Seq<char>>>>)
    decreases items.len(),
{
    if items.len() == 0 {
        (None, None)
    } else {
        let prev = list_common(items.drop_last());
        let o = items.last();
        let l = if prev.0 is None {
            item_lang_dir(o)
        } else if o is Value && prev.0 != item_lang_dir(o) {
            Some(Nullable::Value((None, None)))
        } else {
            prev.0
        };
        let t = if prev.1 is None {
            Some(item_type(o))
        } else if prev.1 != Some(item_type(o)) {
            Some(None)
        } else {
            prev.1
        };
        (l, t)
    }
}

/// Whether a value has an `@index` entry that counts: only when the key is
/// not compacted as a reverse property.
pub open spec fn has_index(value: Option<IndexedShape>, reverse: bool) -> bool {
    !reverse && (value matches Some(v) && v.index is Some)
}

/// Whether the object is a graph object.
pub open spec fn is_graph(o: ObjectShape) -> bool {
    o matches ObjectShape::Node(_, g) && g
}

/// The `@id` of the object, if it is a node object with one.
pub open spec fn object_id(o: ObjectShape) -> Option<Id<String, String>> {
    match o {
        ObjectShape::Node(id, _) => id,
        _ => None,
    }
}

/// The type or language criterion that the value prefers, if any.
pub open spec fn preference(ctx: Context, value: Option<IndexedShape>, reverse: bool) -> Option<Preference> {
    if reverse {
        Some(Preference::Type(TypeSel::Reverse))
    } else {
        let indexed = has_index(value, reverse);
        match value {
            Some(v) => match v.object {
                ObjectShape::List(items) => {
                    if items@.len() == 0 {
                        Some(Preference::Lang(LangSel::Lang(Nullable::Value(defaults_of(ctx)))))
                    } else {
                        let common = list_common(items@);
                        let lang = match common.0 {
                            Some(l) => l,
                            None => Nullable::Value((None, None)),
                        };
                        match common.1 {
                            Some(Some(t)) => Some(Preference::Type(TypeSel::Type(t))),
                            _ => Some(Preference::Lang(LangSel::Lang(lang))),
                        }
                    }
                },
                ObjectShape::Value(val) => {
                    if (value_direction(val) is Some || value_language(val) is Some) && !indexed {
                        Some(Preference::Lang(LangSel::Lang(Nullable::Value((value_language(val), value_direction(val))))))
                    } else {
                        match value_type(val) {
                            Some(t) => Some(Preference::Type(TypeSel::Type(t))),
                            None => None,
                        }
                    }
                },
                _ => Some(Preference::Type(TypeSel::Type(SyntaxType::Id))),
            },
            None => Some(Preference::Type(TypeSel::Type(SyntaxType::Id))),
        }
    }
}

/// Whether the value is a plain value object: no type, language,
/// direction or index.
pub open spec fn is_simple_value(value: Option<IndexedShape>, reverse: bool) -> bool {
    &&& !reverse
    &&& !has_index(value, reverse)
    &&& value matches Some(v) && v.object matches ObjectShape::Value(val) && value_type(val) is None
        && value_language(val) is None && value_direction(val) is None
}

/// The index containers that lead the preferences of an indexed value that
/// is not a graph object.
pub open spec fn index_head(value: Option<IndexedShape>) -> Seq<Container> {
    if value matches Some(v) && v.index is Some && !is_graph(v.object) {
        seq![Container::Index, Container::IndexSet]
    } else {
        seq![]
    }
}

/// The containers that the kind of the value prefers.
pub open spec fn kind_containers(value: Option<IndexedShape>, reverse: bool) -> Seq<Container> {
    let indexed = has_index(value, reverse);
    if reverse {
        seq![Container::SetOnly]
    } else {
        match value {
            Some(v) => match v.object {
                ObjectShape::List(_) => if indexed { seq![] } else { seq![Container::List] },
                ObjectShape::Node(id, true) => {
                    (if indexed { seq![Container::GraphIndex, Container::GraphIndexSet] } else { seq![] })
                        + (if id is Some { seq![Container::GraphId, Container::GraphIdSet] } else { seq![] })
                        + seq![Container::Graph, Container::GraphSet, Container::SetOnly]
                        + (if !indexed { seq![Container::GraphIndex, Container::GraphIndexSet] } else { seq![] })
                        + (if id is None { seq![Container::GraphId, Container::GraphIdSet] } else { seq![] })
                        + seq![Container::Index, Container::IndexSet]
                },
                ObjectShape::Value(val) => {
                    (if (value_direction(val) is Some || value_language(val) is Some) && !indexed {
                        seq![Container::Language, Container::LanguageSet]
                    } else {
                        seq![]
                    }) + seq![Container::SetOnly]
                },
                _ => seq![Container::Id, Container::IdSet, Container::Type, Container::SetType, Container::SetOnly],
            },
            None => seq![Container::Id, Container::IdSet, Container::Type, Container::SetType, Container::SetOnly],
        }
    }
}

/// The containers every value accepts last: none, then the index
/// containers for a value without index and the language containers for a
/// plain value, under JSON-LD 1.1.
pub open spec fn trailing_containers(value: Option<IndexedShape>, reverse: bool, mode: ProcessingMode) -> Seq<Container> {
    seq![Container::Empty]
        + (if mode != ProcessingMode::JsonLd1_0 && !has_index(value, reverse) { seq![Container::Index, Container::IndexSet] } else { seq![] })
        + (if mode != ProcessingMode::JsonLd1_0 && is_simple_value(value, reverse) {
            seq![Container::Language, Container::LanguageSet]
        } else {
            seq![]
        })
}

/// The container mappings preferred for the value, most preferred first.
pub open spec fn containers_for(value: Option<IndexedShape>, reverse: bool, mode: ProcessingMode) -> Seq<Container> {
    index_head(value) + kind_containers(value, reverse) + trailing_containers(value, reverse, mode)
}

/// Whether the term `t` of `ctx` maps back to the identifier `id`.
pub open spec fn maps_back(ctx: Context, t: Seq<char>, id: Id<String, String>) -> bool {
    &&& t != type_key()
    &&& ctx.lookup(t) matches Some(d) && d.value matches Some(v) && term_view(v) == term_view(Term::Id(id))
}

/// Whether the value is an empty list.
pub open spec fn is_empty_list(value: Option<IndexedShape>) -> bool {
    value matches Some(v) && v.object matches ObjectShape::List(items) && items@.len() == 0
}

/// The criteria, most preferred first, under which a term is selected for
/// the value; `Err` when compacting the value's `@id` fails.
pub open spec fn selection_for(ctx: Context, value: Option<IndexedShape>, reverse: bool, mode: ProcessingMode) -> Result<SelectionView, ()> {
    if is_empty_list(value) {
        Ok(SelectionView::Any)
    } else {
        match preference(ctx, value, reverse) {
            Some(Preference::Type(tv)) => {
                let head = if tv == TypeSel::Reverse { seq![SlotView::Reverse] } else { seq![] };
                let id = match value {
                    Some(v) => object_id(v.object),
                    None => None,
                };
                if id is Some && (tv == TypeSel::Type(SyntaxType::Id) || tv == TypeSel::Reverse) {
                    match compact_iri_spec(ctx, Term::Id(id.unwrap()), true, false, mode) {
                        Err(_) => Err(()),
                        Ok(c) => {
                            let vocab = c matches Some(t) && maps_back(ctx, t, id.unwrap());
                            let mid = if vocab {
                                seq![SlotView::TypeMap(SyntaxType::Vocab), SlotView::TypeMap(SyntaxType::Id)]
                            } else {
                                seq![SlotView::TypeMap(SyntaxType::Id), SlotView::TypeMap(SyntaxType::Vocab)]
                            };
                            Ok(SelectionView::Slots(head + mid + seq![SlotView::TypeMap(SyntaxType::Nothing), SlotView::TypeAny]))
                        },
                    }
                } else {
                    Ok(SelectionView::Slots(head + seq![type_sel_slot(tv), SlotView::TypeMap(SyntaxType::Nothing), SlotView::TypeAny]))
                }
            },
            Some(Preference::Lang(lv)) => {
                let base = seq![lang_sel_slot(lv), SlotView::LangMap(Nullable::Value((None, None))), SlotView::LangAny];
                Ok(SelectionView::Slots(match lv {
                    LangSel::Lang(Nullable::Value((Some(_), Some(d)))) => base.push(SlotView::LangMap(Nullable::Value((None, Some(d))))),
                    _ => base,
                }))
            },
            None => Ok(SelectionView::Slots(seq![
                SlotView::LangMap(Nullable::Null),
                SlotView::LangMap(Nullable::Value((None, None))),
                SlotView::LangAny,
            ])),
        }
    }
}

/// What IRI compaction makes of `var` used as the key of `value`.
pub open spec fn compact_iri_full_spec(
    ctx: Context,
    var: TermBuf,
    value: Option<IndexedShape>,
    vocab: bool,
    reverse: bool,
    mode: ProcessingMode,
) -> Result<Option<Seq<char>>, ()> {
    if var is Null {
        Ok(None)
    } else if vocab && maps_to(ctx, term_view(var)) {
        match selection_for(ctx, value, reverse, mode) {
            Err(_) => Err(()),
            Ok(sel) => match select_spec(ctx.defs(), defaults_of(ctx), term_view(var), containers_for(value, reverse, mode), sel) {
                Some(t) => Ok(Some(t)),
                None => fallback_spec(ctx, var, value is None, vocab),
            },
        }
    } else {
        fallback_spec(ctx, var, value is None, vocab)
    }
}

/// The value an optional reference points to.
pub open spec fn deref_shape(value: Option<&IndexedShape>) -> Option<IndexedShape> {
    match value {
        Some(v) => Some(*v),
        None => None,
    }
}

/// Characters-level view of an optional language criterion.
pub open spec fn opt_lang_dir_view(l: Option<LangDir>) -> Option<LangDirView> {
    match l {
        Some(x) => Some(lang_dir_view(x)),
        None => None,
    }
}

/// Characters-level view of an optional type mapping.
pub open spec fn opt_type_view(t: Option<SyntaxType<String>>) -> Option<SyntaxType<Seq<char>>> {
    match t {
        Some(x) => Some(type_view(x)),
        None => None,
    }
}

/// Characters-level view of the common type of list items.
pub open spec fn common_type_view(t: Option<Option<SyntaxType<String>>>) -> Option<Option<SyntaxType<Seq<char>>>> {
    match t {
        Some(x) => Some(opt_type_view(x)),
        None => None,
    }
}

/// A type or language criterion, by its strings.
enum Pref {
    Type(TypeSelection),
    Lang(LangSelection),
}

/// Characters-level view of a type criterion.
spec fn type_sel_view(t: TypeSelection) -> TypeSel {
    match t {
        TypeSelection::Reverse => TypeSel::Reverse,
        TypeSelection::Any => TypeSel::Any,
        TypeSelection::Type(ty) => TypeSel::Type(type_view(ty)),
    }
}

/// Characters-level view of a language criterion.
spec fn lang_sel_view(l: LangSelection) -> LangSel {
    match l {
        LangSelection::Any => LangSel::Any,
        LangSelection::Lang(ld) => LangSel::Lang(lang_dir_view(ld)),
    }
}

/// Characters-level view of an optional criterion.
spec fn pref_view(p: Option<Pref>) -> Option<Preference> {
    match p {
        Some(Pref::Type(t)) => Some(Preference::Type(type_sel_view(t))),
        Some(Pref::Lang(l)) => Some(Preference::Lang(lang_sel_view(l))),
        None => None,
    }
}

/// Compares two optional language criteria by their characters.
fn opt_lang_dir_eq(a: &Option<LangDir>, b: &Option<LangDir>) -> (r: bool)
    ensures
        r == (opt_lang_dir_view(*a) == opt_lang_dir_view(*b)),
{
    match (a, b) {
        (Some(x), Some(y)) => lang_dir_eq(x, y),
        (None, None) => true,
        _ => false,
    }
}

/// Compares two optional type mappings by their characters.
fn opt_type_eq(a: &Option<SyntaxType<String>>, b: &Option<SyntaxType<String>>) -> (r: bool)
    ensures
        r == (opt_type_view(*a) == opt_type_view(*b)),
{
    match (a, b) {
        (Some(x), Some(y)) => type_eq(x, y),
        (None, None) => true,
        _ => false,
    }
}

/// A copy of an optional borrowed string.
fn copy_opt_string(l: Option<&String>) -> (r: Option<String>)
    ensures
        match l {
            Some(s) => r matches Some(t) && t@ == s@,
            None => r is None,
        },
{
    match l {
        Some(s) => Some(s.clone()),
        None => None,
    }
}

/// The language and direction of a language-tagged string, as a criterion.
fn lang_string_lang_dir(s: &LangString) -> (r: LangDir)
    ensures
        lang_dir_view(r) == Nullable::Value((s.language_spec(), s.direction_spec())),
{
    Nullable::Value((copy_opt_string(s.language()), s.direction()))
}

/// The type of a value object, as a type mapping.
fn value_type_of(v: &Value<String>) -> (r: Option<SyntaxType<String>>)
    ensures
        opt_type_view(r) == value_type(*v),
{
    match v {
        Value::Literal(_, Some(t)) => Some(SyntaxType::Iri(t.clone())),
        Value::Json(_) => Some(SyntaxType::Json),
        _ => None,
    }
}

/// The language and direction a list item brings.
fn item_lang_dir_of(o: &ObjectShape) -> (r: Option<LangDir>)
    ensures
        opt_lang_dir_view(r) == item_lang_dir(*o),
{
    match o {
        ObjectShape::Value(Value::LangString(s)) => Some(lang_string_lang_dir(s)),
        ObjectShape::Value(Value::Literal(_, None)) => Some(Nullable::Null),
        _ => None,
    }
}

/// The type a list item brings.
fn item_type_of(o: &ObjectShape) -> (r: Option<SyntaxType<String>>)
    ensures
        opt_type_view(r) == item_type(*o),
{
    match o {
        ObjectShape::Value(v) => value_type_of(v),
        _ => Some(SyntaxType::Id),
    }
}

/// The language and direction, and the type, common to list items.
fn list_common_of(items: &Vec<ObjectShape>) -> (r: (Option<LangDir>, Option<Option<SyntaxType<String>>>))
    ensures
        (opt_lang_dir_view(r.0), common_type_view(r.1)) == list_common(items@),
{
    let mut common_lang: Option<LangDir> = None;
    let mut common_type: Option<Option<SyntaxType<String>>> = None;
    let mut i: usize = 0;
    proof {
        assert(items@.subrange(0, 0) =~= Seq::<ObjectShape>::empty());
    }
    while i < items.len()
        invariant
            i <= items@.len(),
            (opt_lang_dir_view(common_lang), common_type_view(common_type)) == list_common(items@.subrange(0, i as int)),
        decreases items.len() - i,
    {
        let o = &items[i];
        let lang = item_lang_dir_of(o);
        let ty = item_type_of(o);
        let is_value = match o {
            ObjectShape::Value(_) => true,
            _ => false,
        };
        proof {
            let next = items@.subrange(0, i + 1);
            assert(next.drop_last() =~= items@.subrange(0, i as int));
            assert(next.last() == items@[i as int]);
        }
        if common_lang.is_none() {
            common_lang = lang;
        } else if is_value && !opt_lang_dir_eq(&common_lang, &lang) {
            common_lang = Some(Nullable::Value((None, None)));
        }
        let differs = match &common_type {
            Some(t) => !opt_type_eq(t, &ty),
            None => false,
        };
        if common_type.is_none() {
            common_type = Some(ty);
        } else if differs {
            common_type = Some(None);
        }
        i = i + 1;
    }
    proof {
        assert(items@.subrange(0, i as int) =~= items@);
    }
    (common_lang, common_type)
}

/// The type or language criterion the value prefers.
fn preference_of(ctx: &Context, value: Option<&IndexedShape>, reverse: bool) -> (r: Option<Pref>)
    ensures
        pref_view(r) == preference(*ctx, deref_shape(value), reverse),
{
    if reverse {
        return Some(Pref::Type(TypeSelection::Reverse));
    }
    let indexed = match value {
        Some(v) => v.index.is_some(),
        None => false,
    };
    match value {
        Some(v) => match &v.object {
            ObjectShape::List(items) => {
                if items.len() == 0 {
                    let d = (copy_opt_string(ctx.default_language()), ctx.default_base_direction());
                    return Some(Pref::Lang(LangSelection::Lang(Nullable::Value(d))));
                }
                let (common_lang, common_type) = list_common_of(items);
                let lang = match common_lang {
                    Some(l) => l,
                    None => Nullable::Value((None, None)),
                };
                match common_type {
                    Some(Some(t)) => Some(Pref::Type(TypeSelection::Type(t))),
                    _ => Some(Pref::Lang(LangSelection::Lang(lang))),
                }
            },
            ObjectShape::Value(val) => {
                if (val.direction().is_some() || val.language().is_some()) && !indexed {
                    let d = (copy_opt_string(val.language()), val.direction());
                    Some(Pref::Lang(LangSelection::Lang(Nullable::Value(d))))
                } else {
                    match value_type_of(val) {
                        Some(t) => Some(Pref::Type(TypeSelection::Type(t))),
                        None => None,
                    }
                }
            },
            _ => Some(Pref::Type(TypeSelection::Type(SyntaxType::Id))),
        },
        None => Some(Pref::Type(TypeSelection::Type(SyntaxType::Id))),
    }
}

/// The index containers that lead the preferences of the value.
fn index_head_of(value: Option<&IndexedShape>) -> (r: Vec<Container>)
    ensures
        r@ == index_head(deref_shape(value)),
{
    let mut c: Vec<Container> = Vec::new();
    if let Some(v) = value {
        let graph = match &v.object {
            ObjectShape::Node(_, g) => *g,
            _ => false,
        };
        if v.index.is_some() && !graph {
            c.push(Container::Index);
            c.push(Container::IndexSet);
        }
    }
    proof {
        assert(c@ =~= index_head(deref_shape(value)));
    }
    c
}

/// The containers preferred for a graph object.
fn graph_containers(id_present: bool, indexed: bool) -> (r: Vec<Container>)
    ensures
        r@ == (if indexed { seq![Container::GraphIndex, Container::GraphIndexSet] } else { seq![] })
            + (if id_present { seq![Container::GraphId, Container::GraphIdSet] } else { seq![] })
            + seq![Container::Graph, Container::GraphSet, Container::SetOnly]
            + (if !indexed { seq![Container::GraphIndex, Container::GraphIndexSet] } else { seq![] })
            + (if !id_present { seq![Container::GraphId, Container::GraphIdSet] } else { seq![] })
            + seq![Container::Index, Container::IndexSet],
{
    let mut c: Vec<Container> = Vec::new();
    if indexed {
        c.push(Container::GraphIndex);
        c.push(Container::GraphIndexSet);
    }
    if id_present {
        c.push(Container::GraphId);
        c.push(Container::GraphIdSet);
    }
    c.push(Container::Graph);
    c.push(Container::GraphSet);
    c.push(Container::SetOnly);
    if !indexed {
        c.push(Container::GraphIndex);
        c.push(Container::GraphIndexSet);
    }
    if !id_present {
        c.push(Container::GraphId);
        c.push(Container::GraphIdSet);
    }
    c.push(Container::Index);
    c.push(Container::IndexSet);
    proof {
        let spec = (if indexed { seq![Container::GraphIndex, Container::GraphIndexSet] } else { seq![] })
            + (if id_present { seq![Container::GraphId, Container::GraphIdSet] } else { seq![] })
            + seq![Container::Graph, Container::GraphSet, Container::SetOnly]
            + (if !indexed { seq![Container::GraphIndex, Container::GraphIndexSet] } else { seq![] })
            + (if !id_present { seq![Container::GraphId, Container::GraphIdSet] } else { seq![] })
            + seq![Container::Index, Container::IndexSet];
        assert(c@ =~= spec);
    }
    c
}

/// The containers that the kind of the value prefers.
fn kind_containers_of(value: Option<&IndexedShape>, reverse: bool) -> (r: Vec<Container>)
    ensures
        r@ == kind_containers(deref_shape(value), reverse),
{
    let indexed = !reverse && match value {
        Some(v) => v.index.is_some(),
        None => false,
    };
    let mut c: Vec<Container> = Vec::new();
    let ghost spec = kind_containers(deref_shape(value), reverse);
    if reverse {
        c.push(Container::SetOnly);
        proof { assert(c@ =~= spec); }
        return c;
    }
    let no_value = value.is_none();
    if !no_value {
        let v = value.unwrap();
        match &v.object {
            ObjectShape::List(_) => {
                if !indexed {
                    c.push(Container::List);
                }
                proof { assert(c@ =~= spec); }
                return c;
            },
            ObjectShape::Node(id, true) => {
                return graph_containers(id.is_some(), indexed);
            },
            ObjectShape::Value(val) => {
                if (val.direction().is_some() || val.language().is_some()) && !indexed {
                    c.push(Container::Language);
                    c.push(Container::LanguageSet);
                }
                c.push(Container::SetOnly);
                proof { assert(c@ =~= spec); }
                return c;
            },
            _ => {},
        }
    }
    c.push(Container::Id);
    c.push(Container::IdSet);
    c.push(Container::Type);
    c.push(Container::SetType);
    c.push(Container::SetOnly);
    proof { assert(c@ =~= spec); }
    c
}

/// Whether the value is a plain value object.
fn is_simple(value: Option<&IndexedShape>, reverse: bool) -> (b: bool)
    ensures
        b == is_simple_value(deref_shape(value), reverse),
{
    if reverse {
        return false;
    }
    match value {
        Some(v) => match &v.object {
            ObjectShape::Value(val) => val.typ().is_none() && val.language().is_none() && val.direction().is_none()
                && v.index.is_none(),
            _ => false,
        },
        None => false,
    }
}

/// The container mappings preferred for the value, most preferred first.
fn containers_of(value: Option<&IndexedShape>, reverse: bool, mode: ProcessingMode) -> (r: Vec<Container>)
    ensures
        r@ == containers_for(deref_shape(value), reverse, mode),
{
    let mut c = index_head_of(value);
    let mut mid = kind_containers_of(value, reverse);
    c.append(&mut mid);
    let ghost before = c@;
    let indexed = !reverse && match value {
        Some(v) => v.index.is_some(),
        None => false,
    };
    c.push(Container::Empty);
    if mode != ProcessingMode::JsonLd1_0 && !indexed {
        c.push(Container::Index);
        c.push(Container::IndexSet);
    }
    if mode != ProcessingMode::JsonLd1_0 && is_simple(value, reverse) {
        c.push(Container::Language);
        c.push(Container::LanguageSet);
    }
    proof {
        let v = deref_shape(value);
        assert(c@ =~= before + trailing_containers(v, reverse, mode));
    }
    c
}

/// Whether the term `t` of `ctx` maps back to `id`.
fn maps_back_exec(ctx: &Context, t: &String, id: &Id<String, String>) -> (b: bool)
    ensures
        b == maps_back(*ctx, t@, *id),
{
    let cs = chars_of(t.as_str());
    match ctx.get(cs.as_slice()) {
        Some(TermDefinitionRef::Normal(d)) => match &d.value {
            Some(v) => term_eq(v, &Term::Id(clone_id(id))),
            None => false,
        },
        _ => false,
    }
}

/// The criteria under which a term is selected for the value.
fn selection_of(ctx: &Context, value: Option<&IndexedShape>, reverse: bool, mode: ProcessingMode) -> (r: Result<Selection, IriConfusedWithPrefix>)
    ensures
        match (r, selection_for(*ctx, deref_shape(value), reverse, mode)) {
            (Ok(s), Ok(v)) => selection_view(s) == v,
            (Err(_), Err(_)) => true,
            _ => false,
        },
{
    let empty_list = match value {
        Some(v) => match &v.object {
            ObjectShape::List(items) => items.len() == 0,
            _ => false,
        },
        None => false,
    };
    if empty_list {
        return Ok(Selection::Any);
    }
    let ghost spec = selection_for(*ctx, deref_shape(value), reverse, mode);
    match preference_of(ctx, value, reverse) {
        Some(Pref::Type(tv)) => {
            let is_reverse = match &tv {
                TypeSelection::Reverse => true,
                _ => false,
            };
            let is_id = match &tv {
                TypeSelection::Type(SyntaxType::Id) => true,
                _ => false,
            };
            let ghost tv_view = type_sel_view(tv);
            let mut sel: Vec<TypeSelection> = Vec::new();
            if is_reverse {
                sel.push(TypeSelection::Reverse);
            }
            let ghost head = sel@;
            let id: Option<&Id<String, String>> = match value {
                Some(v) => match &v.object {
                    ObjectShape::Node(Some(id), _) => Some(id),
                    _ => None,
                },
                None => None,
            };
            let mut with_id = false;
            if let Some(id) = id {
                if is_id || is_reverse {
                    with_id = true;
                    let c = match compact_iri(ctx, &Term::Id(clone_id(id)), true, false, mode) {
                        Ok(c) => c,
                        Err(e) => return Err(e),
                    };
                    let vocab = match &c {
                        Some(t) => maps_back_exec(ctx, t, id),
                        None => false,
                    };
                    if vocab {
                        sel.push(TypeSelection::Type(SyntaxType::Vocab));
                        sel.push(TypeSelection::Type(SyntaxType::Id));
                    } else {
                        sel.push(TypeSelection::Type(SyntaxType::Id));
                        sel.push(TypeSelection::Type(SyntaxType::Vocab));
                    }
                    sel.push(TypeSelection::Type(SyntaxType::Nothing));
                }
            }
            if !with_id {
                sel.push(tv);
                sel.push(TypeSelection::Type(SyntaxType::Nothing));
            }
            sel.push(TypeSelection::Any);
            proof {
                let slots = sel@.map_values(|t: TypeSelection| crate::inverse::type_selection_slot(t));
                assert(spec matches Ok(SelectionView::Slots(x)) && slots =~= x);
            }
            Ok(Selection::Type(sel))
        },
        Some(Pref::Lang(lv)) => {
            let extra = match &lv {
                LangSelection::Lang(Nullable::Value((Some(_), Some(d)))) => Some(*d),
                _ => None,
            };
            let mut sel: Vec<LangSelection> = Vec::new();
            sel.push(lv);
            sel.push(LangSelection::Lang(Nullable::Value((None, None))));
            sel.push(LangSelection::Any);
            if let Some(d) = extra {
                sel.push(LangSelection::Lang(Nullable::Value((None, Some(d)))));
            }
            proof {
                let slots = sel@.map_values(|l: LangSelection| crate::inverse::lang_selection_slot(l));
                assert(spec matches Ok(SelectionView::Slots(x)) && slots =~= x);
            }
            Ok(Selection::Lang(sel))
        },
        None => {
            let mut sel: Vec<LangSelection> = Vec::new();
            sel.push(LangSelection::Lang(Nullable::Null));
            sel.push(LangSelection::Lang(Nullable::Value((None, None))));
            sel.push(LangSelection::Any);
            proof {
                let slots = sel@.map_values(|l: LangSelection| crate::inverse::lang_selection_slot(l));
                assert(spec matches Ok(SelectionView::Slots(x)) && slots =~= x);
            }
            Ok(Selection::Lang(sel))
        },
    }
}

/// Runs the IRI compaction algorithm on `var`, used as the key of `value`
/// when there is one.
///
/// Returns the shortest key that expands back to `var` under `ctx`: a term
/// of the inverse context whose container, type or language mapping suits
/// the value if one is compatible, otherwise a compact IRI, a
/// `@vocab`-relative suffix, a base-relative IRI reference, or `var`
/// itself; `None` when `var` is null. `vocab` says `@vocab` applies;
/// `reverse` restricts the selection to reverse properties.
pub fn compact_iri_full(
    ctx: &Context,
    var: &TermBuf,
    value: Option<&IndexedShape>,
    vocab: bool,
    reverse: bool,
    mode: ProcessingMode,
) -> (r: Result<Option<String>, IriConfusedWithPrefix>)
    ensures
        match (r, compact_iri_full_spec(*ctx, *var, deref_shape(value), vocab, reverse, mode)) {
            (Ok(Some(s)), Ok(Some(t))) => s@ == t,
            (Ok(None), Ok(None)) => true,
            (Err(_), Err(_)) => true,
            _ => false,
        },
{
    if var.is_null() {
        return Ok(None);
    }
    if vocab && maps_to_exec(ctx, var) {
        let containers = containers_of(value, reverse, mode);
        let selection = match selection_of(ctx, value, reverse, mode) {
            Ok(s) => s,
            Err(e) => return Err(e),
        };
        let inverse = InverseContext::from_context(ctx);
        match inverse.select(var, containers.as_slice(), &selection) {
            Some(t) => Ok(Some(t.clone())),
            None => compact_iri_fallback(ctx, var, value.is_none(), vocab),
        }
    } else {
        compact_iri_fallback(ctx, var, value.is_none(), vocab)
    }
}

/// Compacts `var` into the term best suited to holding `value`.
pub fn compact_iri_with(
    ctx: &Context,
    var: &TermBuf,
    value: &IndexedShape,
    vocab: bool,
    reverse: bool,
    mode: ProcessingMode,
) -> (r: Result<Option<String>, IriConfusedWithPrefix>)
    ensures
        match (r, compact_iri_full_spec(*ctx, *var, Some(*value), vocab, reverse, mode)) {
            (Ok(Some(s)), Ok(Some(t))) => s@ == t,
            (Ok(None), Ok(None)) => true,
            (Err(_), Err(_)) => true,
            _ => false,
        },
{
    compact_iri_full(ctx, var, Some(value), vocab, reverse, mode)
}

/// Compacting a key for no value is compacting it with no value at all:
/// [`compact_iri`] is the no-value case of [`compact_iri_full`].
pub proof fn lemma_keyless_is_valueless(ctx: Context, var: TermBuf, vocab: bool, reverse: bool, mode: ProcessingMode)
    ensures
        compact_iri_full_spec(ctx, var, None, vocab, reverse, mode) == compact_iri_spec(ctx, var, vocab, reverse, mode),
{
    assert(containers_for(None, reverse, mode) =~= keyless_containers(reverse, mode));
    let slots = keyless_selection(reverse).map_values(|t: TypeSelection| crate::inverse::type_selection_slot(t));
    assert(selection_for(ctx, None, reverse, mode) matches Ok(SelectionView::Slots(x)) && x =~= slots);
}

} // verus!
