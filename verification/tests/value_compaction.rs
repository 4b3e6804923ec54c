use jsonld::compaction::{
    add_value, collect_compacted, compact_indexed_value_with, compact_node_id, compact_node_index, compact_types, compact_value,
    keyword_alias, value_value, Error, NodeStart,
    Options,
};
use jsonld::container::{Container, Nullable};
use jsonld::context::{Context, NormalTermDefinition, TypeTermDefinition};
use jsonld::id::{Id, Term, TermBuf, ValidId};
use jsonld::json::{clone_json, Json};
use jsonld::local::{ContextDefinition, ContextEntry, LocalContext};
use jsonld::process::Error as ProcessingError;
use jsonld::syntax::{Direction, Keyword, ProcessingMode};
use jsonld::value::{LangString, Literal, SyntaxType, Value};
use jsonld::warning::{Warning, WarningBuf};

const MODE: ProcessingMode = ProcessingMode::JsonLd1_1;

fn iri_term(s: &str) -> TermBuf {
    Term::Id(Id::Valid(ValidId::Iri(s.to_string())))
}

fn s(x: &str) -> Json {
    Json::String(x.to_string())
}

fn obj(entries: Vec<(&str, Json)>) -> Json {
    Json::Object(entries.into_iter().map(|(k, v)| (k.to_string(), v)).collect())
}

fn empty_definition() -> ContextDefinition {
    ContextDefinition {
        base: None,
        import: None,
        language: None,
        direction: None,
        propagate: None,
        protected: None,
        type_: None,
        version: false,
        vocab: None,
        bindings: Vec::new(),
    }
}

fn plain(text: &str) -> Value<String> {
    Value::Literal(Literal::String(text.to_string()), None)
}

fn tagged(text: &str, lang: Option<&str>, dir: Option<Direction>) -> Value<String> {
    Value::LangString(LangString::new(text.to_string(), lang.map(|l| l.to_string()), dir).unwrap())
}

#[test]
fn keyword_alias_is_the_aliasing_term_or_the_keyword() {
    let mut ctx = Context::new(None);
    assert_eq!(keyword_alias(&ctx, MODE, Keyword::Type), "@type");
    ctx.set_normal("type".to_string(), Some(NormalTermDefinition::new(Some(Term::Keyword(Keyword::Type)))));
    assert_eq!(keyword_alias(&ctx, MODE, Keyword::Type), "type");
    assert_eq!(keyword_alias(&ctx, MODE, Keyword::Value), "@value");
}

#[test]
fn plain_string_compacts_to_itself() {
    let ctx = Context::new(None);
    let r = compact_value(&ctx, MODE, &plain("hello"), None, None).unwrap();
    assert_eq!(r, s("hello"));
}

#[test]
fn plain_string_under_a_default_language_keeps_its_value_object() {
    let mut ctx = Context::new(None);
    ctx.set_default_language(Some("en".to_string()));
    let r = compact_value(&ctx, MODE, &plain("hello"), None, None).unwrap();
    assert_eq!(r, obj(vec![("@value", s("hello"))]));
}

#[test]
fn numbers_and_booleans_compact_to_scalars() {
    let ctx = Context::new(None);
    let n = Value::Literal(Literal::Number("42".to_string()), None);
    assert_eq!(compact_value(&ctx, MODE, &n, None, None).unwrap(), Json::Number("42".to_string()));
    let b = Value::Literal(Literal::Boolean(true), None);
    assert_eq!(compact_value(&ctx, MODE, &b, None, None).unwrap(), Json::Boolean(true));
    let z: Value<String> = Value::null();
    assert_eq!(compact_value(&ctx, MODE, &z, None, None).unwrap(), Json::Null);
}

#[test]
fn typed_literal_keeps_its_compacted_type() {
    let mut ctx = Context::new(None);
    let mut d = NormalTermDefinition::new(Some(iri_term("http://www.w3.org/2001/XMLSchema#")));
    d.prefix = true;
    ctx.set_normal("xsd".to_string(), Some(d));
    let v = Value::Literal(Literal::String("2020-01-01".to_string()), Some("http://www.w3.org/2001/XMLSchema#date".to_string()));
    let r = compact_value(&ctx, MODE, &v, None, None).unwrap();
    assert_eq!(r, obj(vec![("@value", s("2020-01-01")), ("@type", s("xsd:date"))]));
}

#[test]
fn typed_literal_matching_the_type_mapping_is_bare() {
    let mut ctx = Context::new(None);
    let mut d = NormalTermDefinition::new(Some(iri_term("http://example.com/date")));
    d.typ = Some(SyntaxType::Iri("http://www.w3.org/2001/XMLSchema#date".to_string()));
    ctx.set_normal("date".to_string(), Some(d));
    let v = Value::Literal(Literal::String("2020-01-01".to_string()), Some("http://www.w3.org/2001/XMLSchema#date".to_string()));
    let r = compact_value(&ctx, MODE, &v, None, Some("date")).unwrap();
    assert_eq!(r, s("2020-01-01"));
}

#[test]
fn language_string_matching_the_property_language_is_bare() {
    let mut ctx = Context::new(None);
    let mut d = NormalTermDefinition::new(Some(iri_term("http://example.com/label")));
    d.language = Some(Nullable::Value("en".to_string()));
    ctx.set_normal("label".to_string(), Some(d));
    let en = tagged("hello", Some("en"), None);
    assert_eq!(compact_value(&ctx, MODE, &en, None, Some("label")).unwrap(), s("hello"));
    let fr = tagged("bonjour", Some("fr"), None);
    assert_eq!(
        compact_value(&ctx, MODE, &fr, None, Some("label")).unwrap(),
        obj(vec![("@value", s("bonjour")), ("@language", s("fr"))])
    );
}

#[test]
fn language_string_with_direction_spells_both_out() {
    let ctx = Context::new(None);
    let v = tagged("hello", Some("en"), Some(Direction::Rtl));
    assert_eq!(
        compact_value(&ctx, MODE, &v, None, None).unwrap(),
        obj(vec![("@value", s("hello")), ("@language", s("en")), ("@direction", s("rtl"))])
    );
}

#[test]
fn json_literal_under_a_json_property_is_bare() {
    let mut ctx = Context::new(None);
    let mut d = NormalTermDefinition::new(Some(iri_term("http://example.com/data")));
    d.typ = Some(SyntaxType::Json);
    ctx.set_normal("data".to_string(), Some(d));
    let payload = Json::Array(vec![Json::Boolean(true), s("x")]);
    let v = Value::Json(clone_json(&payload));
    assert_eq!(compact_value(&ctx, MODE, &v, None, Some("data")).unwrap(), payload);
    assert_eq!(
        compact_value(&ctx, MODE, &v, None, None).unwrap(),
        obj(vec![("@value", Json::Array(vec![Json::Boolean(true), s("x")])), ("@type", s("@json"))])
    );
}

#[test]
fn index_is_kept_unless_the_property_is_an_index_container() {
    let mut ctx = Context::new(None);
    let mut d = NormalTermDefinition::new(Some(iri_term("http://example.com/p")));
    d.container = Container::Index;
    ctx.set_normal("byIndex".to_string(), Some(d));
    let v = plain("x");
    assert_eq!(compact_value(&ctx, MODE, &v, Some("i1"), Some("byIndex")).unwrap(), s("x"));
    assert_eq!(
        compact_value(&ctx, MODE, &v, Some("i1"), None).unwrap(),
        obj(vec![("@value", s("x")), ("@index", s("i1"))])
    );
}

#[test]
fn datatype_confused_with_a_prefix_is_an_error() {
    let mut ctx = Context::new(None);
    ctx.set_normal("http".to_string(), Some(NormalTermDefinition::new(Some(iri_term("http://other.example/")))));
    let v = Value::Literal(Literal::String("x".to_string()), Some("http://example.com/dt".to_string()));
    assert_eq!(compact_value(&ctx, MODE, &v, None, None), Err(Error::IriConfusedWithPrefix));
}

#[test]
fn scoped_context_of_the_property_applies_to_its_values() {
    let mut ctx = Context::new(None);
    let mut d = NormalTermDefinition::new(Some(iri_term("http://example.com/label")));
    let mut scoped = empty_definition();
    scoped.language = Some(Nullable::Value("fr".to_string()));
    d.context = Some(Box::new(LocalContext::One(ContextEntry::Definition(scoped))));
    ctx.set_normal("label".to_string(), Some(d));
    let mut warnings: WarningBuf<Warning> = WarningBuf::new();
    let v = tagged("bonjour", Some("fr"), None);
    let r = compact_indexed_value_with(&v, None, &ctx, Some("label"), Options::default_options(), &mut warnings).unwrap();
    assert_eq!(r, s("bonjour"));
    let r = compact_indexed_value_with(&v, None, &ctx, None, Options::default_options(), &mut warnings).unwrap();
    assert_eq!(r, obj(vec![("@value", s("bonjour")), ("@language", s("fr"))]));
}

#[test]
fn remote_scoped_context_fails_to_process() {
    let mut ctx = Context::new(None);
    let mut d = NormalTermDefinition::new(Some(iri_term("http://example.com/p")));
    d.context = Some(Box::new(LocalContext::One(ContextEntry::IriRef("http://example.com/ctx".to_string()))));
    ctx.set_normal("p".to_string(), Some(d));
    let mut warnings: WarningBuf<Warning> = WarningBuf::new();
    let r = compact_indexed_value_with(&plain("x"), None, &ctx, Some("p"), Options::default_options(), &mut warnings);
    assert_eq!(r, Err(Error::ContextProcessing(ProcessingError::LoadingDocumentFailed)));
}

#[test]
fn value_value_is_the_value_entry() {
    assert_eq!(value_value(&plain("a")), s("a"));
    assert_eq!(value_value(&tagged("b", Some("en"), None)), s("b"));
    assert_eq!(value_value(&Value::Json(Json::Null)), Json::Null);
}

#[test]
fn add_value_creates_and_grows_entries() {
    let mut map: Vec<(String, Json)> = Vec::new();
    add_value(&mut map, "a", s("1"), false);
    assert_eq!(Json::Object(map.iter().map(|(k, v)| (k.clone(), clone_json(v))).collect()), obj(vec![("a", s("1"))]));
    add_value(&mut map, "a", s("2"), false);
    add_value(&mut map, "a", s("3"), false);
    add_value(&mut map, "b", s("x"), true);
    assert_eq!(
        Json::Object(map),
        obj(vec![("a", Json::Array(vec![s("1"), s("2"), s("3")])), ("b", Json::Array(vec![s("x")]))])
    );
}

#[test]
fn add_value_flattens_arrays() {
    let mut map: Vec<(String, Json)> = Vec::new();
    add_value(&mut map, "a", Json::Array(vec![]), false);
    assert!(map.is_empty());
    add_value(&mut map, "a", Json::Array(vec![s("1")]), false);
    assert_eq!(Json::Object(map.iter().map(|(k, v)| (k.clone(), clone_json(v))).collect()), obj(vec![("a", s("1"))]));
    add_value(&mut map, "a", Json::Array(vec![Json::Array(vec![s("2")]), s("3")]), false);
    assert_eq!(Json::Object(map), obj(vec![("a", Json::Array(vec![s("1"), s("2"), s("3")]))]));
}

#[test]
fn compact_types_adds_one_or_many_types() {
    let mut ctx = Context::new(None);
    ctx.set_vocabulary(Some(iri_term("http://example.com/")));
    let types = vec![Id::Valid(ValidId::Iri("http://example.com/Person".to_string()))];
    let mut result: Vec<(String, Json)> = Vec::new();
    compact_types(&mut result, Some(types.as_slice()), &ctx, &ctx, Options::default_options()).unwrap();
    assert_eq!(Json::Object(result), obj(vec![("@type", s("Person"))]));

    let two = vec![
        Id::Valid(ValidId::Iri("http://example.com/A".to_string())),
        Id::Valid(ValidId::Iri("http://example.com/B".to_string())),
    ];
    let mut result: Vec<(String, Json)> = Vec::new();
    compact_types(&mut result, Some(two.as_slice()), &ctx, &ctx, Options::default_options()).unwrap();
    assert_eq!(Json::Object(result), obj(vec![("@type", Json::Array(vec![s("A"), s("B")]))]));

    let mut result: Vec<(String, Json)> = Vec::new();
    compact_types(&mut result, None, &ctx, &ctx, Options::default_options()).unwrap();
    assert!(result.is_empty());
}

#[test]
fn compact_types_honours_a_set_container_on_type() {
    let mut ctx = Context::new(None);
    ctx.set_vocabulary(Some(iri_term("http://example.com/")));
    ctx.set_type(Some(TypeTermDefinition { container_set: true, protected: false }));
    let types = vec![Id::Valid(ValidId::Iri("http://example.com/Person".to_string()))];
    let mut result: Vec<(String, Json)> = Vec::new();
    compact_types(&mut result, Some(types.as_slice()), &ctx, &ctx, Options::default_options()).unwrap();
    assert_eq!(Json::Object(result), obj(vec![("@type", Json::Array(vec![s("Person")]))]));
}

#[test]
fn collections_of_one_item_are_the_item() {
    let ctx = Context::new(None);
    let options = Options::default_options();
    assert_eq!(collect_compacted(vec![s("a")], &ctx, None, options), s("a"));
    assert_eq!(collect_compacted(vec![Json::Null, s("a"), Json::Null], &ctx, None, options), s("a"));
    assert_eq!(collect_compacted(vec![s("a"), s("b")], &ctx, None, options), Json::Array(vec![s("a"), s("b")]));
    assert_eq!(collect_compacted(vec![s("a")], &ctx, Some("@graph"), options), Json::Array(vec![s("a")]));
    let mut no_compaction = options;
    no_compaction.compact_arrays = false;
    assert_eq!(collect_compacted(vec![s("a")], &ctx, None, no_compaction), Json::Array(vec![s("a")]));
}

#[test]
fn collections_under_a_set_container_stay_arrays() {
    let mut ctx = Context::new(None);
    let mut d = NormalTermDefinition::new(Some(iri_term("http://example.com/p")));
    d.container = Container::SetOnly;
    ctx.set_normal("p".to_string(), Some(d));
    assert_eq!(
        collect_compacted(vec![s("a")], &ctx, Some("p"), Options::default_options()),
        Json::Array(vec![s("a")])
    );
}

#[test]
fn value_object_accessors() {
    let v = Value::Literal(Literal::String("x".to_string()), Some("http://example.com/t".to_string()));
    assert_eq!(v.as_str(), Some("x"));
    assert_eq!(v.literal_type().map(|t| t.as_str()), Some("http://example.com/t"));
    assert!(v.language().is_none());
    let mut w = v;
    assert_eq!(w.set_literal_type(None).as_deref(), Some("http://example.com/t"));
    assert!(w.literal_type().is_none());
    let l = tagged("y", Some("en"), Some(Direction::Ltr));
    assert_eq!(l.language().map(|s| s.as_str()), Some("en"));
    assert_eq!(l.direction(), Some(Direction::Ltr));
    assert!(l.typ().is_none());
    assert!(LangString::new("z".to_string(), None, None).is_err());
    assert_eq!(Literal::Number("1.5".to_string()).into_json(), Json::Number("1.5".to_string()));
}

#[test]
fn node_without_id_starts_empty() {
    let ctx = Context::new(None);
    match compact_node_id(&ctx, None, false, None, MODE).unwrap() {
        NodeStart::Entries(e) => assert!(e.is_empty()),
        NodeStart::Reference(_) => panic!("a node without @id is no reference"),
    }
}

#[test]
fn node_id_starts_the_object_under_its_alias() {
    let mut ctx = Context::new(None);
    ctx.set_normal("id".to_string(), Some(NormalTermDefinition::new(Some(Term::Keyword(Keyword::Id)))));
    let id = Id::Valid(ValidId::Iri("http://example.org/a".to_string()));
    match compact_node_id(&ctx, Some(&id), true, None, MODE).unwrap() {
        NodeStart::Entries(e) => {
            assert_eq!(e.len(), 1);
            assert_eq!(e[0].0, "id");
            assert_eq!(e[0].1, s("http://example.org/a"));
        }
        NodeStart::Reference(_) => panic!("no @id type mapping here"),
    }
}

#[test]
fn reference_under_an_id_typed_property_is_a_string() {
    let mut ctx = Context::new(None);
    let mut d = NormalTermDefinition::new(Some(iri_term("http://example.org/knows")));
    d.typ = Some(SyntaxType::Id);
    ctx.set_normal("knows".to_string(), Some(d));
    let id = Id::Valid(ValidId::Iri("http://example.org/b".to_string()));
    match compact_node_id(&ctx, Some(&id), true, Some("knows"), MODE).unwrap() {
        NodeStart::Reference(j) => assert_eq!(j, s("http://example.org/b")),
        NodeStart::Entries(_) => panic!("a bare reference under an @id property is a string"),
    }
    match compact_node_id(&ctx, Some(&id), false, Some("knows"), MODE).unwrap() {
        NodeStart::Entries(e) => assert_eq!(e[0].0, "@id"),
        NodeStart::Reference(_) => panic!("a node with more entries keeps its object"),
    }
}

#[test]
fn node_index_is_kept_unless_the_container_is_an_index_map() {
    let mut ctx = Context::new(None);
    let mut plain_prop = NormalTermDefinition::new(Some(iri_term("http://example.org/p")));
    plain_prop.container = Container::Empty;
    ctx.set_normal("p".to_string(), Some(plain_prop));
    let mut indexed = NormalTermDefinition::new(Some(iri_term("http://example.org/q")));
    indexed.container = Container::Index;
    ctx.set_normal("q".to_string(), Some(indexed));

    let mut e: Vec<(String, Json)> = Vec::new();
    compact_node_index(&mut e, Some("i1"), &ctx, Some("p"), MODE);
    assert_eq!(e, vec![("@index".to_string(), s("i1"))]);

    let mut e2: Vec<(String, Json)> = Vec::new();
    compact_node_index(&mut e2, Some("i1"), &ctx, Some("q"), MODE);
    assert!(e2.is_empty());

    let mut e3: Vec<(String, Json)> = Vec::new();
    compact_node_index(&mut e3, None, &ctx, Some("p"), MODE);
    assert!(e3.is_empty());
}
