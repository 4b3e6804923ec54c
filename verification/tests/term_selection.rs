use jsonld::compact::compact_iri;
use jsonld::container::{Container, Nullable};
use jsonld::context::{Context, NormalTermDefinition};
use jsonld::id::{Id, Term, TermBuf, ValidId};
use jsonld::preference::{compact_iri_full, compact_iri_with, IndexedShape, ObjectShape};
use jsonld::syntax::ProcessingMode;
use jsonld::value::{LangString, Literal, SyntaxType, Value};

const MODE: ProcessingMode = ProcessingMode::JsonLd1_1;

fn iri_term(s: &str) -> TermBuf {
    Term::Id(Id::Valid(ValidId::Iri(s.to_string())))
}

fn label_context() -> Context {
    let mut ctx = Context::new(None);
    ctx.set_normal("label".to_string(), Some(NormalTermDefinition::new(Some(iri_term("http://example.com/label")))));
    let mut en = NormalTermDefinition::new(Some(iri_term("http://example.com/label")));
    en.language = Some(Nullable::Value("en".to_string()));
    ctx.set_normal("label_en".to_string(), Some(en));
    ctx
}

fn shape(object: ObjectShape) -> IndexedShape {
    IndexedShape { index: None, object }
}

#[test]
fn language_value_selects_the_term_with_that_language() {
    let ctx = label_context();
    let var = iri_term("http://example.com/label");
    let en = shape(ObjectShape::Value(Value::LangString(LangString::new("hi".to_string(), Some("en".to_string()), None).unwrap())));
    assert_eq!(compact_iri_with(&ctx, &var, &en, true, false, MODE).unwrap().as_deref(), Some("label_en"));
    let plain = shape(ObjectShape::Value(Value::Literal(Literal::String("hi".to_string()), None)));
    assert_eq!(compact_iri_with(&ctx, &var, &plain, true, false, MODE).unwrap().as_deref(), Some("label"));
}

#[test]
fn list_value_selects_the_list_container_term() {
    let mut ctx = Context::new(None);
    let mut list = NormalTermDefinition::new(Some(iri_term("http://example.com/items")));
    list.container = Container::List;
    ctx.set_normal("itemList".to_string(), Some(list));
    ctx.set_normal("items".to_string(), Some(NormalTermDefinition::new(Some(iri_term("http://example.com/items")))));
    let var = iri_term("http://example.com/items");
    let value = shape(ObjectShape::List(vec![ObjectShape::Value(Value::Literal(Literal::String("a".to_string()), None))]));
    assert_eq!(compact_iri_with(&ctx, &var, &value, true, false, MODE).unwrap().as_deref(), Some("itemList"));
    let node = shape(ObjectShape::Node(None, false));
    assert_eq!(compact_iri_with(&ctx, &var, &node, true, false, MODE).unwrap().as_deref(), Some("items"));
}

#[test]
fn node_reference_prefers_an_id_typed_term() {
    let mut ctx = Context::new(None);
    let mut by_id = NormalTermDefinition::new(Some(iri_term("http://example.com/knows")));
    by_id.typ = Some(SyntaxType::Id);
    ctx.set_normal("knowsRef".to_string(), Some(by_id));
    ctx.set_normal("knows".to_string(), Some(NormalTermDefinition::new(Some(iri_term("http://example.com/knows")))));
    let var = iri_term("http://example.com/knows");
    let node = shape(ObjectShape::Node(Some(Id::Valid(ValidId::Iri("http://example.com/bob".to_string()))), false));
    assert_eq!(compact_iri_with(&ctx, &var, &node, true, false, MODE).unwrap().as_deref(), Some("knowsRef"));
}

#[test]
fn without_a_value_full_compaction_is_key_compaction() {
    let ctx = label_context();
    for var in [iri_term("http://example.com/label"), iri_term("http://example.com/other"), Term::Null] {
        for vocab in [true, false] {
            let a = compact_iri_full(&ctx, &var, None, vocab, false, MODE).unwrap();
            let b = compact_iri(&ctx, &var, vocab, false, MODE).unwrap();
            assert_eq!(a, b);
        }
    }
}
