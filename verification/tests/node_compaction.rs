use jsonld::compaction::{compact_reverse_entries, node_active_context, type_scope_order, Error, Options};
use jsonld::container::{Container, Nullable};
use jsonld::context::{Context, NormalTermDefinition};
use jsonld::id::{Id, Term, TermBuf, ValidId};
use jsonld::json::Json;
use jsonld::local::{ContextDefinition, ContextEntry, LocalContext};
use jsonld::process::Error as ProcessingError;
use jsonld::syntax::{ErrorCode, Keyword, ProcessingMode};
use jsonld::warning::{Warning, WarningBuf};

const MODE: ProcessingMode = ProcessingMode::JsonLd1_1;

fn iri(s: &str) -> Id<String, String> {
    Id::Valid(ValidId::Iri(s.to_string()))
}

fn iri_term(s: &str) -> TermBuf {
    Term::Id(iri(s))
}

fn s(x: &str) -> Json {
    Json::String(x.to_string())
}

fn definition_with_language(lang: &str) -> ContextDefinition {
    ContextDefinition {
        base: None,
        import: None,
        language: Some(Nullable::Value(lang.to_string())),
        direction: None,
        propagate: None,
        protected: None,
        type_: None,
        version: false,
        vocab: None,
        bindings: Vec::new(),
    }
}

fn scoped(lang: &str) -> Option<Box<LocalContext>> {
    Some(Box::new(LocalContext::One(ContextEntry::Definition(definition_with_language(lang)))))
}

#[test]
fn types_are_ordered_by_their_compacted_terms() {
    let mut ctx = Context::new(None);
    ctx.set_normal("Zebra".to_string(), Some(NormalTermDefinition::new(Some(iri_term("http://example.org/Z")))));
    ctx.set_normal("Apple".to_string(), Some(NormalTermDefinition::new(Some(iri_term("http://example.org/A")))));
    let types = vec![iri("http://example.org/Z"), iri("http://example.org/other"), iri("http://example.org/A")];
    let order = type_scope_order(&ctx, &types, MODE).unwrap();
    assert_eq!(order, vec!["Apple".to_string(), "Zebra".to_string(), "http://example.org/other".to_string()]);
}

#[test]
fn a_type_confused_with_a_prefix_fails_the_order() {
    let mut ctx = Context::new(None);
    ctx.set_normal("http".to_string(), Some(NormalTermDefinition::new(Some(iri_term("http://other.example/")))));
    let types = vec![iri("http://example.org/T")];
    assert_eq!(type_scope_order(&ctx, &types, MODE), Err(Error::IriConfusedWithPrefix));
}

#[test]
fn without_scoped_contexts_the_node_keeps_the_active_context() {
    let mut ctx = Context::new(None);
    ctx.set_default_language(Some("en".to_string()));
    let mut warnings: WarningBuf<Warning> = WarningBuf::new();
    let c = node_active_context(&ctx, &ctx, &[], false, None, Options::default_options(), &mut warnings).unwrap();
    assert_eq!(c.default_language(), Some(&"en".to_string()));
}

#[test]
fn a_new_node_reverts_to_the_previous_context() {
    let mut previous = Context::new(None);
    previous.set_default_language(Some("en".to_string()));
    let mut ctx = Context::new(None);
    ctx.set_default_language(Some("de".to_string()));
    ctx.set_previous_context(previous);
    let mut warnings: WarningBuf<Warning> = WarningBuf::new();
    let c = node_active_context(&ctx, &ctx, &[], false, None, Options::default_options(), &mut warnings).unwrap();
    assert_eq!(c.default_language(), Some(&"en".to_string()));
    let c = node_active_context(&ctx, &ctx, &[], true, None, Options::default_options(), &mut warnings).unwrap();
    assert_eq!(c.default_language(), Some(&"de".to_string()));
}

#[test]
fn scoped_contexts_of_the_property_and_types_apply_in_order() {
    let mut ctx = Context::new(None);
    let mut p = NormalTermDefinition::new(Some(iri_term("http://example.org/p")));
    p.context = scoped("fr");
    ctx.set_normal("p".to_string(), Some(p));
    let mut a = NormalTermDefinition::new(Some(iri_term("http://example.org/A")));
    a.context = scoped("it");
    ctx.set_normal("A".to_string(), Some(a));
    let mut b = NormalTermDefinition::new(Some(iri_term("http://example.org/B")));
    b.context = scoped("es");
    ctx.set_normal("B".to_string(), Some(b));
    let mut warnings: WarningBuf<Warning> = WarningBuf::new();

    let c = node_active_context(&ctx, &ctx, &[], false, Some("p"), Options::default_options(), &mut warnings).unwrap();
    assert_eq!(c.default_language(), Some(&"fr".to_string()));

    let types = vec![iri("http://example.org/B"), iri("http://example.org/A")];
    let c = node_active_context(&ctx, &ctx, &types, false, Some("p"), Options::default_options(), &mut warnings).unwrap();
    assert_eq!(c.default_language(), Some(&"es".to_string()));
    assert!(c.previous_context().is_some());
}

#[test]
fn reverse_entries_go_to_the_node_or_under_reverse() {
    let mut ctx = Context::new(None);
    let mut child = NormalTermDefinition::new(Some(iri_term("http://example.org/parent")));
    child.reverse_property = true;
    ctx.set_normal("children".to_string(), Some(child));
    let mut result: Vec<(String, Json)> = vec![("@id".to_string(), s("http://example.org/x"))];
    let reverse = vec![("children".to_string(), s("http://example.org/c")), ("http://example.org/knows".to_string(), s("y"))];
    compact_reverse_entries(&mut result, reverse, &ctx, Options::default_options());
    assert_eq!(
        result,
        vec![
            ("@id".to_string(), s("http://example.org/x")),
            ("children".to_string(), s("http://example.org/c")),
            ("@reverse".to_string(), Json::Object(vec![("http://example.org/knows".to_string(), s("y"))])),
        ]
    );
}

#[test]
fn reverse_entries_under_a_set_container_stay_arrays() {
    let mut ctx = Context::new(None);
    let mut child = NormalTermDefinition::new(Some(iri_term("http://example.org/parent")));
    child.reverse_property = true;
    child.container = Container::SetOnly;
    ctx.set_normal("children".to_string(), Some(child));
    ctx.set_normal("rev".to_string(), Some(NormalTermDefinition::new(Some(Term::Keyword(Keyword::Reverse)))));
    let mut result: Vec<(String, Json)> = Vec::new();
    compact_reverse_entries(&mut result, vec![("children".to_string(), s("c1"))], &ctx, Options::default_options());
    assert_eq!(result, vec![("children".to_string(), Json::Array(vec![s("c1")]))]);

    let mut result2: Vec<(String, Json)> = Vec::new();
    compact_reverse_entries(&mut result2, vec![("other".to_string(), s("o"))], &ctx, Options::default_options());
    assert_eq!(result2, vec![("rev".to_string(), Json::Object(vec![("other".to_string(), s("o"))]))]);
}


#[test]
fn errors_report_their_json_ld_codes() {
    assert_eq!(Error::IriConfusedWithPrefix.code(), ErrorCode::IriConfusedWithPrefix);
    assert_eq!(Error::CollidingEntry.code(), ErrorCode::ConflictingIndexes);
    assert_eq!(Error::ContextProcessing(ProcessingError::ForbiddenVocab).code(), ErrorCode::InvalidVocabMapping);
    assert_eq!(ProcessingError::CyclicIriMapping.code(), ErrorCode::CyclicIriMapping);
}
