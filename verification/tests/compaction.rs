use jsonld::compact::{candidate_beats, compact_iri, disambiguate_keyword};
use jsonld::container::Container;
use jsonld::context::{Context, NormalTermDefinition};
use jsonld::id::{Id, Term, TermBuf, ValidId};
use jsonld::syntax::{Keyword, ProcessingMode};

fn iri_term(s: &str) -> TermBuf {
    Term::Id(Id::Valid(ValidId::Iri(s.to_string())))
}

#[test]
fn compact_iri_cache_distinguishes_processing_modes() {
    let term = iri_term("http://example.com/t");
    let mut context = Context::new(None);
    let mut definition = NormalTermDefinition::new(Some(term.clone()));
    definition.container = Container::Index;
    context.set_normal("t".to_string(), Some(definition));

    let compacted_1_1 = compact_iri(&context, &term, true, false, ProcessingMode::JsonLd1_1).unwrap();
    let compacted_1_0 = compact_iri(&context, &term, true, false, ProcessingMode::JsonLd1_0).unwrap();

    assert_eq!(compacted_1_1.as_deref(), Some("t"));
    assert_eq!(compacted_1_0.as_deref(), Some("http://example.com/t"));
}

#[test]
fn relativization_of_base_with_trailing_slash_is_not_empty() {
    let term = iri_term("http://example.com/dir/");
    let mut context = Context::new(None);
    context.set_base_iri(Some("http://example.com/dir/".to_string()));

    let compacted = compact_iri(&context, &term, false, false, ProcessingMode::JsonLd1_1).unwrap();
    assert_eq!(compacted.as_deref(), Some("./"));
}

#[test]
fn compact_iri_of_null_is_none() {
    let context = Context::new(None);
    assert_eq!(compact_iri(&context, &Term::Null, true, false, ProcessingMode::JsonLd1_1).unwrap(), None);
}

#[test]
fn compact_iri_uses_a_prefix_term() {
    let mut context = Context::new(None);
    let mut definition = NormalTermDefinition::new(Some(iri_term("http://example.com/ns#")));
    definition.prefix = true;
    context.set_normal("ex".to_string(), Some(definition));
    let compacted = compact_iri(&context, &iri_term("http://example.com/ns#name"), true, false, ProcessingMode::JsonLd1_1).unwrap();
    assert_eq!(compacted.as_deref(), Some("ex:name"));
}

#[test]
fn compact_iri_uses_the_vocabulary_mapping() {
    let mut context = Context::new(None);
    context.set_vocabulary(Some(iri_term("http://example.com/vocab/")));
    let compacted = compact_iri(&context, &iri_term("http://example.com/vocab/name"), true, false, ProcessingMode::JsonLd1_1).unwrap();
    assert_eq!(compacted.as_deref(), Some("name"));
}

#[test]
fn compact_iri_keyword_without_alias_is_itself() {
    let context = Context::new(None);
    let compacted = compact_iri(&context, &Term::Keyword(Keyword::Type), true, false, ProcessingMode::JsonLd1_1).unwrap();
    assert_eq!(compacted.as_deref(), Some("@type"));
}

#[test]
fn candidate_order_is_shortest_then_lexicographic() {
    assert!(candidate_beats("ab", "abc"));
    assert!(candidate_beats("ab", "ac"));
    assert!(!candidate_beats("ac", "ab"));
    assert!(!candidate_beats("abc", "ab"));
    assert!(!candidate_beats("ab", "ab"));
}

#[test]
fn keyword_shaped_compaction_is_escaped() {
    assert_eq!(disambiguate_keyword("@foo".to_string()), "./@foo");
    assert_eq!(disambiguate_keyword("@type".to_string()), "@type");
    assert_eq!(disambiguate_keyword("name".to_string()), "name");
}

fn prefix_context(prefixes: &[(&str, &str)]) -> Context {
    let mut context = Context::new(None);
    for (key, iri) in prefixes {
        let mut definition = NormalTermDefinition::new(Some(iri_term(iri)));
        definition.prefix = true;
        context.set_normal(key.to_string(), Some(definition));
    }
    context
}

#[test]
fn the_preferred_compact_iri_does_not_depend_on_definition_order() {
    let target = iri_term("http://example.com/ns/a/name");
    let prefixes = [("long", "http://example.com/ns/"), ("b", "http://example.com/ns/a/"), ("a", "http://example.com/ns/a/")];
    let forward = prefix_context(&prefixes);
    let mut reversed_prefixes = prefixes;
    reversed_prefixes.reverse();
    let backward = prefix_context(&reversed_prefixes);
    let f = compact_iri(&forward, &target, false, false, ProcessingMode::JsonLd1_1).unwrap();
    let b = compact_iri(&backward, &target, false, false, ProcessingMode::JsonLd1_1).unwrap();
    assert_eq!(f.as_deref(), Some("a:name"));
    assert_eq!(b.as_deref(), Some("a:name"));
}
