use jsonld::container::Nullable;
use jsonld::context::{Context, NormalTermDefinition};
use jsonld::expand::{Action, Expandable};
use jsonld::expand::expand_iri_simple;
use jsonld::id::{Id, Term, ValidId};
use jsonld::syntax::Keyword;
use jsonld::warning::{MalformedIri, WarningBuf};

fn expand(ctx: &Context, s: &str, document_relative: bool, vocab: Option<Action>) -> (Option<Term<String, String>>, Vec<MalformedIri>) {
    let mut warnings: WarningBuf<MalformedIri> = WarningBuf::new();
    let r = expand_iri_simple(ctx, Nullable::Value(Expandable::String(s)), document_relative, vocab, &mut warnings).unwrap();
    (r, warnings.0)
}

#[test]
fn expand_keyword_like_value_is_null() {
    let ctx = Context::new(None);
    assert_eq!(expand(&ctx, "@foo", false, None).0, Some(Term::Null));
}

#[test]
fn expand_term_through_definition() {
    let mut ctx = Context::new(None);
    ctx.set_normal(
        "name".to_string(),
        Some(NormalTermDefinition::new(Some(Term::Id(Id::Valid(ValidId::Iri("http://schema.org/name".to_string())))))),
    );
    assert_eq!(
        expand(&ctx, "name", false, Some(Action::Keep)).0,
        Some(Term::Id(Id::Valid(ValidId::Iri("http://schema.org/name".to_string()))))
    );
}

#[test]
fn expand_compact_iri_through_prefix() {
    let mut ctx = Context::new(None);
    let mut def = NormalTermDefinition::new(Some(Term::Id(Id::Valid(ValidId::Iri("http://example.com/".to_string())))));
    ctx.set_normal("ex".to_string(), Some(def.duplicate()));
    // Without the prefix flag, `ex:a` is an absolute IRI of scheme `ex`.
    assert_eq!(expand(&ctx, "ex:a", false, None).0, Some(Term::Id(Id::Valid(ValidId::Iri("ex:a".to_string())))));
    def.prefix = true;
    ctx.set_normal("ex".to_string(), Some(def));
    assert_eq!(
        expand(&ctx, "ex:a", false, None).0,
        Some(Term::Id(Id::Valid(ValidId::Iri("http://example.com/a".to_string()))))
    );
}

#[test]
fn expand_blank_node_identifier() {
    let ctx = Context::new(None);
    assert_eq!(expand(&ctx, "_:b0", false, None).0, Some(Term::Id(Id::Valid(ValidId::Blank("_:b0".to_string())))));
}

#[test]
fn expand_relative_reference_against_base() {
    let ctx = Context::new(Some("http://example.com/dir/doc".to_string()));
    assert_eq!(
        expand(&ctx, "other", true, None).0,
        Some(Term::Id(Id::Valid(ValidId::Iri("http://example.com/dir/other".to_string()))))
    );
}

#[test]
fn expand_through_vocabulary_mapping() {
    let mut ctx = Context::new(None);
    ctx.set_vocabulary(Some(Term::Id(Id::Valid(ValidId::Iri("http://example.com/vocab#".to_string())))));
    assert_eq!(
        expand(&ctx, "name", false, Some(Action::Keep)).0,
        Some(Term::Id(Id::Valid(ValidId::Iri("http://example.com/vocab#name".to_string()))))
    );
}

#[test]
fn expand_null_and_keyword() {
    let ctx = Context::new(None);
    let mut w: WarningBuf<jsonld::warning::MalformedIri> = WarningBuf::new();
    assert_eq!(expand_iri_simple(&ctx, Nullable::Null, false, None, &mut w).unwrap(), Some(Term::Null));
    assert_eq!(
        expand_iri_simple(&ctx, Nullable::Value(Expandable::Keyword(Keyword::Id)), false, None, &mut w).unwrap(),
        Some(Term::Keyword(Keyword::Id))
    );
}

#[test]
fn expand_action_default_keeps() {
    assert_eq!(Action::default_action(), Action::Keep);
    assert!(!Action::Keep.is_reject());
    assert!(Action::Reject.is_reject());
}
