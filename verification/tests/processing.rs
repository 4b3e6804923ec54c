use jsonld::container::{Container, ContainerKind, ContainerSyntax, Nullable};
use jsonld::context::{Context, NormalTermDefinition};
use jsonld::id::{Id, Term, ValidId};
use jsonld::local::{ContextDefinition, ContextEntry, ExpandedDefinition, LocalContext, TermDefinitionSyntax, TypeEntry};
use jsonld::process::{process_context, requires_loader, Error, Options};
use jsonld::stack::ProcessingStack;
use jsonld::syntax::{Direction, ProcessingMode};
use jsonld::warning::{Warning, WarningBuf};

fn empty_definition() -> ContextDefinition {
    ContextDefinition {
        base: None,
        import: None,
        language: None,
        direction: None,
        propagate: None,
        protected: None,
        type_: None,
        version: false,
        vocab: None,
        bindings: Vec::new(),
    }
}

fn expanded() -> ExpandedDefinition {
    ExpandedDefinition {
        id: None,
        type_: None,
        context: None,
        reverse: None,
        index: None,
        language: None,
        direction: None,
        container: None,
        nest: None,
        prefix: None,
        propagate: None,
        protected: None,
    }
}

fn one(def: ContextDefinition) -> LocalContext {
    LocalContext::One(ContextEntry::Definition(def))
}

fn run(active: &Context, local: &LocalContext, options: Options) -> Result<Context, Error> {
    let mut warnings: WarningBuf<Warning> = WarningBuf::new();
    process_context(active, local, &ProcessingStack::new(), &None, options, 0, &mut warnings)
}

fn iri(s: &str) -> Term<String, String> {
    Term::Id(Id::Valid(ValidId::Iri(s.to_string())))
}

/// `levels` nestings of `{"a": {"@id": "http://example.com/a", "@context": ...}}`.
fn nested_context(levels: usize) -> LocalContext {
    let mut ctx = one(empty_definition());
    for _ in 0..levels {
        let mut e = expanded();
        e.id = Some(Nullable::Value("http://example.com/a".to_string()));
        e.context = Some(Box::new(ctx));
        let mut def = empty_definition();
        def.bindings.push(("a".to_string(), Nullable::Value(TermDefinitionSyntax::Expanded(Box::new(e)))));
        ctx = one(def);
    }
    ctx
}

#[test]
fn deeply_nested_inline_context_overflows_gracefully() {
    let r = run(&Context::new(None), &nested_context(100), Options::default_options());
    assert_eq!(r.err(), Some(Error::ContextOverflow));
}

#[test]
fn reasonable_nesting_is_unaffected() {
    assert!(run(&Context::new(None), &nested_context(20), Options::default_options()).is_ok());
}

#[test]
fn simple_term_definitions_are_created() {
    let mut def = empty_definition();
    def.bindings.push(("name".to_string(), Nullable::Value(TermDefinitionSyntax::Simple("http://schema.org/name".to_string()))));
    def.bindings.push(("schema".to_string(), Nullable::Value(TermDefinitionSyntax::Simple("http://schema.org/".to_string()))));
    let ctx = run(&Context::new(None), &one(def), Options::default_options()).unwrap();
    let name = ctx.get_normal(&"name".chars().collect::<Vec<_>>()).unwrap();
    assert_eq!(name.value, Some(iri("http://schema.org/name")));
    assert!(!name.prefix);
    let schema = ctx.get_normal(&"schema".chars().collect::<Vec<_>>()).unwrap();
    assert!(schema.prefix);
}

#[test]
fn compact_iri_term_uses_its_prefix() {
    let mut def = empty_definition();
    def.bindings.push(("ex:thing".to_string(), Nullable::Value(TermDefinitionSyntax::Expanded(Box::new(expanded())))));
    def.bindings.push(("ex".to_string(), Nullable::Value(TermDefinitionSyntax::Simple("http://example.com/".to_string()))));
    let ctx = run(&Context::new(None), &one(def), Options::default_options()).unwrap();
    let t = ctx.get_normal(&"ex:thing".chars().collect::<Vec<_>>()).unwrap();
    assert_eq!(t.value, Some(iri("http://example.com/thing")));
}

#[test]
fn term_without_id_uses_vocab() {
    let mut def = empty_definition();
    def.vocab = Some(Nullable::Value("http://example.com/vocab#".to_string()));
    def.bindings.push(("name".to_string(), Nullable::Value(TermDefinitionSyntax::Expanded(Box::new(expanded())))));
    let ctx = run(&Context::new(None), &one(def), Options::default_options()).unwrap();
    assert_eq!(ctx.get_normal(&"name".chars().collect::<Vec<_>>()).unwrap().value, Some(iri("http://example.com/vocab#name")));
}

#[test]
fn term_without_id_nor_vocab_is_invalid() {
    let mut def = empty_definition();
    def.bindings.push(("name".to_string(), Nullable::Value(TermDefinitionSyntax::Expanded(Box::new(expanded())))));
    assert_eq!(run(&Context::new(None), &one(def), Options::default_options()).err(), Some(Error::InvalidIriMapping));
}

#[test]
fn cyclic_definitions_are_refused() {
    let mut def = empty_definition();
    def.bindings.push(("a".to_string(), Nullable::Value(TermDefinitionSyntax::Simple("b:x".to_string()))));
    def.bindings.push(("b".to_string(), Nullable::Value(TermDefinitionSyntax::Simple("a:y".to_string()))));
    assert_eq!(run(&Context::new(None), &one(def), Options::default_options()).err(), Some(Error::CyclicIriMapping));
}

#[test]
fn protected_term_cannot_be_redefined() {
    let mut def = empty_definition();
    def.protected = Some(true);
    def.bindings.push(("name".to_string(), Nullable::Value(TermDefinitionSyntax::Simple("http://schema.org/name".to_string()))));
    let first = run(&Context::new(None), &one(def), Options::default_options()).unwrap();
    assert!(first.has_protected_items());

    let mut same = empty_definition();
    same.bindings.push(("name".to_string(), Nullable::Value(TermDefinitionSyntax::Simple("http://schema.org/name".to_string()))));
    let again = run(&first, &one(same), Options::default_options()).unwrap();
    assert!(again.get_normal(&"name".chars().collect::<Vec<_>>()).unwrap().protected);

    let mut other = empty_definition();
    other.bindings.push(("name".to_string(), Nullable::Value(TermDefinitionSyntax::Simple("http://example.com/name".to_string()))));
    assert_eq!(run(&first, &one(other), Options::default_options()).err(), Some(Error::ProtectedTermRedefinition));

    let mut other = empty_definition();
    other.bindings.push(("name".to_string(), Nullable::Value(TermDefinitionSyntax::Simple("http://example.com/name".to_string()))));
    let overridden = run(&first, &one(other), Options::default_options().with_override()).unwrap();
    assert_eq!(overridden.get_normal(&"name".chars().collect::<Vec<_>>()).unwrap().value, Some(iri("http://example.com/name")));
}

#[test]
fn null_context_cannot_clear_protected_terms() {
    let mut def = empty_definition();
    def.protected = Some(true);
    def.bindings.push(("name".to_string(), Nullable::Value(TermDefinitionSyntax::Simple("http://schema.org/name".to_string()))));
    let first = run(&Context::new(None), &one(def), Options::default_options()).unwrap();
    assert_eq!(
        run(&first, &LocalContext::One(ContextEntry::Null), Options::default_options()).err(),
        Some(Error::InvalidContextNullification)
    );
    let cleared = run(&first, &LocalContext::One(ContextEntry::Null), Options::default_options().with_override()).unwrap();
    assert!(cleared.is_empty());
}

#[test]
fn remote_contexts_are_not_loaded() {
    let local = LocalContext::Many(vec![ContextEntry::IriRef("http://example.com/context.jsonld".to_string())]);
    assert_eq!(run(&Context::new(None), &local, Options::default_options()).err(), Some(Error::LoadingDocumentFailed));
}

#[test]
fn json_ld_1_0_refuses_1_1_features() {
    let mut options = Options::default_options();
    options.processing_mode = ProcessingMode::JsonLd1_0;
    let mut def = empty_definition();
    def.version = true;
    assert_eq!(run(&Context::new(None), &one(def), options).err(), Some(Error::ProcessingModeConflict));

    let mut def = empty_definition();
    def.type_ = Some(TypeEntry { container_set: true, protected: None });
    assert_eq!(run(&Context::new(None), &one(def), options).err(), Some(Error::KeywordRedefinition));

    let mut e = expanded();
    e.id = Some(Nullable::Value("http://example.com/g".to_string()));
    e.container = Some(Nullable::Value(ContainerSyntax::One(ContainerKind::Graph)));
    let mut def = empty_definition();
    def.bindings.push(("g".to_string(), Nullable::Value(TermDefinitionSyntax::Expanded(Box::new(e)))));
    assert_eq!(run(&Context::new(None), &one(def), options).err(), Some(Error::InvalidContainerMapping));
}

#[test]
fn container_type_defaults_the_type_mapping_to_id() {
    let mut e = expanded();
    e.id = Some(Nullable::Value("http://example.com/t".to_string()));
    e.container = Some(Nullable::Value(ContainerSyntax::One(ContainerKind::Type)));
    let mut def = empty_definition();
    def.bindings.push(("t".to_string(), Nullable::Value(TermDefinitionSyntax::Expanded(Box::new(e)))));
    let ctx = run(&Context::new(None), &one(def), Options::default_options()).unwrap();
    let t = ctx.get_normal(&"t".chars().collect::<Vec<_>>()).unwrap();
    assert_eq!(t.container, Container::Type);
    assert!(t.typ.is_some());
}

#[test]
fn keyword_like_id_skips_the_term_with_a_warning() {
    let mut e = expanded();
    e.id = Some(Nullable::Value("@ignoreMe".to_string()));
    let mut def = empty_definition();
    def.bindings.push(("t".to_string(), Nullable::Value(TermDefinitionSyntax::Expanded(Box::new(e)))));
    let mut warnings: WarningBuf<Warning> = WarningBuf::new();
    let ctx = process_context(&Context::new(None), &one(def), &ProcessingStack::new(), &None, Options::default_options(), 0, &mut warnings).unwrap();
    assert!(ctx.get_normal(&"t".chars().collect::<Vec<_>>()).is_none());
    assert_eq!(warnings.0, vec![Warning::KeywordLikeValue("@ignoreMe".to_string())]);
}

#[test]
fn base_and_vocab_entries_are_applied() {
    let mut def = empty_definition();
    def.base = Some(Nullable::Value("http://example.com/dir/".to_string()));
    def.vocab = Some(Nullable::Value("terms#".to_string()));
    let ctx = run(&Context::new(None), &one(def), Options::default_options()).unwrap();
    assert_eq!(ctx.base_iri().map(String::as_str), Some("http://example.com/dir/"));
    assert_eq!(ctx.vocabulary(), Some(&iri("http://example.com/dir/terms#")));
}

#[test]
fn definitions_keep_their_prefix_flag_when_copied() {
    let mut d = NormalTermDefinition::new(Some(iri("http://a/")));
    d.prefix = true;
    let c = d.duplicate();
    assert!(c.prefix);
    assert!(c.same_modulo_protected(&d));
}

#[test]
fn loader_is_required_only_for_remote_references() {
    assert!(!requires_loader(&nested_context(3)));
    assert!(requires_loader(&LocalContext::One(ContextEntry::IriRef("http://example.com/c".to_string()))));
    let mut def = empty_definition();
    def.import = Some("http://example.com/c".to_string());
    assert!(requires_loader(&one(def)));

    let mut e = expanded();
    e.id = Some(Nullable::Value("http://example.com/a".to_string()));
    e.context = Some(Box::new(LocalContext::Many(vec![ContextEntry::Null, ContextEntry::IriRef("scoped.jsonld".to_string())])));
    let mut def = empty_definition();
    def.bindings.push(("a".to_string(), Nullable::Value(TermDefinitionSyntax::Expanded(Box::new(e)))));
    assert!(requires_loader(&one(def)));
}

#[test]
fn language_and_direction_entries_replace_the_defaults() {
    let mut active = Context::new(None);
    active.set_default_language(Some("de".to_string()));
    active.set_default_base_direction(Some(Direction::Ltr));
    let mut def = empty_definition();
    def.language = Some(Nullable::Value("fr".to_string()));
    def.direction = Some(Nullable::Null);
    let ctx = run(&active, &one(def), Options::default_options()).unwrap();
    assert_eq!(ctx.default_language().map(String::as_str), Some("fr"));
    assert_eq!(ctx.default_base_direction(), None);

    let unchanged = run(&active, &one(empty_definition()), Options::default_options()).unwrap();
    assert_eq!(unchanged.default_language().map(String::as_str), Some("de"));
    assert_eq!(unchanged.default_base_direction(), Some(Direction::Ltr));
}

#[test]
fn null_vocab_and_base_clear_the_settings() {
    let mut active = Context::new(None);
    active.set_vocabulary(Some(iri("http://example.com/")));
    active.set_base_iri(Some("http://example.com/base/".to_string()));
    let mut def = empty_definition();
    def.vocab = Some(Nullable::Null);
    def.base = Some(Nullable::Null);
    let ctx = run(&active, &one(def), Options::default_options()).unwrap();
    assert_eq!(ctx.vocabulary(), None);
    assert_eq!(ctx.base_iri(), None);
}

#[test]
fn terms_take_the_entries_their_definitions_declare() {
    let mut e = expanded();
    e.id = Some(Nullable::Value("http://example.com/tags".to_string()));
    e.container = Some(Nullable::Value(ContainerSyntax::One(ContainerKind::AtSet)));
    e.language = Some(Nullable::Value("en".to_string()));
    e.nest = Some("@nest".to_string());
    let mut def = empty_definition();
    def.bindings.push(("tags".to_string(), Nullable::Value(TermDefinitionSyntax::Expanded(Box::new(e)))));
    let ctx = run(&Context::new(None), &one(def), Options::default_options()).unwrap();
    let d = ctx.get_normal(&"tags".chars().collect::<Vec<_>>()).unwrap();
    assert_eq!(d.container, Container::SetOnly);
    assert_eq!(d.language, Some(Nullable::Value("en".to_string())));
    assert_eq!(d.nest.as_deref(), Some("@nest"));
    assert!(!d.reverse_property);
}

#[test]
fn reverse_terms_are_marked_reverse() {
    let mut e = expanded();
    e.reverse = Some("http://example.com/parent".to_string());
    let mut def = empty_definition();
    def.bindings.push(("children".to_string(), Nullable::Value(TermDefinitionSyntax::Expanded(Box::new(e)))));
    let ctx = run(&Context::new(None), &one(def), Options::default_options()).unwrap();
    let d = ctx.get_normal(&"children".chars().collect::<Vec<_>>()).unwrap();
    assert!(d.reverse_property);
    assert_eq!(d.value, Some(iri("http://example.com/parent")));
}

#[test]
fn keyword_type_mappings_are_kept() {
    let mut e = expanded();
    e.id = Some(Nullable::Value("http://example.com/homepage".to_string()));
    e.type_ = Some(Nullable::Value("@vocab".to_string()));
    let mut def = empty_definition();
    def.bindings.push(("homepage".to_string(), Nullable::Value(TermDefinitionSyntax::Expanded(Box::new(e)))));
    let ctx = run(&Context::new(None), &one(def), Options::default_options()).unwrap();
    let d = ctx.get_normal(&"homepage".chars().collect::<Vec<_>>()).unwrap();
    assert_eq!(d.typ, Some(jsonld::value::SyntaxType::Vocab));
}

#[test]
fn scoped_contexts_are_stored_and_protection_is_declared() {
    let mut inner = empty_definition();
    inner.language = Some(Nullable::Value("fr".to_string()));
    let mut e = expanded();
    e.id = Some(Nullable::Value("http://example.com/label".to_string()));
    e.context = Some(Box::new(one(inner)));
    e.protected = Some(true);
    let mut def = empty_definition();
    def.bindings.push(("label".to_string(), Nullable::Value(TermDefinitionSyntax::Expanded(Box::new(e)))));
    def.bindings.push(("plain".to_string(), Nullable::Value(TermDefinitionSyntax::Simple("http://example.com/plain".to_string()))));
    let ctx = run(&Context::new(None), &one(def), Options::default_options()).unwrap();
    let d = ctx.get_normal(&"label".chars().collect::<Vec<_>>()).unwrap();
    assert!(d.protected);
    match d.context.as_deref() {
        Some(LocalContext::One(ContextEntry::Definition(c))) => {
            assert_eq!(c.language, Some(Nullable::Value("fr".to_string())));
        }
        _ => panic!("the scoped context is kept as written"),
    }
    let p = ctx.get_normal(&"plain".chars().collect::<Vec<_>>()).unwrap();
    assert!(!p.protected);
    assert!(p.context.is_none());
}

#[test]
fn an_id_through_a_prefix_is_expanded() {
    let mut def = empty_definition();
    def.bindings.push(("name".to_string(), Nullable::Value(TermDefinitionSyntax::Simple("ex:name".to_string()))));
    def.bindings.push(("ex".to_string(), Nullable::Value(TermDefinitionSyntax::Simple("http://example.com/".to_string()))));
    let ctx = run(&Context::new(None), &one(def), Options::default_options()).unwrap();
    let d = ctx.get_normal(&"name".chars().collect::<Vec<_>>()).unwrap();
    assert_eq!(d.value, Some(iri("http://example.com/name")));
    let e = ctx.get_normal(&"ex".chars().collect::<Vec<_>>()).unwrap();
    assert!(e.prefix);
}

#[test]
fn a_simple_term_ending_in_a_delimiter_is_a_prefix() {
    let mut def = empty_definition();
    def.bindings.push(("ex".to_string(), Nullable::Value(TermDefinitionSyntax::Simple("http://example.com/".to_string()))));
    let ctx = run(&Context::new(None), &one(def), Options::default_options()).unwrap();
    let d = ctx.get_normal(&"ex".chars().collect::<Vec<_>>()).unwrap();
    assert_eq!(d.value, Some(iri("http://example.com/")));
    assert!(d.prefix);
}

#[test]
fn an_expanded_term_is_no_prefix_unless_it_says_so() {
    let mut e = expanded();
    e.id = Some(Nullable::Value("http://example.com/".to_string()));
    let mut def = empty_definition();
    def.bindings.push(("ex".to_string(), Nullable::Value(TermDefinitionSyntax::Expanded(Box::new(e)))));
    let ctx = run(&Context::new(None), &one(def), Options::default_options()).unwrap();
    let d = ctx.get_normal(&"ex".chars().collect::<Vec<_>>()).unwrap();
    assert_eq!(d.value, Some(iri("http://example.com/")));
    assert!(!d.prefix);
}

#[test]
fn a_remote_context_or_an_import_needs_a_loader() {
    let remote = LocalContext::One(ContextEntry::IriRef("http://example.com/ctx".to_string()));
    assert_eq!(run(&Context::new(None), &remote, Options::default_options()).err(), Some(Error::LoadingDocumentFailed));
    let mut def = empty_definition();
    def.import = Some("http://example.com/ctx".to_string());
    assert_eq!(run(&Context::new(None), &one(def), Options::default_options()).err(), Some(Error::LoadingDocumentFailed));
}

fn nested(levels: usize) -> LocalContext {
    let mut inner = empty_definition();
    for _ in 0..levels {
        let mut e = expanded();
        e.id = Some(Nullable::Value("http://example.com/a".to_string()));
        e.context = Some(Box::new(one(inner)));
        let mut outer = empty_definition();
        outer.bindings.push(("a".to_string(), Nullable::Value(TermDefinitionSyntax::Expanded(Box::new(e)))));
        inner = outer;
    }
    one(inner)
}

#[test]
fn deeply_nested_scoped_contexts_overflow() {
    let deep = run(&Context::new(None), &nested(100), Options::default_options());
    assert_eq!(deep.err().map(|e| e.code()), Some(jsonld::syntax::ErrorCode::ContextOverflow));
    assert!(run(&Context::new(None), &nested(20), Options::default_options()).is_ok());
}

#[test]
fn failing_scoped_context_is_an_invalid_scoped_context() {
    let mut e = expanded();
    e.id = Some(Nullable::Value("http://example.com/a".to_string()));
    e.context = Some(Box::new(LocalContext::One(ContextEntry::IriRef("http://example.com/remote.jsonld".to_string()))));
    let mut def = empty_definition();
    def.bindings.push(("a".to_string(), Nullable::Value(TermDefinitionSyntax::Expanded(Box::new(e)))));
    assert_eq!(run(&Context::new(None), &one(def), Options::default_options()).err(), Some(Error::InvalidScopedContext));
}

#[test]
fn agreeing_redefinition_of_a_protected_expanded_term_is_allowed() {
    let mut e = expanded();
    e.id = Some(Nullable::Value("http://example.com/".to_string()));
    e.protected = Some(true);
    let mut def = empty_definition();
    def.bindings.push(("ex".to_string(), Nullable::Value(TermDefinitionSyntax::Expanded(Box::new(e)))));
    let first = run(&Context::new(None), &one(def), Options::default_options()).unwrap();
    let ex = first.get_normal(&"ex".chars().collect::<Vec<_>>()).unwrap();
    assert!(ex.protected);
    assert!(!ex.prefix);

    let mut e = expanded();
    e.id = Some(Nullable::Value("http://example.com/".to_string()));
    let mut same = empty_definition();
    same.bindings.push(("ex".to_string(), Nullable::Value(TermDefinitionSyntax::Expanded(Box::new(e)))));
    assert!(run(&first, &one(same), Options::default_options()).is_ok());

    let mut simple = empty_definition();
    simple.bindings.push(("ex".to_string(), Nullable::Value(TermDefinitionSyntax::Simple("http://example.com/".to_string()))));
    assert_eq!(run(&first, &one(simple), Options::default_options()).err(), Some(Error::ProtectedTermRedefinition));
}

#[test]
fn default_language_and_direction_are_set_with_terms() {
    let mut def = empty_definition();
    def.language = Some(Nullable::Value("en".to_string()));
    def.direction = Some(Nullable::Value(Direction::Rtl));
    def.bindings.push(("name".to_string(), Nullable::Value(TermDefinitionSyntax::Simple("http://schema.org/name".to_string()))));
    let ctx = run(&Context::new(None), &one(def), Options::default_options()).unwrap();
    assert_eq!(ctx.get_normal(&"name".chars().collect::<Vec<_>>()).unwrap().value, Some(iri("http://schema.org/name")));
    assert_eq!(ctx.default_base_direction(), Some(Direction::Rtl));
    assert_eq!(ctx.default_language().map(|s| s.as_str()), Some("en"));
}

fn decorated(id: &str) -> ExpandedDefinition {
    let mut e = expanded();
    e.id = Some(Nullable::Value(id.to_string()));
    e
}

fn with_binding(key: &str, e: ExpandedDefinition) -> ContextDefinition {
    let mut def = empty_definition();
    def.bindings.push((key.to_string(), Nullable::Value(TermDefinitionSyntax::Expanded(Box::new(e)))));
    def
}

#[test]
fn decorated_bindings_are_defined() {
    let mut e = decorated("http://example.com/tags");
    e.container = Some(Nullable::Value(ContainerSyntax::Many(vec![ContainerKind::Language, ContainerKind::AtSet])));
    e.nest = Some("meta".to_string());
    e.prefix = Some(false);
    let ctx = run(&Context::new(None), &one(with_binding("tags", e)), Options::default_options()).unwrap();
    let d = ctx.get_normal(&"tags".chars().collect::<Vec<_>>()).unwrap();
    assert_eq!(d.container, Container::LanguageSet);
    assert_eq!(d.value, Some(iri("http://example.com/tags")));
}

#[test]
fn decorated_binding_errors() {
    let mut options = Options::default_options();
    options.processing_mode = ProcessingMode::JsonLd1_0;
    let mut e = decorated("http://example.com/a");
    e.container = Some(Nullable::Value(ContainerSyntax::One(ContainerKind::Id)));
    assert_eq!(run(&Context::new(None), &one(with_binding("a", e)), options).err(), Some(Error::InvalidContainerMapping));

    let mut e = decorated("http://example.com/a");
    e.container = Some(Nullable::Value(ContainerSyntax::Many(vec![ContainerKind::List, ContainerKind::AtSet])));
    assert_eq!(run(&Context::new(None), &one(with_binding("a", e)), Options::default_options()).err(), Some(Error::InvalidContainerMapping));

    let mut e = decorated("http://example.com/a");
    e.nest = Some("n".to_string());
    assert_eq!(run(&Context::new(None), &one(with_binding("a", e)), options).err(), Some(Error::InvalidTermDefinition));

    let mut e = decorated("http://example.com/a");
    e.prefix = Some(true);
    assert_eq!(run(&Context::new(None), &one(with_binding("a", e)), options).err(), Some(Error::InvalidTermDefinition));
}

#[test]
fn protected_decorated_term_redefinition() {
    let mut e = decorated("http://example.com/a");
    e.container = Some(Nullable::Value(ContainerSyntax::One(ContainerKind::AtSet)));
    e.protected = Some(true);
    let first = run(&Context::new(None), &one(with_binding("a", e)), Options::default_options()).unwrap();

    let mut same = decorated("http://example.com/a");
    same.container = Some(Nullable::Value(ContainerSyntax::One(ContainerKind::AtSet)));
    assert!(run(&first, &one(with_binding("a", same)), Options::default_options()).is_ok());

    let mut other = decorated("http://example.com/a");
    other.container = Some(Nullable::Value(ContainerSyntax::One(ContainerKind::List)));
    assert_eq!(run(&first, &one(with_binding("a", other)), Options::default_options()).err(), Some(Error::ProtectedTermRedefinition));
}
