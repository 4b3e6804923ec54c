use jsonld::context::{Context, KeywordAliases};
use jsonld::loader::{
    accept_header, chunk_too_large, declared_too_large, on_ok_response, profiles_of, ChainError, ChainLoader, ChainStep, Fetch, FetchError, OkAction, Profile,
    StandardProfile,
};
use jsonld::link::Link;
use jsonld::rdf::{RdfDirection, Warning as RdfWarning};
use jsonld::syntax::{is_keyword, is_keyword_like, Keyword};
use jsonld::value::EntryKey;

fn chars(s: &str) -> Vec<char> {
    s.chars().collect()
}

#[test]
fn keywords_and_keyword_like_strings() {
    assert!(is_keyword(&chars("@context")));
    assert!(!is_keyword(&chars("@foo")));
    assert!(is_keyword_like(&chars("@foo")));
    assert!(!is_keyword_like(&chars("@")));
    assert!(!is_keyword_like(&chars("@fo1")));
    assert_eq!(Keyword::try_from_chars(&chars("@included")), Some(Keyword::Included));
    assert_eq!(Keyword::Included.into_str(), "@included");
}

#[test]
fn entry_keys_render_as_their_keywords() {
    assert_eq!(EntryKey::Value.as_str(), "@value");
    assert_eq!(EntryKey::Direction.into_str(), "@direction");
    assert_eq!(EntryKey::Type.into_keyword(), Keyword::Type);
}

#[test]
fn rdf_direction_parses_its_two_names() {
    assert_eq!(RdfDirection::parse("i18n-datatype").unwrap(), RdfDirection::I18nDatatype);
    assert_eq!(RdfDirection::parse("compound-literal").unwrap(), RdfDirection::CompoundLiteral);
    let e = RdfDirection::parse("ltr").unwrap_err();
    assert_eq!(e.0, "ltr");
    assert_eq!("compound-literal".parse::<RdfDirection>().unwrap(), RdfDirection::CompoundLiteral);
    assert_eq!(RdfWarning::ValueSerializationFailed.message(), "value not representable as an RDF term, quad dropped");
}

#[test]
fn keyword_aliases_fall_back_on_the_keyword() {
    let aliases: [String; 13] = std::array::from_fn(|i| format!("k{i}"));
    let cache = KeywordAliases::new(aliases);
    assert_eq!(cache.get(Keyword::Id), "k0");
    assert_eq!(cache.get(Keyword::Json), "k12");
    assert_eq!(cache.get(Keyword::Base), "@base");
}

#[test]
fn chain_loader_falls_back_and_keeps_both_errors() {
    let c = ChainLoader::new(1u8, 2u8);
    assert_eq!((c.0, c.1), (1, 2));
    assert!(matches!(ChainLoader::<u8, u8>::after_first::<&str, u8>(Ok("doc")), ChainStep::Done("doc")));
    assert!(matches!(ChainLoader::<u8, u8>::after_first::<&str, u8>(Err(5)), ChainStep::Fallback(5)));
    let r: Result<&str, ChainError<u8, u16>> = ChainLoader::<u8, u8>::after_second(5u8, Err(6u16));
    assert!(matches!(r, Err(ChainError::Both(5, 6))));
    let r: Result<&str, ChainError<u8, u16>> = ChainLoader::<u8, u8>::after_second(5u8, Ok("doc"));
    assert!(matches!(r, Ok("doc")));
}

#[test]
fn standard_profiles_are_recognised() {
    assert_eq!(StandardProfile::from_iri("http://www.w3.org/ns/json-ld#expanded"), Some(StandardProfile::Expanded));
    assert_eq!(StandardProfile::from_iri("http://www.w3.org/ns/json-ld#framed"), Some(StandardProfile::Framed));
    assert_eq!(StandardProfile::from_iri("http://example.com/p"), None);
    assert_eq!(Profile::new("http://www.w3.org/ns/json-ld#context"), Profile::Standard(StandardProfile::Context));
    assert_eq!(Profile::new("http://example.com/p"), Profile::Custom("http://example.com/p".to_string()));
    assert_eq!(StandardProfile::Compacted.iri(), "http://www.w3.org/ns/json-ld#compacted");
}

#[test]
fn accept_header_lists_requested_profiles() {
    assert_eq!(accept_header(&[]), "application/ld+json, application/json");
    assert_eq!(
        accept_header(&[Profile::Standard(StandardProfile::Expanded)]),
        "application/ld+json; profile=http://www.w3.org/ns/json-ld#expanded, application/json"
    );
    assert_eq!(
        accept_header(&[Profile::Standard(StandardProfile::Expanded), Profile::Custom("http://example.com/p".to_string())]),
        "application/ld+json; profile=\"http://www.w3.org/ns/json-ld#expanded http://example.com/p\", application/json"
    );
}

#[test]
fn profile_parameter_keeps_its_iris() {
    let ps = profiles_of(b"http://www.w3.org/ns/json-ld#flattened  not-an-iri http://example.com/p");
    assert_eq!(ps, vec![Profile::Standard(StandardProfile::Flattened), Profile::Custom("http://example.com/p".to_string())]);
    assert!(profiles_of(b"").is_empty());
}

#[test]
fn profile_parameter_names_each_profile_once() {
    let ps = profiles_of(b"http://example.com/p http://www.w3.org/ns/json-ld#expanded http://example.com/p http://www.w3.org/ns/json-ld#expanded");
    assert_eq!(ps, vec![Profile::Custom("http://example.com/p".to_string()), Profile::Standard(StandardProfile::Expanded)]);
}

#[test]
fn size_limits() {
    assert!(declared_too_large(Some(10), Some(11)));
    assert!(!declared_too_large(Some(10), Some(10)));
    assert!(!declared_too_large(None, Some(11)));
    assert!(!declared_too_large(Some(10), None));
    assert!(chunk_too_large(Some(10), 6, 5));
    assert!(!chunk_too_large(Some(10), 6, 4));
    assert!(!chunk_too_large(None, usize::MAX, usize::MAX));
}

#[test]
fn fetch_counts_redirections() {
    let mut f = Fetch::start("http://a/".to_string());
    assert_eq!(f.check(0), Ok(()));
    f.follow("http://b/".to_string());
    assert_eq!(f.url, "http://b/");
    assert_eq!(f.redirections, 1);
    assert_eq!(f.check(0), Err(FetchError::TooManyRedirections));
    assert_eq!(f.check(1), Ok(()));
}

#[test]
fn ok_response_with_ld_json_is_read() {
    assert!(matches!(on_ok_response("http://example.com/doc", Some(true), &[]), OkAction::Read(None)));
}

#[test]
fn ok_response_with_plain_json_takes_the_context_link() {
    let links = Link::parse_header(b"<ctx.jsonld>; rel=\"http://www.w3.org/ns/json-ld#context\"");
    match on_ok_response("http://example.com/dir/doc", Some(false), &links) {
        OkAction::Read(Some(c)) => assert_eq!(c, "http://example.com/dir/ctx.jsonld"),
        other => panic!("unexpected {other:?}"),
    }
}

#[test]
fn ok_response_with_two_context_links_fails() {
    let links = Link::parse_header(
        b"<a>; rel=\"http://www.w3.org/ns/json-ld#context\", <b>; rel=\"http://www.w3.org/ns/json-ld#context\"",
    );
    assert!(matches!(
        on_ok_response("http://example.com/doc", Some(false), &links),
        OkAction::Fail(FetchError::MultipleContextLinkHeaders)
    ));
}

#[test]
fn ok_response_without_json_follows_the_alternate() {
    let links = Link::parse_header(b"<http://example.com/x>; rel=next, <alt.jsonld>; rel=\"alternate\"; type=\"application/ld+json\"");
    match on_ok_response("http://example.com/dir/doc.html", None, &links) {
        OkAction::Follow(t) => assert_eq!(t, "http://example.com/dir/alt.jsonld"),
        other => panic!("unexpected {other:?}"),
    }
    assert!(matches!(
        on_ok_response("http://example.com/doc.html", None, &[]),
        OkAction::Fail(FetchError::InvalidContentType)
    ));
}

#[test]
fn fresh_context_has_no_definitions() {
    let ctx = Context::new(Some("http://example.com/".to_string()));
    assert!(ctx.is_empty());
    assert_eq!(ctx.base_iri().map(String::as_str), Some("http://example.com/"));
    assert!(!ctx.has_protected_items());
}
