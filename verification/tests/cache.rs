use jsonld::cache::{same_context_exec, ProcessingCache};
use jsonld::context::Context;
use jsonld::local::{ContextEntry, LocalContext};
use jsonld::process::Options;
use jsonld::syntax::ProcessingMode;

#[test]
fn colliding_key_is_a_miss_not_a_false_hit() {
    let mut cache = ProcessingCache::new();
    let local = LocalContext::One(ContextEntry::Null);

    let active_a = Context::new(Some("http://a/".to_string()));
    let active_b = Context::new(Some("http://b/".to_string()));

    cache.insert(42, &active_a, &local, &None, Options::default_options(), Context::new(None));

    // Different active context under the same key: miss.
    assert!(cache.get(42, &active_b, &local, &None, Options::default_options()).is_none());

    // Different options under the same key: miss.
    let mut options_1_0 = Options::default_options();
    options_1_0.processing_mode = ProcessingMode::JsonLd1_0;
    assert!(cache.get(42, &active_a, &local, &None, options_1_0).is_none());

    // Matching inputs: hit.
    assert!(cache.get(42, &active_a, &local, &None, Options::default_options()).is_some());
}

#[test]
fn cache_counts_and_clears_entries() {
    let mut cache = ProcessingCache::new();
    assert!(cache.is_empty());
    let local = LocalContext::One(ContextEntry::Null);
    let active = Context::new(None);
    cache.insert(1, &active, &local, &None, Options::default_options(), Context::new(None));
    cache.insert(2, &active, &local, &Some("http://x/".to_string()), Options::default_options(), Context::new(None));
    assert_eq!(cache.len(), 2);
    assert!(cache.get(2, &active, &local, &None, Options::default_options()).is_none());
    assert!(cache.get(2, &active, &local, &Some("http://x/".to_string()), Options::default_options()).is_some());
    let other_local = LocalContext::Many(vec![]);
    assert!(cache.get(1, &active, &other_local, &None, Options::default_options()).is_none());
    cache.clear();
    assert!(cache.is_empty());
}

#[test]
fn contexts_compare_by_content() {
    let a = Context::new(Some("http://a/".to_string()));
    assert!(same_context_exec(&a, &a.duplicate()));
    assert!(!same_context_exec(&a, &Context::new(None)));
}

#[test]
fn contexts_to_revert_to_are_compared_too() {
    let mut a = Context::new(None);
    a.set_previous_context(Context::new(Some("http://a/".to_string())));
    let mut b = Context::new(None);
    b.set_previous_context(Context::new(Some("http://b/".to_string())));
    assert!(!same_context_exec(&a, &b));
    assert!(same_context_exec(&a, &a.duplicate()));

    let mut cache = ProcessingCache::new();
    let local = LocalContext::One(ContextEntry::Null);
    let mut result = Context::new(None);
    result.set_base_iri(Some("http://result/".to_string()));
    cache.insert(7, &a, &local, &None, Options::default_options(), result);
    assert!(cache.get(7, &b, &local, &None, Options::default_options()).is_none());
    let hit = cache.get(7, &a, &local, &None, Options::default_options()).unwrap();
    assert_eq!(hit.base_iri().map(String::as_str), Some("http://result/"));
}
