use jsonld::container::Nullable;
use jsonld::local::{ContextDefinition, ContextEntry, LocalContext, TermDefinitionSyntax};
use jsonld::merged::Merged;
use jsonld::syntax::Direction;

fn definition(bindings: &[(&str, &str)]) -> ContextDefinition {
    ContextDefinition {
        base: None,
        import: None,
        language: None,
        direction: None,
        propagate: None,
        protected: None,
        type_: None,
        version: false,
        vocab: None,
        bindings: bindings
            .iter()
            .map(|(k, v)| (k.to_string(), Nullable::Value(TermDefinitionSyntax::Simple(v.to_string()))))
            .collect(),
    }
}

fn simple(b: &Nullable<TermDefinitionSyntax>) -> &str {
    match b {
        Nullable::Value(TermDefinitionSyntax::Simple(s)) => s.as_str(),
        _ => panic!("not a simple definition"),
    }
}

#[test]
fn importing_definition_overrides_imported_terms() {
    let base = definition(&[("b", "http://base/b"), ("c", "http://base/c")]);
    let imported = definition(&[("a", "http://imp/a"), ("b", "http://imp/b")]);
    let merged = Merged::new(&base, Some(LocalContext::One(ContextEntry::Definition(imported))));
    let bindings: Vec<(String, String)> = merged.bindings().iter().map(|(k, v)| (k.to_string(), simple(v).to_string())).collect();
    assert_eq!(
        bindings,
        vec![
            ("a".to_string(), "http://imp/a".to_string()),
            ("b".to_string(), "http://base/b".to_string()),
            ("c".to_string(), "http://base/c".to_string()),
        ]
    );
    assert_eq!(merged.get(&"b".to_string()).map(simple), Some("http://base/b"));
    assert_eq!(merged.get(&"a".to_string()).map(simple), Some("http://imp/a"));
    assert!(merged.get(&"z".to_string()).is_none());
}

#[test]
fn settings_fall_back_to_the_imported_definition() {
    let mut base = definition(&[]);
    base.direction = Some(Nullable::Value(Direction::Rtl));
    let mut imported = definition(&[]);
    imported.language = Some(Nullable::Value("en".to_string()));
    imported.direction = Some(Nullable::Value(Direction::Ltr));
    imported.protected = Some(true);
    let merged = Merged::new(&base, Some(LocalContext::One(ContextEntry::Definition(imported))));
    assert_eq!(merged.language(), Some(&Nullable::Value("en".to_string())));
    assert_eq!(merged.direction(), Some(Nullable::Value(Direction::Rtl)));
    assert_eq!(merged.protected(), Some(true));
    assert!(merged.base().is_none());
    assert!(merged.vocab().is_none());
}

#[test]
fn only_a_single_definition_counts_as_imported() {
    let base = definition(&[("a", "http://base/a")]);
    let merged = Merged::new(&base, Some(LocalContext::One(ContextEntry::Null)));
    assert!(merged.imported().is_none());
    assert_eq!(merged.bindings().len(), 1);
    let alone = Merged::from_definition(&base);
    assert!(alone.imported().is_none());
    assert_eq!(alone.get(&"a".to_string()).map(simple), Some("http://base/a"));
}
