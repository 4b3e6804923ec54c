use jsonld::hash::{combine_hashes, hash_set, hash_set_opt};
use jsonld::multiset::{compare_unordered, compare_unordered_opt, MultiSet};
use jsonld::stack::ProcessingStack;
use jsonld::vocabulary::VocabularyRemap;
use jsonld::id::{Id, ValidId};

#[test]
fn multiset_keeps_duplicates() {
    let mut m: MultiSet<u32> = MultiSet::new();
    m.insert(1);
    m.insert(1);
    assert_eq!(m.len(), 2);
    assert!(m.contains(&1));
    assert!(!m.contains(&2));
    assert_eq!(m.as_slice(), &[1, 1]);
    assert_eq!(m.iter().copied().collect::<Vec<_>>(), vec![1, 1]);
}

#[test]
fn multiset_insert_unique_refuses_present_values() {
    let mut m = MultiSet::singleton(3u32);
    assert!(!m.insert_unique(3));
    assert!(m.insert_unique(4));
    assert_eq!(m.len(), 2);
    assert!(!m.is_empty());
    assert!(MultiSet::<u32>::with_capacity(4).is_empty());
}

#[test]
fn multiset_equivalence_ignores_order_not_multiplicity() {
    let mut a: MultiSet<u32> = MultiSet::new();
    let mut b: MultiSet<u32> = MultiSet::new();
    for x in [1, 2, 2] {
        a.insert(x);
    }
    for x in [2, 1, 2] {
        b.insert(x);
    }
    assert!(a.equivalent(&b));
    let mut c: MultiSet<u32> = MultiSet::new();
    for x in [1, 1, 2] {
        c.insert(x);
    }
    assert!(!a.equivalent(&c));
}

#[test]
fn compare_unordered_slices() {
    assert!(compare_unordered(&[1, 2, 3], &[3, 1, 2]));
    assert!(!compare_unordered(&[1, 2], &[1, 2, 2]));
    assert!(compare_unordered_opt::<u8>(None, None));
    assert!(!compare_unordered_opt(Some(&[1u8][..]), None));
    assert!(compare_unordered_opt(Some(&[1u8, 2][..]), Some(&[2u8, 1][..])));
}

#[test]
fn set_hash_is_order_independent() {
    let a = vec![b"x".to_vec(), b"y".to_vec(), b"z".to_vec()];
    let b = vec![b"z".to_vec(), b"x".to_vec(), b"y".to_vec()];
    assert_eq!(hash_set(&a), hash_set(&b));
    assert_eq!(hash_set_opt(None), None);
    assert_eq!(hash_set_opt(Some(&a[..])), Some(hash_set(&a)));
}

#[test]
fn set_hash_of_empty_set_is_zero() {
    assert_eq!(hash_set(&[]), 0);
}

#[test]
fn set_hash_depends_on_items() {
    let a = vec![b"x".to_vec()];
    let b = vec![b"y".to_vec()];
    assert_ne!(hash_set(&a), hash_set(&b));
}

#[test]
fn processing_stack_detects_cycles() {
    let mut stack: ProcessingStack<String> = ProcessingStack::new();
    assert!(stack.is_empty());
    assert!(stack.push("http://a/".to_string()));
    assert!(stack.push("http://b/".to_string()));
    assert_eq!(stack.len(), 2);
    assert!(stack.cycle(&"http://a/".to_string()));
    assert!(!stack.cycle(&"http://c/".to_string()));
    assert!(!stack.push("http://a/".to_string()));
    assert_eq!(stack.len(), 2);
}

#[test]
fn vocabulary_remap_translates_minted_identifiers() {
    let mut remap = VocabularyRemap::identity();
    assert!(remap.is_identity());
    remap.insert_iri(7, 3);
    remap.insert_blank_id(1, 9);
    assert!(!remap.is_identity());
    assert_eq!(remap.iri(7), 3);
    assert_eq!(remap.iri(5), 5);
    assert_eq!(remap.blank_id(1), 9);
    assert_eq!(remap.id(Id::Valid(ValidId::Iri(7))), Id::Valid(ValidId::Iri(3)));
    assert_eq!(remap.id(Id::Valid(ValidId::Blank(1))), Id::Valid(ValidId::Blank(9)));
    assert_eq!(remap.id(Id::Invalid("x".to_string())), Id::Invalid("x".to_string()));
}

#[test]
fn item_hashes_combine_by_wrapping_sum() {
    assert_eq!(combine_hashes(&[1, 2, 3]), 6);
    assert_eq!(combine_hashes(&[u64::MAX, 2]), 1);
    assert_eq!(combine_hashes(&[5, 9, 11]), combine_hashes(&[11, 5, 9]));
    assert_eq!(combine_hashes(&[]), 0);
}

/// A word compared without regard to letter case.
#[derive(Debug)]
struct Word(&'static str);

impl PartialEq for Word {
    fn eq(&self, other: &Word) -> bool {
        self.0.eq_ignore_ascii_case(other.0)
    }
}

#[test]
fn compare_unordered_follows_the_values_equality() {
    assert!(compare_unordered(&[Word("Foo"), Word("bar")], &[Word("BAR"), Word("foo")]));
    assert!(!compare_unordered(&[Word("Foo"), Word("foo")], &[Word("foo"), Word("bar")]));
    assert!(!compare_unordered(&[Word("a")], &[Word("A"), Word("a")]));
}

#[test]
fn compare_unordered_counts_equivalent_values() {
    assert!(compare_unordered(&[Word("a"), Word("A"), Word("b")], &[Word("B"), Word("a"), Word("a")]));
    assert!(!compare_unordered(&[Word("a"), Word("a"), Word("b")], &[Word("a"), Word("b"), Word("b")]));
}
