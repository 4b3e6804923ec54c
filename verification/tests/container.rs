use jsonld::container::{Container, ContainerKind, ContainerSyntax, Nullable};

#[test]
fn graph_set_with_index_maps_to_graph_index_set() {
    assert_eq!(Container::GraphSet.with(ContainerKind::Index), Some(Container::GraphIndexSet));
}

#[test]
fn container_with_is_idempotent() {
    assert_eq!(Container::IndexSet.with(ContainerKind::Index), Some(Container::IndexSet));
}

#[test]
fn container_with_refuses_incompatible_keywords() {
    assert_eq!(Container::List.with(ContainerKind::AtSet), None);
    assert_eq!(Container::Id.with(ContainerKind::Index), None);
}

#[test]
fn container_lengths_and_contents() {
    assert_eq!(Container::new(), Container::Empty);
    assert!(Container::Empty.is_empty());
    assert_eq!(Container::GraphIdSet.len(), 3);
    assert!(Container::GraphIdSet.contains(ContainerKind::Id));
    assert!(!Container::GraphIdSet.contains(ContainerKind::Index));
    assert_eq!(Container::SetType.as_slice(), vec![ContainerKind::Type, ContainerKind::AtSet]);
}

#[test]
fn container_add_reports_success() {
    let mut c = Container::Graph;
    assert!(c.add(ContainerKind::AtSet));
    assert_eq!(c, Container::GraphSet);
    assert!(!c.add(ContainerKind::List));
    assert_eq!(c, Container::GraphSet);
}

#[test]
fn container_from_list_of_keywords() {
    assert_eq!(Container::from(&[ContainerKind::AtSet, ContainerKind::Graph, ContainerKind::Index]), Ok(Container::GraphIndexSet));
    assert_eq!(Container::from(&[ContainerKind::List, ContainerKind::AtSet]), Err(ContainerKind::AtSet));
    assert_eq!(Container::from(&[]), Ok(Container::Empty));
}

#[test]
fn container_syntax_round_trip() {
    let syntax = ContainerSyntax::Many(vec![ContainerKind::Graph, ContainerKind::Id]);
    let c = Container::from_syntax(Nullable::Value(&syntax)).unwrap();
    assert_eq!(c, Container::GraphId);
    assert_eq!(c.into_syntax(), Some(syntax));
    assert_eq!(Container::from_syntax(Nullable::Null).unwrap(), Container::Empty);
    assert_eq!(Container::Empty.into_syntax(), None);
    assert_eq!(Container::Type.into_syntax(), Some(ContainerSyntax::One(ContainerKind::Type)));
}

#[test]
fn container_from_syntax_refuses_bad_combination() {
    let syntax = ContainerSyntax::Many(vec![ContainerKind::List, ContainerKind::Type]);
    assert!(Container::from_syntax(Nullable::Value(&syntax)).is_err());
}
