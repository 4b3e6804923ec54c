use jsonld::link::Link;

fn parse_one(value: &str) -> Link {
    let mut links = Link::parse_header(value.as_bytes());
    assert_eq!(links.len(), 1);
    links.pop().unwrap()
}

#[test]
fn parse_link_1() {
    let link = parse_one("<http://www.example.org/context>; rel=\"context\"; type=\"application/ld+json\"");
    assert_eq!(link.href(), "http://www.example.org/context");
    assert_eq!(link.rel(), Some(b"context".as_slice()));
    assert_eq!(link.type_(), Some(b"application/ld+json".as_slice()));
}

#[test]
fn parse_link_2() {
    let link = parse_one("<http://www.example.org/context>; rel=\"context\"; type=\"application/ld+json\"; foo=\"bar\"");
    assert_eq!(link.href(), "http://www.example.org/context");
    assert_eq!(link.rel(), Some(b"context".as_slice()));
    assert_eq!(link.type_(), Some(b"application/ld+json".as_slice()));
}

#[test]
fn parse_link_3() {
    let link = parse_one("<http://www.example.org/context>");
    assert_eq!(link.href(), "http://www.example.org/context");
}

#[test]
fn parse_link_unquoted_value() {
    let link = parse_one("<http://www.example.org/context>; rel=alternate; type=application/ld+json");
    assert_eq!(link.rel(), Some(b"alternate".as_slice()));
    assert_eq!(link.type_(), Some(b"application/ld+json".as_slice()));
}

#[test]
fn parse_link_coalesced() {
    let links = Link::parse_header(
        "<http://www.example.org/a>; rel=\"alternate\", <http://www.example.org/context>; rel=\"http://www.w3.org/ns/json-ld#context\"".as_bytes(),
    );
    assert_eq!(links.len(), 2);
    assert_eq!(links[0].href(), "http://www.example.org/a");
    assert_eq!(links[0].rel(), Some(b"alternate".as_slice()));
    assert_eq!(links[1].href(), "http://www.example.org/context");
    assert_eq!(links[1].rel(), Some(b"http://www.w3.org/ns/json-ld#context".as_slice()));
}

#[test]
fn parse_link_comma_inside_quoted_value() {
    let links = Link::parse_header("<http://www.example.org/a>; title=\"a, b\", <http://www.example.org/b>".as_bytes());
    assert_eq!(links.len(), 2);
    assert_eq!(links[0].param(b"title"), Some(b"a, b".as_slice()));
    assert_eq!(links[1].href(), "http://www.example.org/b");
}

#[test]
fn parse_link_unquoted_value_before_comma() {
    let links = Link::parse_header("<http://www.example.org/a>; rel=alternate, <http://www.example.org/b>; rel=next".as_bytes());
    assert_eq!(links.len(), 2);
    assert_eq!(links[0].rel(), Some(b"alternate".as_slice()));
    assert_eq!(links[1].rel(), Some(b"next".as_slice()));
}

#[test]
fn link_quoted_pair_escape_keeps_the_escaped_byte() {
    let links = Link::parse_header("<http://example.org/a>; title=\"say \\\"hi\\\"\"".as_bytes());
    assert_eq!(links.len(), 1);
    assert_eq!(links[0].param(b"title"), Some(b"say \"hi\"".as_slice()));
}

#[test]
fn link_malformed_input_keeps_links_parsed_so_far() {
    let links = Link::parse_header("<http://example.org/a>; rel=next, garbage <http://example.org/b>".as_bytes());
    assert_eq!(links.len(), 1);
    assert_eq!(links[0].href(), "http://example.org/a");
}

#[test]
fn link_cut_inside_quoted_value_is_dropped() {
    let links = Link::parse_header("<http://example.org/a>; rel=\"unterminated".as_bytes());
    assert!(links.is_empty());
}

#[test]
fn link_later_parameter_replaces_earlier_one() {
    let links = Link::parse_header("<http://example.org/a>; rel=a; rel=b".as_bytes());
    assert_eq!(links.len(), 1);
    assert_eq!(links[0].rel(), Some(b"b".as_slice()));
    assert_eq!(links[0].type_(), None);
}

#[test]
fn link_empty_header_has_no_links() {
    assert!(Link::parse_header(b"").is_empty());
}
