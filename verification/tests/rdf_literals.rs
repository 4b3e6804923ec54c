use jsonld::json::Json;
use jsonld::rdf::{rdf_literal, RdfDirection, RdfLiteral};
use jsonld::syntax::Direction;
use jsonld::value::{LangString, Literal, Value};

fn typed(text: &str, ty: &str) -> Option<RdfLiteral> {
    Some(RdfLiteral::Typed(text.to_string(), ty.to_string()))
}

const XSD: &str = "http://www.w3.org/2001/XMLSchema#";

#[test]
fn booleans_nulls_and_strings_take_their_datatypes() {
    let t = Value::Literal(Literal::Boolean(true), None);
    assert_eq!(rdf_literal(&t, None, None, false, None), typed("true", &format!("{XSD}boolean")));
    let n = Value::Literal(Literal::Null, None);
    assert_eq!(rdf_literal(&n, None, None, false, None), typed("null", &format!("{XSD}string")));
    let s = Value::Literal(Literal::String("hi".to_string()), Some("http://example.com/t".to_string()));
    assert_eq!(rdf_literal(&s, None, None, false, None), typed("hi", "http://example.com/t"));
}

#[test]
fn numbers_are_integers_or_doubles() {
    let n = Value::Literal(Literal::Number("42".to_string()), None);
    assert_eq!(rdf_literal(&n, None, None, true, None), typed("42", &format!("{XSD}integer")));
    assert_eq!(rdf_literal(&n, None, None, false, Some("4.2E1".to_string())), typed("4.2E1", &format!("{XSD}double")));
    let d = Value::Literal(Literal::Number("42".to_string()), Some(format!("{XSD}double")));
    assert_eq!(rdf_literal(&d, None, None, true, Some("4.2E1".to_string())), typed("4.2E1", &format!("{XSD}double")));
    assert_eq!(rdf_literal(&n, None, None, false, None), None);
}

#[test]
fn language_strings_follow_the_direction_encoding() {
    let v = Value::LangString(LangString::new("hello".to_string(), Some("en".to_string()), Some(Direction::Ltr)).unwrap());
    assert_eq!(rdf_literal(&v, None, None, false, None), Some(RdfLiteral::LangString("hello".to_string(), "en".to_string())));
    assert_eq!(
        rdf_literal(&v, Some(RdfDirection::I18nDatatype), None, false, None),
        typed("hello", "https://www.w3.org/ns/i18n#en_ltr")
    );
    assert_eq!(rdf_literal(&v, Some(RdfDirection::CompoundLiteral), None, false, None), Some(RdfLiteral::Compound));
    let bad = Value::LangString(LangString::new("x".to_string(), Some("not a tag!".to_string()), None).unwrap());
    assert_eq!(rdf_literal(&bad, None, None, false, None), None);
    let nolang = Value::LangString(LangString::new("x".to_string(), None, Some(Direction::Rtl)).unwrap());
    assert_eq!(rdf_literal(&nolang, Some(RdfDirection::I18nDatatype), None, false, None), typed("x", "https://www.w3.org/ns/i18n#rtl"));
}

#[test]
fn json_literals_take_their_printed_form() {
    let v = Value::Json(Json::Boolean(true));
    assert_eq!(
        rdf_literal(&v, None, Some("true".to_string()), false, None),
        typed("true", "http://www.w3.org/1999/02/22-rdf-syntax-ns#JSON")
    );
}
