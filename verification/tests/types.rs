use squircle::map::MapFormat;
use squircle::types::{vector_parts, ParseVectorError, VectorErrorKind};

#[test]
fn splits_vector_literals_at_underscores() {
    assert_eq!(vector_parts("1.5_-2"), Ok((String::from("1.5"), String::from("-2"))));
    assert_eq!(vector_parts("1_2_3"), Ok((String::from("1"), String::from("2"))));
    assert_eq!(vector_parts("_"), Ok((String::new(), String::new())));
}

#[test]
fn a_literal_without_an_underscore_is_invalid() {
    let e = vector_parts("12").unwrap_err();
    assert_eq!(e.get_kind(), VectorErrorKind::Invalid);
    assert_eq!(vector_parts("").unwrap_err().get_kind(), VectorErrorKind::Invalid);
}

#[test]
fn vector_errors_describe_themselves() {
    assert_eq!(
        ParseVectorError::new(VectorErrorKind::Empty).description(),
        "cannot parse vector from empty string"
    );
    assert_eq!(ParseVectorError::new(VectorErrorKind::Invalid).description(), "invalid vector literal");
    assert_eq!(ParseVectorError::new(VectorErrorKind::Radix).description(), "invalid radix literal");
}

#[test]
fn formats_by_extension() {
    assert_eq!(MapFormat::from_extension("sspm"), Some(MapFormat::SSPM));
    assert_eq!(MapFormat::from_extension("phxm"), Some(MapFormat::PHXM));
    assert_eq!(MapFormat::from_extension("SSPM"), None);
    assert_eq!(MapFormat::from_extension(""), None);
    assert_eq!(MapFormat::default(), MapFormat::SSPM);
}
