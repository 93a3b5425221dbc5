use squircle::error::MapError;
use squircle::objects::ObjectType;

#[test]
fn nyam_type_tags() {
    assert!(matches!(ObjectType::from_nyam(0x00), Ok(ObjectType::U8(None))));
    assert!(matches!(ObjectType::from_nyam(0x01), Ok(ObjectType::I16(None))));
    assert!(matches!(ObjectType::from_nyam(0x09), Ok(ObjectType::Bool(None))));
    assert!(matches!(ObjectType::from_nyam(0x0A), Ok(ObjectType::String(None))));
    assert!(matches!(ObjectType::from_nyam(0x0B), Ok(ObjectType::Buf(None))));
    assert!(matches!(ObjectType::from_nyam(0x0E), Ok(ObjectType::LongVec(None))));
    assert!(matches!(ObjectType::from_nyam(0x0F), Err(MapError::InvalidObjectType)));
}

#[test]
fn rhym_type_tags() {
    assert!(matches!(ObjectType::from_rhym(0x00), Ok(ObjectType::U8(None))));
    assert!(matches!(ObjectType::from_rhym(0x0B), Ok(ObjectType::LongString(None))));
    assert!(matches!(ObjectType::from_rhym(0x0C), Ok(ObjectType::Buf(None))));
    assert!(matches!(ObjectType::from_rhym(0x10), Ok(ObjectType::HashMap(None))));
    assert!(matches!(ObjectType::from_rhym(0x12), Ok(ObjectType::Tuple(None))));
    assert!(matches!(ObjectType::from_rhym(0x13), Err(MapError::InvalidObjectType)));
}

#[test]
fn tags_of_one_value_differ_between_formats() {
    assert!(matches!(ObjectType::from_sspm(0x09), Ok(ObjectType::String(None))));
    assert!(matches!(ObjectType::from_nyam(0x09), Ok(ObjectType::Bool(None))));
    assert!(matches!(ObjectType::from_rhym(0x09), Ok(ObjectType::Bool(None))));
}
