//! The NYAM format: its object type tags.
use crate::error::MapError;
use crate::objects::{ObjectType, ObjectValue};
use crate::sspm::serde::value_result;
use vstd::prelude::*;

verus! {

/// The codec of NYAZ map sets.
pub struct NYAZSerde;

/// The codec of NYAM maps.
pub struct NYAMSerde;

/// The type that a NYAM type tag names.
pub open spec fn nyam_tag(tag: u8) -> Result<ObjectValue, MapError> {
    if tag == 0x00 {
        Ok(ObjectValue::U8(None))
    } else if tag == 0x01 {
        Ok(ObjectValue::I16(None))
    } else if tag == 0x02 {
        Ok(ObjectValue::U16(None))
    } else if tag == 0x03 {
        Ok(ObjectValue::I32(None))
    } else if tag == 0x04 {
        Ok(ObjectValue::U32(None))
    } else if tag == 0x05 {
        Ok(ObjectValue::I64(None))
    } else if tag == 0x06 {
        Ok(ObjectValue::U64(None))
    } else if tag == 0x07 {
        Ok(ObjectValue::F32(None))
    } else if tag == 0x08 {
        Ok(ObjectValue::F64(None))
    } else if tag == 0x09 {
        Ok(ObjectValue::Bool(None))
    } else if tag == 0x0A {
        Ok(ObjectValue::String(None))
    } else if tag == 0x0B {
        Ok(ObjectValue::Buf(None))
    } else if tag == 0x0C {
        Ok(ObjectValue::LongBuf(None))
    } else if tag == 0x0D {
        Ok(ObjectValue::Vec(None))
    } else if tag == 0x0E {
        Ok(ObjectValue::LongVec(None))
    } else {
        Err(MapError::InvalidObjectType)
    }
}

impl ObjectType {
    /// The type that a NYAM type tag names.
    pub fn from_nyam(value: u8) -> (r: Result<ObjectType, MapError>)
        ensures
            value_result(r) == nyam_tag(value),
    {
        match value {
            0x00 => Ok(ObjectType::U8(None)),
            0x01 => Ok(ObjectType::I16(None)),
            0x02 => Ok(ObjectType::U16(None)),
            0x03 => Ok(ObjectType::I32(None)),
            0x04 => Ok(ObjectType::U32(None)),
            0x05 => Ok(ObjectType::I64(None)),
            0x06 => Ok(ObjectType::U64(None)),
            0x07 => Ok(ObjectType::F32(None)),
            0x08 => Ok(ObjectType::F64(None)),
            0x09 => Ok(ObjectType::Bool(None)),
            0x0A => Ok(ObjectType::String(None)),
            0x0B => Ok(ObjectType::Buf(None)),
            0x0C => Ok(ObjectType::LongBuf(None)),
            0x0D => Ok(ObjectType::Vec(None)),
            0x0E => Ok(ObjectType::LongVec(None)),
            _ => Err(MapError::InvalidObjectType),
        }
    }
}

} // verus!
