//! Objects of a map's timeline, as the formats declare and store them.
use crate::error::MapError;
use crate::types::{StoredVec2, StoredVec3};
use vstd::prelude::*;

pub mod note;

pub use note::{note_of, Note};

verus! {

/// A typed value of an object, or (holding `None`) the type of such a value.
///
/// `F32` and `F64` hold the IEEE-754 bit patterns of their values.
#[derive(Debug)]
pub enum ObjectType {
    U8(Option<u8>),
    I16(Option<i16>),
    U16(Option<u16>),
    I32(Option<i32>),
    U32(Option<u32>),
    I64(Option<i64>),
    U64(Option<u64>),
    F32(Option<u32>),
    F64(Option<u64>),
    Bool(Option<bool>),
    Vec2(Option<StoredVec2>),
    Buf(Option<Vec<u8>>),
    String(Option<String>),
    LongBuf(Option<Vec<u8>>),
    LongString(Option<String>),
    Vec3(Option<StoredVec3>),
    Vec(Option<Vec<ObjectType>>),
    LongVec(Option<Vec<ObjectType>>),
    HashMap(Option<Vec<(ObjectType, ObjectType)>>),
    LongHashMap(Option<Vec<(ObjectType, ObjectType)>>),
    Tuple(Option<Vec<ObjectType>>),
}

/// The value of an [`ObjectType`]; the contents of the container variants are
/// kept as they are.
pub enum ObjectValue {
    U8(Option<u8>),
    I16(Option<i16>),
    U16(Option<u16>),
    I32(Option<i32>),
    U32(Option<u32>),
    I64(Option<i64>),
    U64(Option<u64>),
    F32(Option<u32>),
    F64(Option<u64>),
    Bool(Option<bool>),
    Vec2(Option<StoredVec2>),
    Buf(Option<Seq<u8>>),
    String(Option<Seq<char>>),
    LongBuf(Option<Seq<u8>>),
    LongString(Option<Seq<char>>),
    Vec3(Option<StoredVec3>),
    Vec(Option<Seq<ObjectType>>),
    LongVec(Option<Seq<ObjectType>>),
    HashMap(Option<Seq<(ObjectType, ObjectType)>>),
    LongHashMap(Option<Seq<(ObjectType, ObjectType)>>),
    Tuple(Option<Seq<ObjectType>>),
}

impl View for ObjectType {
    type V = ObjectValue;

    open spec fn view(&self) -> ObjectValue {
        match self {
            ObjectType::U8(v) => ObjectValue::U8(*v),
            ObjectType::I16(v) => ObjectValue::I16(*v),
            ObjectType::U16(v) => ObjectValue::U16(*v),
            ObjectType::I32(v) => ObjectValue::I32(*v),
            ObjectType::U32(v) => ObjectValue::U32(*v),
            ObjectType::I64(v) => ObjectValue::I64(*v),
            ObjectType::U64(v) => ObjectValue::U64(*v),
            ObjectType::F32(v) => ObjectValue::F32(*v),
            ObjectType::F64(v) => ObjectValue::F64(*v),
            ObjectType::Bool(v) => ObjectValue::Bool(*v),
            ObjectType::Vec2(v) => ObjectValue::Vec2(*v),
            ObjectType::Buf(v) => ObjectValue::Buf(crate::map::opt_bytes(*v)),
            ObjectType::String(v) => ObjectValue::String(crate::map::opt_text(*v)),
            ObjectType::LongBuf(v) => ObjectValue::LongBuf(crate::map::opt_bytes(*v)),
            ObjectType::LongString(v) => ObjectValue::LongString(crate::map::opt_text(*v)),
            ObjectType::Vec3(v) => ObjectValue::Vec3(*v),
            ObjectType::Vec(v) => ObjectValue::Vec(
                match v {
                    Some(items) => Some(items@),
                    None => None,
                },
            ),
            ObjectType::LongVec(v) => ObjectValue::LongVec(
                match v {
                    Some(items) => Some(items@),
                    None => None,
                },
            ),
            ObjectType::HashMap(v) => ObjectValue::HashMap(
                match v {
                    Some(items) => Some(items@),
                    None => None,
                },
            ),
            ObjectType::LongHashMap(v) => ObjectValue::LongHashMap(
                match v {
                    Some(items) => Some(items@),
                    None => None,
                },
            ),
            ObjectType::Tuple(v) => ObjectValue::Tuple(
                match v {
                    Some(items) => Some(items@),
                    None => None,
                },
            ),
        }
    }
}

/// An object at a point of the timeline: a named list of values.
#[derive(Debug)]
pub struct ObjectDefinition {
    pub name: String,
    pub millisecond: u32,
    pub data: Vec<ObjectType>,
}

/// The value of an [`ObjectDefinition`].
pub struct DefinitionModel {
    pub name: Seq<char>,
    pub millisecond: u32,
    pub data: Seq<ObjectValue>,
}

/// The views of a list of values.
pub open spec fn values(v: Seq<ObjectType>) -> Seq<ObjectValue> {
    v.map_values(|o: ObjectType| o@)
}

impl View for ObjectDefinition {
    type V = DefinitionModel;

    open spec fn view(&self) -> DefinitionModel {
        DefinitionModel { name: self.name@, millisecond: self.millisecond, data: values(self.data@) }
    }
}

/// An object placed at a millisecond of the timeline.
pub trait TimelineObject: Sized {
    /// The millisecond at which the object stands.
    fn get_millisecond(&self) -> u32;

    /// The object that an SSPM object definition describes.
    fn from_sspm_definition(definition: ObjectDefinition) -> Result<Self, MapError>;
}

/// An object that the player hits at a position.
pub trait HitObject {
    /// Where the object is, as stored.
    fn get_position(&self) -> &StoredVec2;
}

} // verus!
