use crate::error::MapError;
use crate::objects::{HitObject, ObjectDefinition, ObjectType, ObjectValue, TimelineObject};
use crate::types::StoredVec2;
use vstd::prelude::*;

verus! {

/// A note: a position to hit at a millisecond.
#[derive(Debug, Clone, Copy, PartialEq, Eq)]
pub struct Note {
    pub millisecond: u32,
    pub position: StoredVec2,
}

/// The note that an SSPM object definition describes: the definition must be
/// named "ssp_note" and its first value must be a position.
pub open spec fn note_of(d: crate::objects::DefinitionModel) -> Result<Note, MapError> {
    if d.name != "ssp_note"@ || d.data.len() < 1 {
        Err(MapError::InvalidNoteParams)
    } else {
        match d.data[0] {
            ObjectValue::Vec2(Some(p)) => Ok(Note { millisecond: d.millisecond, position: p }),
            _ => Err(MapError::InvalidNoteParams),
        }
    }
}

impl TimelineObject for Note {
    fn get_millisecond(&self) -> (r: u32)
        ensures
            r == self.millisecond,
    {
        self.millisecond
    }

    fn from_sspm_definition(definition: ObjectDefinition) -> (r: Result<Note, MapError>)
        ensures
            r == note_of(definition@),
    {
        if !(definition.name == String::from_str("ssp_note")) || definition.data.len() < 1 {
            return Err(MapError::InvalidNoteParams);
        }
        match &definition.data[0] {
            ObjectType::Vec2(Some(value)) => Ok(Note { millisecond: definition.millisecond, position: *value }),
            _ => Err(MapError::InvalidNoteParams),
        }
    }
}

impl HitObject for Note {
    fn get_position(&self) -> (r: &StoredVec2)
        ensures
            *r == self.position,
    {
        &self.position
    }
}

} // verus!
