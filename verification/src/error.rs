use vstd::prelude::*;

verus! {

/// Why reading or writing a map failed.
#[derive(Debug, Clone, Copy, PartialEq, Eq)]
pub enum MapError {
    /// The input ended before a value could be read completely.
    UnexpectedEof,
    /// A string's bytes are not valid UTF-8.
    InvalidUtf8,
    /// A seek would move before the start of the stream or past `u64::MAX`.
    InvalidSeek,
    /// An object type tag is unknown, or the type cannot be decoded here.
    InvalidObjectType,
    /// The file does not start with the expected signature.
    IncorrectSignature,
    /// The file's format version is not supported.
    UnsupportedVersion,
    /// An object definition is not followed by its zero terminator byte.
    MissingDefinitionTerminator,
    /// An object does not carry the parameters of a note.
    InvalidNoteParams,
    /// An object refers to a definition index that was never declared.
    UnknownObjectDefinition,
    /// The end of the object section lies beyond `u64::MAX`.
    ObjectSectionOverflow,
    /// A length read from the input exceeds what a buffer can hold.
    CapacityOverflow,
    /// Audio data was given that is not recognised as audio.
    InvalidAudio,
    /// The zip container could not be read or written.
    Archive,
}

} // verus!
