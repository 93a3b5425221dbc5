//! Reading and writing SSPM maps.
//!
//! An SSPM v2 file starts with a fixed 128-byte header: the signature
//! "SS+m", the version, a digest, counts, flags, and the offsets and lengths
//! of its sections. Strings follow, then optional custom data, audio and cover
//! data, the object definitions and the objects. Version 1 files hold
//! newline-terminated strings and a plain list of notes.
use crate::codec::{
    encode_u16, encode_u32, encode_u64, le_u32, le_u64, lemma_u64_roundtrip, u16_le, u32_le, u64_le,
};
use crate::error::MapError;
use crate::io::{
    read_line_at, read_long_string_at, read_string_at, read_u16_at, read_u32_at,
    read_u64_at, read_u8_at, read_vec2_at, take_at, BinaryReader, BinaryWriter,
    lemma_write_append, lemma_write_over, SeekFrom, Step,
};
use vstd::utf8::{encode_utf8, is_ascii_chars_encode_utf8};
use crate::objects::{
    note_of, values, DefinitionModel, Note, ObjectDefinition, ObjectType, ObjectValue,
    TimelineObject,
};
use crate::map::{
    default_text, map_result, opt_bytes, texts, BeatMap, DifficultyName, InfoModel, MapFormat,
    MapInfo, MapMetadata, MapModel, MapObjects,
};
use crate::text::{
    chars_of, lemma_split_nonempty, remove_all, remove_text, split_on, split_text, trim, trim_text,
};
use crate::types::StoredVec2;
use std::collections::HashMap;
use vstd::prelude::*;

verus! {

/// The SSPM codec.
pub struct SSPMSerde;

/// The type that an SSPM type tag names.
pub open spec fn sspm_tag(tag: u8) -> Result<ObjectValue, MapError> {
    if tag == 0x01 {
        Ok(ObjectValue::U8(None))
    } else if tag == 0x02 {
        Ok(ObjectValue::U16(None))
    } else if tag == 0x03 {
        Ok(ObjectValue::U32(None))
    } else if tag == 0x04 {
        Ok(ObjectValue::U64(None))
    } else if tag == 0x05 {
        Ok(ObjectValue::F32(None))
    } else if tag == 0x06 {
        Ok(ObjectValue::F64(None))
    } else if tag == 0x07 {
        Ok(ObjectValue::Vec2(None))
    } else if tag == 0x08 {
        Ok(ObjectValue::Buf(None))
    } else if tag == 0x09 {
        Ok(ObjectValue::String(None))
    } else if tag == 0x0A {
        Ok(ObjectValue::LongBuf(None))
    } else if tag == 0x0B {
        Ok(ObjectValue::LongString(None))
    } else if tag == 0x0C {
        Ok(ObjectValue::Vec(None))
    } else {
        Err(MapError::InvalidObjectType)
    }
}

/// The view of the outcome of producing an object value.
pub open spec fn value_result(r: Result<ObjectType, MapError>) -> Result<ObjectValue, MapError> {
    match r {
        Ok(v) => Ok(v@),
        Err(e) => Err(e),
    }
}

/// A step whose value is passed through `f`.
pub open spec fn lift<A, B>(s: Step<A>, f: spec_fn(A) -> B) -> Step<B> {
    (
        s.0,
        match s.1 {
            Ok(a) => Ok(f(a)),
            Err(e) => Err(e),
        },
    )
}

/// A buffer of `n` bytes read after its length.
pub open spec fn buffer_after(data: Seq<u8>, len: Step<int>) -> Step<Seq<u8>> {
    match len.1 {
        Ok(n) => take_at(data, len.0, n),
        Err(e) => (len.0, Err(e)),
    }
}

/// A value of type `kind` read at `pos`. Lists, vectors of three, maps,
/// tuples and the signed and boolean types cannot be read.
pub open spec fn read_value_at(data: Seq<u8>, pos: int, kind: ObjectValue) -> Step<ObjectValue> {
    match kind {
        ObjectValue::U8(_) => lift(read_u8_at(data, pos), |v: u8| ObjectValue::U8(Some(v))),
        ObjectValue::U16(_) => lift(read_u16_at(data, pos), |v: u16| ObjectValue::U16(Some(v))),
        ObjectValue::U32(_) => lift(read_u32_at(data, pos), |v: u32| ObjectValue::U32(Some(v))),
        ObjectValue::U64(_) => lift(read_u64_at(data, pos), |v: u64| ObjectValue::U64(Some(v))),
        ObjectValue::F32(_) => lift(read_u32_at(data, pos), |v: u32| ObjectValue::F32(Some(v))),
        ObjectValue::F64(_) => lift(read_u64_at(data, pos), |v: u64| ObjectValue::F64(Some(v))),
        ObjectValue::Vec2(_) => lift(
            read_vec2_at(data, pos),
            |v: StoredVec2| ObjectValue::Vec2(Some(v)),
        ),
        ObjectValue::Buf(_) => lift(
            buffer_after(data, lift(read_u16_at(data, pos), |n: u16| n as int)),
            |b: Seq<u8>| ObjectValue::Buf(Some(b)),
        ),
        ObjectValue::LongBuf(_) => lift(
            buffer_after(data, lift(read_u32_at(data, pos), |n: u32| n as int)),
            |b: Seq<u8>| ObjectValue::LongBuf(Some(b)),
        ),
        ObjectValue::String(_) => lift(
            read_string_at(data, pos),
            |s: Seq<char>| ObjectValue::String(Some(s)),
        ),
        ObjectValue::LongString(_) => lift(
            read_long_string_at(data, pos),
            |s: Seq<char>| ObjectValue::LongString(Some(s)),
        ),
        _ => (pos, Err(MapError::InvalidObjectType)),
    }
}

/// The values of the types `kinds`, read one after another from `pos`.
pub open spec fn values_at(data: Seq<u8>, pos: int, kinds: Seq<ObjectValue>) -> Step<
    Seq<ObjectValue>,
>
    decreases kinds.len(),
{
    if kinds.len() == 0 {
        (pos, Ok(Seq::empty()))
    } else {
        let (p, r) = values_at(data, pos, kinds.drop_last());
        match r {
            Err(e) => (p, Err(e)),
            Ok(vs) => lift(read_value_at(data, p, kinds.last()), |v: ObjectValue| vs.push(v)),
        }
    }
}

/// `n` type tags read from `pos`.
pub open spec fn kinds_at(data: Seq<u8>, pos: int, n: nat) -> Step<Seq<ObjectValue>>
    decreases n,
{
    if n == 0 {
        (pos, Ok(Seq::empty()))
    } else {
        let (p, r) = kinds_at(data, pos, (n - 1) as nat);
        match r {
            Err(e) => (p, Err(e)),
            Ok(ks) => {
                let (q, t) = read_u8_at(data, p);
                match t {
                    Err(e) => (q, Err(e)),
                    Ok(t) => match sspm_tag(t) {
                        Err(e) => (q, Err(e)),
                        Ok(k) => (q, Ok(ks.push(k))),
                    },
                }
            },
        }
    }
}

/// An object definition read at `pos`: its name, the count and tags of its
/// values, and a zero byte. A missing zero byte at the end of the data is
/// tolerated.
pub open spec fn definition_at(data: Seq<u8>, pos: int) -> Step<DefinitionModel> {
    let (p1, name) = read_string_at(data, pos);
    match name {
        Err(e) => (p1, Err(e)),
        Ok(name) => {
            let (p2, n) = read_u8_at(data, p1);
            match n {
                Err(e) => (p2, Err(e)),
                Ok(n) => {
                    let (p3, ks) = kinds_at(data, p2, n as nat);
                    match ks {
                        Err(e) => (p3, Err(e)),
                        Ok(ks) => {
                            let d = DefinitionModel { name, millisecond: 0, data: ks };
                            let (p4, z) = read_u8_at(data, p3);
                            match z {
                                Ok(z) => if z != 0 {
                                    (p4, Err(MapError::MissingDefinitionTerminator))
                                } else {
                                    (p4, Ok(d))
                                },
                                Err(_) => (p4, Ok(d)),
                            }
                        },
                    }
                },
            }
        },
    }
}

/// `n` object definitions read from `pos`.
pub open spec fn definitions_at(data: Seq<u8>, pos: int, n: nat) -> Step<Seq<DefinitionModel>>
    decreases n,
{
    if n == 0 {
        (pos, Ok(Seq::empty()))
    } else {
        let (p, r) = definitions_at(data, pos, (n - 1) as nat);
        match r {
            Err(e) => (p, Err(e)),
            Ok(ds) => lift(definition_at(data, p), |d: DefinitionModel| ds.push(d)),
        }
    }
}

/// The object definitions section: a count, then the definitions.
pub open spec fn definition_section_at(data: Seq<u8>, pos: int) -> Step<Seq<DefinitionModel>> {
    let (p, n) = read_u8_at(data, pos);
    match n {
        Err(e) => (p, Err(e)),
        Ok(n) => definitions_at(data, p, n as nat),
    }
}

/// An object read at `pos`: its millisecond, the index of its definition,
/// then the values that the definition lists.
pub open spec fn object_at(data: Seq<u8>, pos: int, defs: Seq<DefinitionModel>) -> Step<
    DefinitionModel,
> {
    let (p1, ms) = read_u32_at(data, pos);
    match ms {
        Err(e) => (p1, Err(e)),
        Ok(ms) => {
            let (p2, d) = read_u8_at(data, p1);
            match d {
                Err(e) => (p2, Err(e)),
                Ok(d) => if d >= defs.len() {
                    (p2, Err(MapError::UnknownObjectDefinition))
                } else {
                    lift(
                        values_at(data, p2, defs[d as int].data),
                        |vs: Seq<ObjectValue>|
                            DefinitionModel {
                                name: defs[d as int].name,
                                millisecond: ms,
                                data: vs,
                            },
                    )
                },
            }
        },
    }
}

/// The name under which notes are defined.
pub open spec fn note_name() -> Seq<char> {
    "ssp_note"@
}

/// Notes and other objects with `note` or `other` put in front.
pub open spec fn prepend_objects(
    note: Seq<Note>,
    other: Seq<DefinitionModel>,
    rest: Result<(Seq<Note>, Seq<DefinitionModel>), MapError>,
) -> Result<(Seq<Note>, Seq<DefinitionModel>), MapError> {
    match rest {
        Ok((ns, os)) => Ok((note + ns, other + os)),
        Err(e) => Err(e),
    }
}

/// The objects from `pos` up to `end`: objects named "ssp_note" become notes,
/// the others are kept as they are.
pub open spec fn objects_from(
    data: Seq<u8>,
    pos: int,
    end: int,
    defs: Seq<DefinitionModel>,
) -> Result<(Seq<Note>, Seq<DefinitionModel>), MapError>
    decreases data.len() - pos,
{
    if pos >= end {
        Ok((Seq::empty(), Seq::empty()))
    } else {
        let (p, o) = object_at(data, pos, defs);
        match o {
            Err(e) => Err(e),
            Ok(obj) => {
                proof {
                    lemma_object_advances(data, pos, defs);
                }
                if obj.name == note_name() {
                    match note_of(obj) {
                        Err(e) => Err(e),
                        Ok(n) => prepend_objects(
                            seq![n],
                            Seq::empty(),
                            objects_from(data, p, end, defs),
                        ),
                    }
                } else {
                    prepend_objects(Seq::empty(), seq![obj], objects_from(data, p, end, defs))
                }
            },
        }
    }
}

/// A value read successfully ends at or after where it started, and within
/// the data unless it took no bytes.
pub proof fn lemma_value_advances(data: Seq<u8>, pos: int, kind: ObjectValue)
    ensures
        ({
            let (p, r) = read_value_at(data, pos, kind);
            r is Ok ==> pos <= p && (p == pos || p <= data.len())
        }),
{
}

pub proof fn lemma_values_advance(data: Seq<u8>, pos: int, kinds: Seq<ObjectValue>)
    ensures
        ({
            let (p, r) = values_at(data, pos, kinds);
            r is Ok ==> pos <= p && (p == pos || p <= data.len())
        }),
    decreases kinds.len(),
{
    if kinds.len() > 0 {
        lemma_values_advance(data, pos, kinds.drop_last());
        let (p, r) = values_at(data, pos, kinds.drop_last());
        lemma_value_advances(data, p, kinds.last());
    }
}

/// An object read successfully ends after where it started, within the data.
pub proof fn lemma_object_advances(data: Seq<u8>, pos: int, defs: Seq<DefinitionModel>)
    ensures
        ({
            let (p, r) = object_at(data, pos, defs);
            r is Ok ==> pos < p <= data.len()
        }),
{
    let (p1, ms) = read_u32_at(data, pos);
    let (p2, d) = read_u8_at(data, p1);
    if let Ok(d) = d {
        if (d as int) < defs.len() {
            lemma_values_advance(data, p2, defs[d as int].data);
        }
    }
}

/// `n` custom data fields read from `pos`: a name, a type tag and a value each.
pub open spec fn custom_fields_at(data: Seq<u8>, pos: int, n: nat) -> Step<
    Seq<(Seq<char>, ObjectValue)>,
>
    decreases n,
{
    if n == 0 {
        (pos, Ok(Seq::empty()))
    } else {
        let (p, r) = custom_fields_at(data, pos, (n - 1) as nat);
        match r {
            Err(e) => (p, Err(e)),
            Ok(fs) => {
                let (p1, name) = read_string_at(data, p);
                match name {
                    Err(e) => (p1, Err(e)),
                    Ok(name) => {
                        let (p2, t) = read_u8_at(data, p1);
                        match t {
                            Err(e) => (p2, Err(e)),
                            Ok(t) => match sspm_tag(t) {
                                Err(e) => (p2, Err(e)),
                                Ok(kind) => lift(
                                    read_value_at(data, p2, kind),
                                    |v: ObjectValue| fs.push((name, v)),
                                ),
                            },
                        }
                    },
                }
            },
        }
    }
}

/// The custom data at `offset`: a count, then the fields.
pub open spec fn custom_data_at(data: Seq<u8>, offset: int) -> Step<
    Seq<(Seq<char>, ObjectValue)>,
> {
    let (p, n) = read_u16_at(data, offset);
    match n {
        Err(e) => (p, Err(e)),
        Ok(n) => custom_fields_at(data, p, n as nat),
    }
}

/// The value of the last field named `name`: a later field of the same name
/// replaces an earlier one.
pub open spec fn field_value(fields: Seq<(Seq<char>, ObjectValue)>, name: Seq<char>) -> Option<
    ObjectValue,
>
    decreases fields.len(),
{
    if fields.len() == 0 {
        None
    } else if fields.last().0 == name {
        Some(fields.last().1)
    } else {
        field_value(fields.drop_last(), name)
    }
}

/// The views of custom data fields.
pub open spec fn field_views(fields: Seq<(String, ObjectType)>) -> Seq<(Seq<char>, ObjectValue)> {
    fields.map_values(|f: (String, ObjectType)| (f.0@, f.1@))
}

impl ObjectType {
    /// The type that an SSPM type tag names.
    pub fn from_sspm(value: u8) -> (r: Result<ObjectType, MapError>)
        ensures
            value_result(r) == sspm_tag(value),
    {
        match value {
            0x01 => Ok(ObjectType::U8(None)),
            0x02 => Ok(ObjectType::U16(None)),
            0x03 => Ok(ObjectType::U32(None)),
            0x04 => Ok(ObjectType::U64(None)),
            0x05 => Ok(ObjectType::F32(None)),
            0x06 => Ok(ObjectType::F64(None)),
            0x07 => Ok(ObjectType::Vec2(None)),
            0x08 => Ok(ObjectType::Buf(None)),
            0x09 => Ok(ObjectType::String(None)),
            0x0A => Ok(ObjectType::LongBuf(None)),
            0x0B => Ok(ObjectType::LongString(None)),
            0x0C => Ok(ObjectType::Vec(None)),
            _ => Err(MapError::InvalidObjectType),
        }
    }
}

impl SSPMSerde {
    /// Reads a value of the type of `object_type`.
    fn read_types(object_type: &ObjectType, parser: &mut BinaryReader) -> (r: Result<
        ObjectType,
        MapError,
    >)
        ensures
            final(parser).source() == old(parser).source(),
            (final(parser).offset(), value_result(r)) == read_value_at(
                old(parser).source(),
                old(parser).offset(),
                object_type@,
            ),
    {
        match object_type {
            ObjectType::U8(_) => Ok(ObjectType::U8(Some(parser.read_u8()?))),
            ObjectType::U16(_) => Ok(ObjectType::U16(Some(parser.read_u16()?))),
            ObjectType::U32(_) => Ok(ObjectType::U32(Some(parser.read_u32()?))),
            ObjectType::U64(_) => Ok(ObjectType::U64(Some(parser.read_u64()?))),
            ObjectType::F32(_) => Ok(ObjectType::F32(Some(parser.read_u32()?))),
            ObjectType::F64(_) => Ok(ObjectType::F64(Some(parser.read_u64()?))),
            ObjectType::Vec2(_) => Ok(ObjectType::Vec2(Some(parser.read_vec2()?))),
            ObjectType::Buf(_) => Self::read_buf(parser),
            ObjectType::LongBuf(_) => Self::read_long_buf(parser),
            ObjectType::String(_) => Ok(ObjectType::String(Some(parser.read_string()?))),
            ObjectType::LongString(_) => Ok(
                ObjectType::LongString(Some(parser.read_long_string()?)),
            ),
            _ => Err(MapError::InvalidObjectType),
        }
    }

    /// Reads a buffer prefixed by its length as a `u16`.
    fn read_buf(parser: &mut BinaryReader) -> (r: Result<ObjectType, MapError>)
        ensures
            final(parser).source() == old(parser).source(),
            (final(parser).offset(), value_result(r)) == read_value_at(
                old(parser).source(),
                old(parser).offset(),
                ObjectValue::Buf(None),
            ),
    {
        let length = parser.read_u16()?;
        let mut buffer = vec![0u8; length as usize];
        parser.read_exact(&mut buffer)?;
        Ok(ObjectType::Buf(Some(buffer)))
    }

    /// Reads a buffer prefixed by its length as a `u32`.
    fn read_long_buf(parser: &mut BinaryReader) -> (r: Result<ObjectType, MapError>)
        ensures
            final(parser).source() == old(parser).source(),
            (final(parser).offset(), value_result(r)) == read_value_at(
                old(parser).source(),
                old(parser).offset(),
                ObjectValue::LongBuf(None),
            ),
    {
        let length = parser.read_u32()?;
        let mut buffer = vec![0u8; length as usize];
        parser.read_exact(&mut buffer)?;
        Ok(ObjectType::LongBuf(Some(buffer)))
    }

    /// Reads the values of an object defined by `marker_definition`, placed
    /// at millisecond `ms`.
    fn read_definitions(
        marker_definition: &ObjectDefinition,
        ms: u32,
        parser: &mut BinaryReader,
    ) -> (r: Result<ObjectDefinition, MapError>)
        ensures
            final(parser).source() == old(parser).source(),
            ({
                let (p, vs) = values_at(
                    old(parser).source(),
                    old(parser).offset(),
                    marker_definition@.data,
                );
                &&& final(parser).offset() == p
                &&& match vs {
                    Ok(vs) => r matches Ok(d) && d@ == DefinitionModel {
                        name: marker_definition@.name,
                        millisecond: ms,
                        data: vs,
                    },
                    Err(e) => r == Err::<ObjectDefinition, MapError>(e),
                }
            }),
    {
        let ghost data = parser.source();
        let ghost start = parser.offset();
        let ghost kinds = marker_definition@.data;
        let mut object_types: Vec<ObjectType> = Vec::new();
        let n = marker_definition.data.len();
        let mut i: usize = 0;
        proof {
            assert(kinds.take(0) =~= Seq::<ObjectValue>::empty());
            assert(values(object_types@) =~= Seq::<ObjectValue>::empty());
        }
        while i < n
            invariant
                n == marker_definition.data@.len(),
                kinds == values(marker_definition.data@),
                kinds == marker_definition@.data,
                data == old(parser).source(),
                start == old(parser).offset(),
                i <= n,
                parser.source() == data,
                (parser.offset(), Ok::<Seq<ObjectValue>, MapError>(values(object_types@)))
                    == values_at(data, start, kinds.take(i as int)),
            decreases n - i,
        {
            let v = Self::read_types(&marker_definition.data[i], parser);
            proof {
                assert(kinds.take(i + 1).drop_last() =~= kinds.take(i as int));
                assert(kinds.take(i + 1).last() == marker_definition.data@[i as int]@);
            }
            match v {
                Ok(v) => {
                    let ghost prev = object_types@;
                    object_types.push(v);
                    proof {
                        assert(values(object_types@) =~= values(prev).push(v@));
                    }
                },
                Err(e) => {
                    proof {
                        lemma_values_error_stays(data, start, kinds, (i + 1) as int);
                    }
                    return Err(e);
                },
            }
            i = i + 1;
        }
        proof {
            assert(kinds.take(n as int) =~= kinds);
        }
        Ok(
            ObjectDefinition {
                name: marker_definition.name.clone(),
                millisecond: ms,
                data: object_types,
            },
        )
    }
}

/// The views of a list of object definitions.
pub open spec fn definition_views(v: Seq<ObjectDefinition>) -> Seq<DefinitionModel> {
    v.map_values(|d: ObjectDefinition| d@)
}

/// The view of the outcome of reading custom data.
pub open spec fn fields_result(r: Result<Vec<(String, ObjectType)>, MapError>) -> Result<
    Seq<(Seq<char>, ObjectValue)>,
    MapError,
> {
    match r {
        Ok(v) => Ok(field_views(v@)),
        Err(e) => Err(e),
    }
}

/// The view of the outcome of reading type tags.
pub open spec fn kinds_result(r: Result<Vec<ObjectType>, MapError>) -> Result<
    Seq<ObjectValue>,
    MapError,
> {
    match r {
        Ok(v) => Ok(values(v@)),
        Err(e) => Err(e),
    }
}

/// The view of the outcome of reading the objects.
pub open spec fn objects_result(r: Result<(Vec<Note>, Vec<ObjectDefinition>), MapError>) -> Result<
    (Seq<Note>, Seq<DefinitionModel>),
    MapError,
> {
    match r {
        Ok((n, o)) => Ok((n@, definition_views(o@))),
        Err(e) => Err(e),
    }
}

pub proof fn lemma_prepend_assoc(
    a: Seq<Note>,
    b: Seq<DefinitionModel>,
    c: Seq<Note>,
    d: Seq<DefinitionModel>,
    rest: Result<(Seq<Note>, Seq<DefinitionModel>), MapError>,
)
    ensures
        prepend_objects(a, b, prepend_objects(c, d, rest)) == prepend_objects(a + c, b + d, rest),
{
    if let Ok((ns, os)) = rest {
        assert((a + c) + ns =~= a + (c + ns));
        assert((b + d) + os =~= b + (d + os));
    }
}

pub proof fn lemma_custom_error_stays(data: Seq<u8>, pos: int, i: nat, n: nat)
    requires
        i <= n,
        custom_fields_at(data, pos, i).1 is Err,
    ensures
        custom_fields_at(data, pos, n) == custom_fields_at(data, pos, i),
    decreases n - i,
{
    if i < n {
        lemma_custom_error_stays(data, pos, i + 1, n);
    }
}

pub proof fn lemma_kinds_error_stays(data: Seq<u8>, pos: int, i: nat, n: nat)
    requires
        i <= n,
        kinds_at(data, pos, i).1 is Err,
    ensures
        kinds_at(data, pos, n) == kinds_at(data, pos, i),
    decreases n - i,
{
    if i < n {
        lemma_kinds_error_stays(data, pos, i + 1, n);
    }
}

pub proof fn lemma_definitions_error_stays(data: Seq<u8>, pos: int, i: nat, n: nat)
    requires
        i <= n,
        definitions_at(data, pos, i).1 is Err,
    ensures
        definitions_at(data, pos, n) == definitions_at(data, pos, i),
    decreases n - i,
{
    if i < n {
        lemma_definitions_error_stays(data, pos, i + 1, n);
    }
}

impl SSPMSerde {
    /// Reads the custom data at `offset`: a count, then a name, a type tag
    /// and a value for each field. The fields are kept in the order read, and
    /// a field is looked up by its last occurrence ([`field_value`]), as a
    /// map keyed by name that each field is inserted into would find it. The
    /// fields are not held in a `HashMap<String, _>`: vstd models a hash
    /// map's keys only for integer, `bool` and `Box` keys (its
    /// `obeys_key_model`), so nothing could be proved of a lookup by `String`.
    fn read_custom_data(reader: &mut BinaryReader, offset: u64) -> (r: Result<
        Vec<(String, ObjectType)>,
        MapError,
    >)
        ensures
            final(reader).source() == old(reader).source(),
            (final(reader).offset(), fields_result(r)) == custom_data_at(
                old(reader).source(),
                offset as int,
            ),
    {
        let ghost data = reader.source();
        let mut custom_data: Vec<(String, ObjectType)> = Vec::new();
        reader.seek(SeekFrom::Start(offset))?;
        let custom_data_fields = reader.read_u16()?;
        let ghost start = reader.offset();
        let mut i: u16 = 0;
        proof {
            assert(field_views(custom_data@) =~= Seq::<(Seq<char>, ObjectValue)>::empty());
        }
        while i < custom_data_fields
            invariant
                data == old(reader).source(),
                reader.source() == data,
                read_u16_at(data, offset as int) == (
                    start,
                    Ok::<u16, MapError>(custom_data_fields),
                ),
                i <= custom_data_fields,
                (reader.offset(), Ok::<Seq<(Seq<char>, ObjectValue)>, MapError>(
                    field_views(custom_data@),
                )) == custom_fields_at(data, start, i as nat),
            decreases custom_data_fields - i,
        {
            let name = reader.read_string();
            let name = match name {
                Ok(name) => name,
                Err(e) => {
                    proof {
                        lemma_custom_error_stays(data, start, (i + 1) as nat, custom_data_fields as nat);
                    }
                    return Err(e);
                },
            };
            let value = reader.read_u8();
            let value = match value {
                Ok(v) => v,
                Err(e) => {
                    proof {
                        lemma_custom_error_stays(data, start, (i + 1) as nat, custom_data_fields as nat);
                    }
                    return Err(e);
                },
            };
            let data_type = ObjectType::from_sspm(value);
            let data_type = match data_type {
                Ok(t) => t,
                Err(e) => {
                    proof {
                        lemma_custom_error_stays(data, start, (i + 1) as nat, custom_data_fields as nat);
                    }
                    return Err(e);
                },
            };
            let value = Self::read_types(&data_type, reader);
            match value {
                Ok(v) => {
                    let ghost prev = custom_data@;
                    let ghost entry = (name@, v@);
                    custom_data.push((name, v));
                    proof {
                        assert(field_views(custom_data@) =~= field_views(prev).push(entry));
                    }
                },
                Err(e) => {
                    proof {
                        lemma_custom_error_stays(data, start, (i + 1) as nat, custom_data_fields as nat);
                    }
                    return Err(e);
                },
            }
            i = i + 1;
        }
        Ok(custom_data)
    }

    /// Reads `n` type tags.
    fn read_kinds(reader: &mut BinaryReader, n: u8) -> (r: Result<Vec<ObjectType>, MapError>)
        ensures
            final(reader).source() == old(reader).source(),
            (final(reader).offset(), kinds_result(r)) == kinds_at(
                old(reader).source(),
                old(reader).offset(),
                n as nat,
            ),
    {
        let ghost data = reader.source();
        let ghost start = reader.offset();
        let mut definitions: Vec<ObjectType> = Vec::new();
        let mut i: u8 = 0;
        proof {
            assert(values(definitions@) =~= Seq::<ObjectValue>::empty());
        }
        while i < n
            invariant
                data == old(reader).source(),
                start == old(reader).offset(),
                reader.source() == data,
                i <= n,
                (reader.offset(), Ok::<Seq<ObjectValue>, MapError>(values(definitions@)))
                    == kinds_at(data, start, i as nat),
            decreases n - i,
        {
            let obj_type = match reader.read_u8() {
                Ok(t) => t,
                Err(e) => {
                    proof {
                        lemma_kinds_error_stays(data, start, (i + 1) as nat, n as nat);
                    }
                    return Err(e);
                },
            };
            match ObjectType::from_sspm(obj_type) {
                Ok(d) => {
                    let ghost prev = definitions@;
                    let ghost dv = d@;
                    definitions.push(d);
                    proof {
                        assert(values(definitions@) =~= values(prev).push(dv));
                    }
                },
                Err(e) => {
                    proof {
                        lemma_kinds_error_stays(data, start, (i + 1) as nat, n as nat);
                    }
                    return Err(e);
                },
            }
            i = i + 1;
        }
        Ok(definitions)
    }

    /// Reads one object definition: a name, a count of value tags, the tags,
    /// and a zero byte.
    fn read_definition(reader: &mut BinaryReader) -> (r: Result<ObjectDefinition, MapError>)
        ensures
            final(reader).source() == old(reader).source(),
            ({
                let (p, d) = definition_at(old(reader).source(), old(reader).offset());
                &&& final(reader).offset() == p
                &&& match d {
                    Ok(d) => r matches Ok(v) && v@ == d,
                    Err(e) => r == Err::<ObjectDefinition, MapError>(e),
                }
            }),
    {
        let name = reader.read_string()?;
        let values = reader.read_u8()?;
        let definitions = Self::read_kinds(reader, values)?;
        if let Ok(x) = reader.read_u8() {
            if x != 0x00 {
                return Err(MapError::MissingDefinitionTerminator);
            }
        }
        Ok(ObjectDefinition { name, millisecond: 0, data: definitions })
    }

    /// Reads the object definitions section: a count, then the definitions,
    /// each kept under its index.
    fn read_object_definitions(reader: &mut BinaryReader) -> (r: Result<
        HashMap<u8, ObjectDefinition>,
        MapError,
    >)
        ensures
            final(reader).source() == old(reader).source(),
            ({
                let (p, s) = definition_section_at(old(reader).source(), old(reader).offset());
                &&& final(reader).offset() == p
                &&& match r {
                    Ok(t) => s matches Ok(ds) && indexed(t@, ds),
                    Err(e) => s == Err::<Seq<DefinitionModel>, MapError>(e),
                }
            }),
    {
        broadcast use vstd::std_specs::hash::group_hash_axioms;

        let ghost data = reader.source();
        let count = reader.read_u8()?;
        let ghost start = reader.offset();
        let mut object_definitions: HashMap<u8, ObjectDefinition> = HashMap::new();
        let ghost mut views: Seq<DefinitionModel> = Seq::empty();
        let mut i: u8 = 0;
        while i < count
            invariant
                data == old(reader).source(),
                read_u8_at(data, old(reader).offset()) == (start, Ok::<u8, MapError>(count)),
                reader.source() == data,
                i <= count,
                views.len() == i,
                indexed(object_definitions@, views),
                (reader.offset(), Ok::<Seq<DefinitionModel>, MapError>(views)) == definitions_at(
                    data,
                    start,
                    i as nat,
                ),
            decreases count - i,
        {
            match Self::read_definition(reader) {
                Ok(d) => {
                    let ghost dv = d@;
                    object_definitions.insert(i, d);
                    proof {
                        views = views.push(dv);
                    }
                },
                Err(e) => {
                    proof {
                        lemma_definitions_error_stays(data, start, (i + 1) as nat, count as nat);
                    }
                    return Err(e);
                },
            }
            i = i + 1;
        }
        Ok(object_definitions)
    }

    /// Reads the objects from the current position up to `end`: objects named
    /// "ssp_note" become notes, the others are kept as they are.
    fn read_objects(
        reader: &mut BinaryReader,
        defs: &HashMap<u8, ObjectDefinition>,
        Ghost(dv): Ghost<Seq<DefinitionModel>>,
        end: u64,
    ) -> (r: Result<(Vec<Note>, Vec<ObjectDefinition>), MapError>)
        requires
            indexed(defs@, dv),
        ensures
            final(reader).source() == old(reader).source(),
            objects_result(r) == objects_from(
                old(reader).source(),
                old(reader).offset(),
                end as int,
                dv,
            ),
    {
        broadcast use vstd::std_specs::hash::group_hash_axioms;

        let ghost data = reader.source();
        let ghost start = reader.offset();
        let mut notes: Vec<Note> = Vec::new();
        let mut objects: Vec<ObjectDefinition> = Vec::new();
        proof {
            assert(definition_views(objects@) =~= Seq::<DefinitionModel>::empty());
            assert(notes@ =~= Seq::<Note>::empty());
        }
        loop
            invariant
                data == old(reader).source(),
                start == old(reader).offset(),
                reader.source() == data,
                indexed(defs@, dv),
                objects_from(data, start, end as int, dv) == prepend_objects(
                    notes@,
                    definition_views(objects@),
                    objects_from(data, reader.offset(), end as int, dv),
                ),
            decreases data.len() - reader.offset(),
        {
            let pos = reader.stream_position()?;
            if pos >= end {
                proof {
                    assert(objects_from(data, reader.offset(), end as int, dv) == Ok::<
                        (Seq<Note>, Seq<DefinitionModel>),
                        MapError,
                    >((Seq::empty(), Seq::empty())));
                    assert(notes@ + Seq::<Note>::empty() =~= notes@);
                    assert(definition_views(objects@) + Seq::<DefinitionModel>::empty()
                        =~= definition_views(objects@));
                }
                return Ok((notes, objects));
            }
            let ghost here = reader.offset();
            proof {
                lemma_object_advances(data, here, dv);
            }
            let ms = match reader.read_u32() {
                Ok(ms) => ms,
                Err(e) => {
                    assert(objects_from(data, here, end as int, dv) == Err::<
                        (Seq<Note>, Seq<DefinitionModel>),
                        MapError,
                    >(e));
                    return Err(e);
                },
            };
            let definition = reader.read_u8()?;
            let marker = match defs.get(&definition) {
                Some(d) => d,
                None => {
                    return Err(MapError::UnknownObjectDefinition);
                },
            };
            let object = Self::read_definitions(marker, ms, reader)?;
            let ghost after = reader.offset();
            assert(object_at(data, here, dv) == (after, Ok::<DefinitionModel, MapError>(object@)));
            if object.name == String::from_str("ssp_note") {
                let note = Note::from_sspm_definition(object)?;
                proof {
                    lemma_prepend_assoc(
                        notes@,
                        definition_views(objects@),
                        seq![note],
                        Seq::empty(),
                        objects_from(data, after, end as int, dv),
                    );
                    assert(notes@.push(note) =~= notes@ + seq![note]);
                    assert(definition_views(objects@) + Seq::<DefinitionModel>::empty()
                        =~= definition_views(objects@));
                }
                notes.push(note);
            } else {
                let ghost ov = object@;
                let ghost prev = objects@;
                proof {
                    lemma_prepend_assoc(
                        notes@,
                        definition_views(objects@),
                        Seq::empty(),
                        seq![ov],
                        objects_from(data, after, end as int, dv),
                    );
                }
                objects.push(object);
                proof {
                    assert(definition_views(objects@) =~= definition_views(prev) + seq![ov]);
                    assert(notes@ + Seq::<Note>::empty() =~= notes@);
                }
            }
        }
    }
}

/// Whether the table `t` holds the definitions `ds` under their indices.
pub open spec fn indexed(t: Map<u8, ObjectDefinition>, ds: Seq<DefinitionModel>) -> bool {
    &&& forall|i: u8| #[trigger] t.contains_key(i) <==> (i as int) < ds.len()
    &&& forall|i: u8| #[trigger] t.contains_key(i) ==> t[i]@ == ds[i as int]
}

/// The fixed part of an SSPM v2 header.
#[derive(Debug, Clone, Copy, PartialEq, Eq)]
pub struct V2Header {
    pub millisecond: u32,
    pub note_count: u32,
    pub object_count: u32,
    pub difficulty: u8,
    pub has_audio: bool,
    pub has_cover: bool,
    pub custom_data_offset: u64,
    pub audio_data_offset: u64,
    pub audio_data_length: u64,
    pub cover_data_offset: u64,
    pub cover_data_length: u64,
    pub object_data_offset: u64,
    pub object_data_length: u64,
}

/// The little-endian `u32` at `at`.
pub open spec fn u32_field(data: Seq<u8>, at: int) -> u32 {
    le_u32(data.subrange(at, at + 4))
}

/// The little-endian `u64` at `at`.
pub open spec fn u64_field(data: Seq<u8>, at: int) -> u64 {
    le_u64(data.subrange(at, at + 8))
}

/// The header fields of an SSPM v2 file that starts at `k`, at their fixed
/// offsets from its start.
pub open spec fn v2_header(data: Seq<u8>, k: int) -> V2Header {
    V2Header {
        millisecond: u32_field(data, k + 30),
        note_count: u32_field(data, k + 34),
        object_count: u32_field(data, k + 38),
        difficulty: data[k + 42],
        has_audio: data[k + 45] == 1,
        has_cover: data[k + 46] == 1,
        custom_data_offset: u64_field(data, k + 48),
        audio_data_offset: u64_field(data, k + 64),
        audio_data_length: u64_field(data, k + 72),
        cover_data_offset: u64_field(data, k + 80),
        cover_data_length: u64_field(data, k + 88),
        object_data_offset: u64_field(data, k + 112),
        object_data_length: u64_field(data, k + 120),
    }
}

/// `n` strings read from `pos`.
pub open spec fn strings_at(data: Seq<u8>, pos: int, n: nat) -> Step<Seq<Seq<char>>>
    decreases n,
{
    if n == 0 {
        (pos, Ok(Seq::empty()))
    } else {
        let (p, r) = strings_at(data, pos, (n - 1) as nat);
        match r {
            Err(e) => (p, Err(e)),
            Ok(ss) => lift(read_string_at(data, p), |t: Seq<char>| ss.push(t)),
        }
    }
}

/// The strings after an SSPM v2 header: the map id, the map name, the song
/// name, and the mappers after their count.
pub open spec fn names_at(data: Seq<u8>, pos: int) -> Step<
    (Seq<char>, Seq<char>, Seq<Seq<char>>),
> {
    let (p1, id) = read_string_at(data, pos);
    match id {
        Err(e) => (p1, Err(e)),
        Ok(id) => {
            let (p2, name) = read_string_at(data, p1);
            match name {
                Err(e) => (p2, Err(e)),
                Ok(name) => {
                    let (p3, song) = read_string_at(data, p2);
                    match song {
                        Err(e) => (p3, Err(e)),
                        Ok(_) => {
                            let (p4, n) = read_u16_at(data, p3);
                            match n {
                                Err(e) => (p4, Err(e)),
                                Ok(n) => lift(
                                    strings_at(data, p4, n as nat),
                                    |ms: Seq<Seq<char>>| (id, name, ms),
                                ),
                            }
                        },
                    }
                },
            }
        },
    }
}

/// The difficulty of rank `rank`, named as usual or as the custom data's
/// "difficulty_name" string says. An unknown rank reads as 0, "N/A".
pub open spec fn difficulty_of(rank: u8, custom: Result<Seq<(Seq<char>, ObjectValue)>, MapError>) -> (
    u8,
    Seq<char>,
) {
    let base = if rank <= 6 {
        (rank, default_text(rank))
    } else {
        (0u8, "N/A"@)
    };
    match custom {
        Ok(fields) => match field_value(fields, "difficulty_name"@) {
            Some(ObjectValue::String(Some(t))) => (base.0, t),
            _ => base,
        },
        Err(_) => base,
    }
}

/// A buffer of `len` bytes at `offset`, read when `present`; reading
/// continues at `pos` when it is not.
pub open spec fn optional_buffer_at(
    data: Seq<u8>,
    pos: int,
    present: bool,
    offset: u64,
    len: u64,
) -> Step<Option<Seq<u8>>> {
    if present {
        lift(take_at(data, offset as int, len as int), |b: Seq<u8>| Some(b))
    } else {
        (pos, Ok(None))
    }
}

/// The audio and cover data of an SSPM v2 file.
pub open spec fn media_at(data: Seq<u8>, pos: int, h: V2Header) -> Step<
    (Option<Seq<u8>>, Option<Seq<u8>>),
> {
    if h.audio_data_length > isize::MAX || h.cover_data_length > isize::MAX {
        (pos, Err(MapError::CapacityOverflow))
    } else {
        let (pa, audio) = optional_buffer_at(
            data,
            pos,
            h.has_audio,
            h.audio_data_offset,
            h.audio_data_length,
        );
        match audio {
            Err(e) => (pa, Err(e)),
            Ok(audio) => lift(
                optional_buffer_at(data, pa, h.has_cover, h.cover_data_offset, h.cover_data_length),
                |cover: Option<Seq<u8>>| (audio, cover),
            ),
        }
    }
}

/// The artist and song that a map name "artist - song" holds: the text
/// before the first '-', and the text after it up to the next '-' (or the
/// whole name when there is none), both trimmed.
pub open spec fn title_parts(name: Seq<char>) -> (Seq<char>, Seq<char>) {
    let pieces = split_on(name, "-"@);
    (trim(pieces[0]), trim(if pieces.len() > 1 { pieces[1] } else { name }))
}

/// The map of an SSPM v2 file that starts at `k` of the stream `data`. The
/// header and the strings follow one another from `k`; the offsets in the
/// header are positions in the stream.
pub open spec fn decode_v2(data: Seq<u8>, k: int) -> Result<MapModel, MapError> {
    if data.len() < k + 128 {
        Err(MapError::UnexpectedEof)
    } else {
        let h = v2_header(data, k);
        let (p1, names) = names_at(data, k + 128);
        match names {
            Err(e) => Err(e),
            Ok((id, name, mappers)) => {
                let (p2, custom) = custom_data_at(data, h.custom_data_offset as int);
                let (p3, media) = media_at(data, p2, h);
                match media {
                    Err(e) => Err(e),
                    Ok((audio, cover)) => {
                        let (p4, defs) = definition_section_at(data, p3);
                        match defs {
                            Err(e) => Err(e),
                            Ok(defs) => if h.object_data_offset + h.object_data_length
                                > u64::MAX {
                                Err(MapError::ObjectSectionOverflow)
                            } else {
                                match objects_from(
                                    data,
                                    h.object_data_offset as int,
                                    h.object_data_offset + h.object_data_length,
                                    defs,
                                ) {
                                    Err(e) => Err(e),
                                    Ok((notes, undefined)) => Ok(
                                        MapModel {
                                            id,
                                            info: InfoModel {
                                                title: title_parts(name).1,
                                                mappers,
                                                artist: title_parts(name).0,
                                                length: h.millisecond,
                                                difficulty: difficulty_of(h.difficulty, custom),
                                                audio,
                                                cover,
                                                video: None,
                                                note_count: h.note_count,
                                                object_count: h.object_count,
                                                rating: 0,
                                                artist_link: None,
                                                artist_platform: None,
                                            },
                                            format: MapFormat::SSPM,
                                            notes,
                                            undefined,
                                        },
                                    ),
                                }
                            },
                        }
                    },
                }
            },
        }
    }
}

pub proof fn lemma_strings_error_stays(data: Seq<u8>, pos: int, i: nat, n: nat)
    requires
        i <= n,
        strings_at(data, pos, i).1 is Err,
    ensures
        strings_at(data, pos, n) == strings_at(data, pos, i),
    decreases n - i,
{
    if i < n {
        lemma_strings_error_stays(data, pos, i + 1, n);
    }
}

impl SSPMSerde {
    /// Reads the fixed part of a v2 header, from just after the signature
    /// and version.
    fn read_v2_header(reader: &mut BinaryReader) -> (r: Result<V2Header, MapError>)
        requires
            8 <= old(reader).offset() <= old(reader).source().len(),
        ensures
            final(reader).source() == old(reader).source(),
            if old(reader).source().len() >= old(reader).offset() + 120 {
                r == Ok::<V2Header, MapError>(
                    v2_header(old(reader).source(), old(reader).offset() - 8),
                ) && final(reader).offset() == old(reader).offset() + 120
            } else {
                r == Err::<V2Header, MapError>(MapError::UnexpectedEof)
            },
    {
        let ghost data = reader.source();
        let _unused = reader.read_bytes(2)?;
        let _hash = reader.read_sha1()?;
        let millisecond = reader.read_u32()?;
        let note_count = reader.read_u32()?;
        let object_count = reader.read_u32()?;
        let difficulty = reader.read_u8()?;
        let _star_rating = reader.read_u16()?;
        let has_audio = reader.read_bool()?;
        let has_cover = reader.read_bool()?;
        let _has_mod = reader.read_bool()?;
        let custom_data_offset = reader.read_u64()?;
        let _custom_data_length = reader.read_u64()?;
        let audio_data_offset = reader.read_u64()?;
        let audio_data_length = reader.read_u64()?;
        let cover_data_offset = reader.read_u64()?;
        let cover_data_length = reader.read_u64()?;
        let _object_definition_offset = reader.read_u64()?;
        let _object_definition_length = reader.read_u64()?;
        let object_data_offset = reader.read_u64()?;
        let object_data_length = reader.read_u64()?;
        Ok(
            V2Header {
                millisecond,
                note_count,
                object_count,
                difficulty,
                has_audio,
                has_cover,
                custom_data_offset,
                audio_data_offset,
                audio_data_length,
                cover_data_offset,
                cover_data_length,
                object_data_offset,
                object_data_length,
            },
        )
    }

    /// Reads `n` strings.
    fn read_strings(reader: &mut BinaryReader, n: u16) -> (r: Result<Vec<String>, MapError>)
        ensures
            final(reader).source() == old(reader).source(),
            (final(reader).offset(), texts_result(r)) == strings_at(
                old(reader).source(),
                old(reader).offset(),
                n as nat,
            ),
    {
        let ghost data = reader.source();
        let ghost start = reader.offset();
        let mut mappers: Vec<String> = Vec::new();
        let mut i: u16 = 0;
        proof {
            assert(texts(mappers@) =~= Seq::<Seq<char>>::empty());
        }
        while i < n
            invariant
                data == old(reader).source(),
                start == old(reader).offset(),
                reader.source() == data,
                i <= n,
                (reader.offset(), Ok::<Seq<Seq<char>>, MapError>(texts(mappers@))) == strings_at(
                    data,
                    start,
                    i as nat,
                ),
            decreases n - i,
        {
            match reader.read_string() {
                Ok(m) => {
                    let ghost prev = mappers@;
                    let ghost mv = m@;
                    mappers.push(m);
                    proof {
                        assert(texts(mappers@) =~= texts(prev).push(mv));
                    }
                },
                Err(e) => {
                    proof {
                        lemma_strings_error_stays(data, start, (i + 1) as nat, n as nat);
                    }
                    return Err(e);
                },
            }
            i = i + 1;
        }
        Ok(mappers)
    }

    /// Reads a buffer of `len` bytes at `offset` when `present`.
    fn read_optional_buffer(reader: &mut BinaryReader, present: bool, offset: u64, len: u64) -> (r:
        Result<Option<Vec<u8>>, MapError>)
        requires
            len <= isize::MAX,
        ensures
            final(reader).source() == old(reader).source(),
            (final(reader).offset(), buffer_result(r)) == optional_buffer_at(
                old(reader).source(),
                old(reader).offset(),
                present,
                offset,
                len,
            ),
    {
        if present {
            reader.seek(SeekFrom::Start(offset))?;
            let buf = reader.read_bytes(len as usize)?;
            Ok(Some(buf))
        } else {
            Ok(None)
        }
    }

    /// The artist and the song of a map name "artist - song".
    fn split_title(name: &String) -> (r: (String, String))
        ensures
            (r.0@, r.1@) == title_parts(name@),
    {
        let chars = chars_of(name.as_str());
        let dash = vec!['-'];
        proof {
            reveal_strlit("-");
            assert(dash@ =~= "-"@);
        }
        let title_info = split_text(&chars, &dash);
        proof {
            lemma_split_nonempty(name@, "-"@, 0);
        }
        let artist = trim_text(title_info[0].as_str());
        let song_name = if title_info.len() > 1 {
            trim_text(title_info[1].as_str())
        } else {
            trim_text(name.as_str())
        };
        (artist, song_name)
    }

    /// The difficulty of rank `difficulty`, renamed by the custom data.
    fn difficulty_from(difficulty: u8, custom_data: &Result<Vec<(String, ObjectType)>, MapError>) -> (d:
        DifficultyName)
        ensures
            d@ == difficulty_of(difficulty, fields_result(*custom_data)),
    {
        let mut difficulty_name = DifficultyName::from_u8_or_default(difficulty);
        let ghost base = difficulty_name@;
        if let Ok(fields_vec) = custom_data {
            let key = String::from_str("difficulty_name");
            let mut i = fields_vec.len();
            let ghost fields = field_views(fields_vec@);
            proof {
                assert(fields.take(i as int) =~= fields);
            }
            while i > 0
                invariant
                    i <= fields_vec@.len(),
                    fields == field_views(fields_vec@),
                    fields_result(*custom_data) == Ok::<Seq<(Seq<char>, ObjectValue)>, MapError>(
                        fields,
                    ),
                    key@ == "difficulty_name"@,
                    difficulty_name@ == base,
                    base == (if difficulty <= 6 {
                        (difficulty, default_text(difficulty))
                    } else {
                        (0u8, "N/A"@)
                    }),
                    field_value(fields, key@) == field_value(fields.take(i as int), key@),
                decreases i,
            {
                proof {
                    assert(fields.take(i as int).drop_last() =~= fields.take(i - 1));
                    assert(fields.take(i as int).last() == fields[i - 1]);
                    assert(fields[i - 1] == (fields_vec@[i - 1].0@, fields_vec@[i - 1].1@));
                }
                if fields_vec[i - 1].0 == key {
                    if let ObjectType::String(Some(data)) = &fields_vec[i - 1].1 {
                        difficulty_name.set_value(data.clone());
                    }
                    return difficulty_name;
                }
                i = i - 1;
            }
            proof {
                assert(fields.take(0) =~= Seq::<(Seq<char>, ObjectValue)>::empty());
            }
        }
        difficulty_name
    }

    /// Reads an SSPM v2 file after its signature and version.
    fn read_sspm_v2(mut reader: BinaryReader) -> (r: Result<BeatMap, MapError>)
        requires
            8 <= reader.offset() <= reader.source().len(),
        ensures
            map_result(r) == decode_v2(reader.source(), reader.offset() - 8),
    {
        let ghost data = reader.source();
        let h = Self::read_v2_header(&mut reader)?;
        let map_id = reader.read_string()?;
        let map_name = reader.read_string()?;
        let _song_name = reader.read_string()?;
        let mappers_count = reader.read_u16()?;
        let (artist, song_name) = Self::split_title(&map_name);
        let mappers = Self::read_strings(&mut reader, mappers_count)?;
        let custom_data = Self::read_custom_data(&mut reader, h.custom_data_offset);
        let difficulty_name = Self::difficulty_from(h.difficulty, &custom_data);
        if h.audio_data_length > isize::MAX as u64 || h.cover_data_length > isize::MAX as u64 {
            return Err(MapError::CapacityOverflow);
        }
        let audio = Self::read_optional_buffer(
            &mut reader,
            h.has_audio,
            h.audio_data_offset,
            h.audio_data_length,
        )?;
        let cover = Self::read_optional_buffer(
            &mut reader,
            h.has_cover,
            h.cover_data_offset,
            h.cover_data_length,
        )?;
        let ghost p3 = reader.offset();
        let object_definitions = Self::read_object_definitions(&mut reader)?;
        let ghost dv = definition_section_at(data, p3).1->Ok_0;
        reader.seek(SeekFrom::Start(h.object_data_offset))?;
        let start = reader.stream_position()?;
        if h.object_data_length > u64::MAX - start {
            return Err(MapError::ObjectSectionOverflow);
        }
        let object_section_end = start + h.object_data_length;
        let (notes, objects) = Self::read_objects(
            &mut reader,
            &object_definitions,
            Ghost(dv),
            object_section_end,
        )?;
        Ok(
            BeatMap {
                id: map_id,
                info: MapInfo {
                    title: song_name,
                    mappers,
                    artist,
                    length: h.millisecond,
                    difficulty_name,
                    audio_buf: audio,
                    cover_buf: cover,
                    video_buf: None,
                    note_count: h.note_count,
                    object_count: h.object_count,
                    rating: 0,
                    artist_link: None,
                    artist_platform: None,
                },
                metadata: MapMetadata { format: MapFormat::SSPM },
                objects: MapObjects { notes, undefined: objects },
            },
        )
    }
}

/// The view of the outcome of reading strings.
pub open spec fn texts_result(r: Result<Vec<String>, MapError>) -> Result<Seq<Seq<char>>, MapError> {
    match r {
        Ok(v) => Ok(texts(v@)),
        Err(e) => Err(e),
    }
}

/// The view of the outcome of reading an optional buffer.
pub open spec fn buffer_result(r: Result<Option<Vec<u8>>, MapError>) -> Result<
    Option<Seq<u8>>,
    MapError,
> {
    match r {
        Ok(b) => Ok(opt_bytes(b)),
        Err(e) => Err(e),
    }
}

/// A buffer after a flag byte: when the flag is `present`, a `u64` length
/// and that many bytes follow.
pub open spec fn flagged_buffer_at(data: Seq<u8>, pos: int, present: u8) -> Step<Option<Seq<u8>>> {
    let (p1, f) = read_u8_at(data, pos);
    match f {
        Err(e) => (p1, Err(e)),
        Ok(f) => if f == present {
            let (p2, n) = read_u64_at(data, p1);
            match n {
                Err(e) => (p2, Err(e)),
                Ok(n) => if n > isize::MAX {
                    (p2, Err(MapError::CapacityOverflow))
                } else {
                    lift(take_at(data, p2, n as int), |b: Seq<u8>| Some(b))
                },
            }
        } else {
            (p1, Ok(None))
        },
    }
}

/// `n` notes of an SSPM v1 file read from `pos`: a millisecond and a
/// position each.
pub open spec fn notes_v1_at(data: Seq<u8>, pos: int, n: nat) -> Step<Seq<Note>>
    decreases n,
{
    if n == 0 {
        (pos, Ok(Seq::empty()))
    } else {
        let (p, r) = notes_v1_at(data, pos, (n - 1) as nat);
        match r {
            Err(e) => (p, Err(e)),
            Ok(ns) => {
                let (p1, ms) = read_u32_at(data, p);
                match ms {
                    Err(e) => (p1, Err(e)),
                    Ok(ms) => lift(
                        read_vec2_at(data, p1),
                        |v: StoredVec2| ns.push(Note { millisecond: ms, position: v }),
                    ),
                }
            },
        }
    }
}

/// The head of an SSPM v1 file: the map id, the map name and the mappers as
/// lines, then the length, the note count and the difficulty.
pub open spec fn v1_head_at(data: Seq<u8>, pos: int) -> Step<
    (Seq<char>, Seq<char>, Seq<char>, u32, u32, u8),
> {
    let (p1, id) = read_line_at(data, pos);
    match id {
        Err(e) => (p1, Err(e)),
        Ok(id) => {
            let (p2, name) = read_line_at(data, p1);
            match name {
                Err(e) => (p2, Err(e)),
                Ok(name) => {
                    let (p3, mappers) = read_line_at(data, p2);
                    match mappers {
                        Err(e) => (p3, Err(e)),
                        Ok(mappers) => {
                            let (p4, length) = read_u32_at(data, p3);
                            match length {
                                Err(e) => (p4, Err(e)),
                                Ok(length) => {
                                    let (p5, count) = read_u32_at(data, p4);
                                    match count {
                                        Err(e) => (p5, Err(e)),
                                        Ok(count) => lift(
                                            read_u8_at(data, p5),
                                            |d: u8| (id, name, mappers, length, count, d),
                                        ),
                                    }
                                },
                            }
                        },
                    }
                },
            }
        },
    }
}

/// The mappers that an SSPM v1 mapper line names: with every ", " removed,
/// the pieces between the occurrences of "& ".
pub open spec fn v1_mappers(line: Seq<char>) -> Seq<Seq<char>> {
    split_on(remove_all(line, ", "@), "& "@)
}

/// The map of an SSPM v1 file that starts at `k` of the stream `data`.
pub open spec fn decode_v1(data: Seq<u8>, k: int) -> Result<MapModel, MapError> {
    let (p1, head) = v1_head_at(data, k + 8);
    match head {
        Err(e) => Err(e),
        Ok((id, name, mappers, length, count, d)) => {
            let (p2, cover) = flagged_buffer_at(data, p1, 2);
            match cover {
                Err(e) => Err(e),
                Ok(cover) => {
                    let (p3, audio) = flagged_buffer_at(data, p2, 1);
                    match audio {
                        Err(e) => Err(e),
                        Ok(audio) => match notes_v1_at(data, p3, count as nat).1 {
                            Err(e) => Err(e),
                            Ok(notes) => Ok(
                                MapModel {
                                    id,
                                    info: InfoModel {
                                        title: name,
                                        mappers: v1_mappers(mappers),
                                        artist: Seq::empty(),
                                        length,
                                        difficulty: difficulty_of(d, Err(MapError::UnexpectedEof)),
                                        audio,
                                        cover,
                                        video: None,
                                        note_count: count,
                                        object_count: count,
                                        rating: 0,
                                        artist_link: None,
                                        artist_platform: None,
                                    },
                                    format: MapFormat::SSPM,
                                    notes,
                                    undefined: Seq::empty(),
                                },
                            ),
                        },
                    }
                },
            }
        },
    }
}

/// The signature that SSPM files start with: "SS+m".
pub open spec fn sspm_signature() -> Seq<u8> {
    seq![0x53u8, 0x53, 0x2B, 0x6D]
}

/// The map of an SSPM file that starts at position `k` of the stream `data`:
/// after the signature, version 1 or 2 as the next two bytes say.
pub open spec fn sspm_decode(data: Seq<u8>, k: int) -> Result<MapModel, MapError> {
    if data.len() < k + 8 {
        Err(MapError::UnexpectedEof)
    } else if data.subrange(k, k + 4) != sspm_signature() {
        Err(MapError::IncorrectSignature)
    } else if data[k + 4] == 1 && data[k + 5] == 0 {
        decode_v1(data, k)
    } else if data[k + 4] == 2 && data[k + 5] == 0 {
        decode_v2(data, k)
    } else {
        Err(MapError::UnsupportedVersion)
    }
}

pub proof fn lemma_notes_v1_error_stays(data: Seq<u8>, pos: int, i: nat, n: nat)
    requires
        i <= n,
        notes_v1_at(data, pos, i).1 is Err,
    ensures
        notes_v1_at(data, pos, n) == notes_v1_at(data, pos, i),
    decreases n - i,
{
    if i < n {
        lemma_notes_v1_error_stays(data, pos, i + 1, n);
    }
}

impl SSPMSerde {
    /// Reads a buffer after a flag byte, when the flag is `present`.
    fn read_flagged_buffer(reader: &mut BinaryReader, present: u8) -> (r: Result<
        Option<Vec<u8>>,
        MapError,
    >)
        ensures
            final(reader).source() == old(reader).source(),
            (final(reader).offset(), buffer_result(r)) == flagged_buffer_at(
                old(reader).source(),
                old(reader).offset(),
                present,
            ),
    {
        if reader.read_u8()? == present {
            let length = reader.read_u64()?;
            if length > isize::MAX as u64 {
                return Err(MapError::CapacityOverflow);
            }
            let buf = reader.read_bytes(length as usize)?;
            Ok(Some(buf))
        } else {
            Ok(None)
        }
    }

    /// Reads the `n` notes of a v1 file.
    fn read_notes_v1(reader: &mut BinaryReader, n: u32) -> (r: Result<Vec<Note>, MapError>)
        ensures
            final(reader).source() == old(reader).source(),
            ({
                let (p, ns) = notes_v1_at(old(reader).source(), old(reader).offset(), n as nat);
                match ns {
                    Ok(ns) => r matches Ok(v) && v@ == ns,
                    Err(e) => r == Err::<Vec<Note>, MapError>(e),
                }
            }),
    {
        let ghost data = reader.source();
        let ghost start = reader.offset();
        let mut notes: Vec<Note> = Vec::new();
        let mut i: u32 = 0;
        while i < n
            invariant
                data == old(reader).source(),
                start == old(reader).offset(),
                reader.source() == data,
                i <= n,
                (reader.offset(), Ok::<Seq<Note>, MapError>(notes@)) == notes_v1_at(
                    data,
                    start,
                    i as nat,
                ),
            decreases n - i,
        {
            let millisecond = match reader.read_u32() {
                Ok(ms) => ms,
                Err(e) => {
                    proof {
                        lemma_notes_v1_error_stays(data, start, (i + 1) as nat, n as nat);
                    }
                    return Err(e);
                },
            };
            let position = match reader.read_vec2() {
                Ok(p) => p,
                Err(e) => {
                    proof {
                        lemma_notes_v1_error_stays(data, start, (i + 1) as nat, n as nat);
                    }
                    return Err(e);
                },
            };
            notes.push(Note { millisecond, position });
            i = i + 1;
        }
        Ok(notes)
    }

    /// The mappers that a v1 mapper line names.
    fn split_mappers(line: &String) -> (r: Vec<String>)
        ensures
            texts(r@) == v1_mappers(line@),
    {
        let comma = vec![',', ' '];
        let amp = vec!['&', ' '];
        proof {
            reveal_strlit(", ");
            reveal_strlit("& ");
            assert(comma@ =~= ", "@);
            assert(amp@ =~= "& "@);
        }
        let joined = remove_text(line.as_str(), &comma);
        let chars = chars_of(joined.as_str());
        split_text(&chars, &amp)
    }

    /// Reads an SSPM v1 file after its signature and version.
    fn read_sspm_v1(mut reader: BinaryReader) -> (r: Result<BeatMap, MapError>)
        requires
            8 <= reader.offset(),
        ensures
            map_result(r) == decode_v1(reader.source(), reader.offset() - 8),
    {
        let ghost data = reader.source();
        let ghost k = reader.offset() - 8;
        let map_id = reader.read_newline_string()?;
        let map_name = reader.read_newline_string()?;
        let mappers = reader.read_newline_string()?;
        let length = reader.read_u32()?;
        let note_count = reader.read_u32()?;
        let difficulty = reader.read_u8()?;
        let ghost p1 = reader.offset();
        assert(v1_head_at(data, k + 8) == (
            p1,
            Ok::<(Seq<char>, Seq<char>, Seq<char>, u32, u32, u8), MapError>(
                (map_id@, map_name@, mappers@, length, note_count, difficulty),
            ),
        ));
        let difficulty_name = DifficultyName::from_u8_or_default(difficulty);
        let cover_buf = Self::read_flagged_buffer(&mut reader, 0x02)?;
        let ghost p2 = reader.offset();
        assert(flagged_buffer_at(data, p1, 2) == (
            p2,
            Ok::<Option<Seq<u8>>, MapError>(opt_bytes(cover_buf)),
        ));
        let audio_buf = Self::read_flagged_buffer(&mut reader, 0x01)?;
        let ghost p3 = reader.offset();
        let notes = Self::read_notes_v1(&mut reader, note_count)?;
        assert(notes_v1_at(data, p3, note_count as nat).1 == Ok::<Seq<Note>, MapError>(notes@));
        let mappers = Self::split_mappers(&mappers);
        let undefined: Vec<ObjectDefinition> = Vec::new();
        proof {
            assert(undefined@.map_values(|d: ObjectDefinition| d@) =~= Seq::<DefinitionModel>::empty());
        }
        Ok(
            BeatMap {
                id: map_id,
                info: MapInfo {
                    title: map_name,
                    mappers,
                    artist: String::new(),
                    length,
                    difficulty_name,
                    audio_buf,
                    cover_buf,
                    video_buf: None,
                    note_count,
                    object_count: note_count,
                    rating: 0,
                    artist_link: None,
                    artist_platform: None,
                },
                metadata: MapMetadata { format: MapFormat::SSPM },
                objects: MapObjects { notes, undefined },
            },
        )
    }

    /// Reads an SSPM map of version 1 or 2 that starts at the current
    /// position of `reader`; the offsets that the file holds are positions in
    /// the whole of the data.
    pub fn read_sspm(mut reader: BinaryReader) -> (r: Result<BeatMap, MapError>)
        ensures
            map_result(r) == sspm_decode(reader.source(), reader.offset()),
    {
        let ghost k = reader.offset();
        let ghost data = reader.source();
        proof {
            reader.lemma_offset_nonnegative();
        }
        let mut header = [0u8; 8];
        reader.read_exact(&mut header)?;
        proof {
            assert(k + 8 <= data.len());
            let sub = data.subrange(k, k + 8);
            assert(header@ =~= sub);
            assert(sub[4] == data[k + 4]);
            assert(sub[5] == data[k + 5]);
            assert(header@[4] == data[k + 4]);
            assert(header@[5] == data[k + 5]);
        }
        if !(header[0] == 0x53 && header[1] == 0x53 && header[2] == 0x2B && header[3] == 0x6D) {
            proof {
                assert(header@.subrange(0, 4) == reader.source().subrange(k, k + 4));
                if reader.source().subrange(k, k + 4) == sspm_signature() {
                    assert(header@[0] == sspm_signature()[0]);
                    assert(header@[1] == sspm_signature()[1]);
                    assert(header@[2] == sspm_signature()[2]);
                    assert(header@[3] == sspm_signature()[3]);
                }
            }
            return Err(MapError::IncorrectSignature);
        }
        proof {
            assert(reader.source().subrange(k, k + 4) =~= sspm_signature());
        }
        if header[4] == 0x01 && header[5] == 0x00 {
            Self::read_sspm_v1(reader)
        } else if header[4] == 0x02 && header[5] == 0x00 {
            Self::read_sspm_v2(reader)
        } else {
            Err(MapError::UnsupportedVersion)
        }
    }
}

/// A string as SSPM stores it: its UTF-8 byte length as a `u16` (modulo
/// 2^16), then the bytes.
pub open spec fn string_bytes(s: Seq<char>) -> Seq<u8> {
    u16_le((encode_utf8(s).len() % 0x1_0000) as u16) + encode_utf8(s)
}

/// Strings as SSPM stores them, one after another.
pub open spec fn strings_bytes(ss: Seq<Seq<char>>) -> Seq<u8> {
    ss.map_values(|t: Seq<char>| string_bytes(t)).flatten()
}

/// The byte of a stored boolean.
pub open spec fn bool_byte(b: bool) -> u8 {
    if b {
        1
    } else {
        0
    }
}

/// A stored two-component position: its flag, then two `f32` bit patterns
/// or two bytes.
pub open spec fn vec2_bytes(v: StoredVec2) -> Seq<u8> {
    match v {
        StoredVec2::Quantum(x, y) => seq![1u8] + u32_le(x) + u32_le(y),
        StoredVec2::Grid(x, y) => seq![0u8, x, y],
    }
}

/// A note as an SSPM v2 object of the first definition: its millisecond,
/// the definition index 0, and its position.
pub open spec fn note_bytes(n: Note) -> Seq<u8> {
    u32_le(n.millisecond) + seq![0u8] + vec2_bytes(n.position)
}

/// Notes as SSPM v2 objects, one after another.
pub open spec fn notes_bytes(ns: Seq<Note>) -> Seq<u8> {
    ns.map_values(|n: Note| note_bytes(n)).flatten()
}

/// The fixed 48 bytes that an SSPM v2 file written here starts with: the
/// signature, version 2, four unused bytes, an empty digest, the length and
/// counts, the difficulty rank, a zero star rating, and the media flags.
#[verifier::opaque]
pub open spec fn header_bytes(m: MapModel) -> Seq<u8> {
    sspm_signature() + seq![2u8, 0u8] + Seq::new(24, |i: int| 0u8) + u32_le(m.info.length)
        + u32_le(m.info.note_count) + u32_le(m.info.object_count) + seq![m.info.difficulty.0]
        + u16_le(0) + seq![
        bool_byte(m.info.audio is Some),
        bool_byte(m.info.cover is Some),
        0u8,
    ]
}

/// The strings after the header: the id, the title twice (as map name and
/// as song name), and the mappers after their count (modulo 2^16).
pub open spec fn names_bytes(m: MapModel) -> Seq<u8> {
    string_bytes(m.id) + string_bytes(m.info.title) + string_bytes(m.info.title) + u16_le(
        (m.info.mappers.len() % 0x1_0000) as u16,
    ) + strings_bytes(m.info.mappers)
}

/// Whether the difficulty is stored as custom data: when its name is not the
/// usual name of its rank.
pub open spec fn has_custom_name(m: MapModel) -> bool {
    m.info.difficulty.1 != default_text(m.info.difficulty.0)
}

/// The custom data: one "difficulty_name" string field when the difficulty
/// has a custom name, else a zero count.
pub open spec fn custom_bytes(m: MapModel) -> Seq<u8> {
    if has_custom_name(m) {
        u16_le(1) + string_bytes("difficulty_name"@) + seq![9u8] + string_bytes(
            m.info.difficulty.1,
        )
    } else {
        u16_le(0)
    }
}

/// The bytes of an optional buffer.
pub open spec fn media_bytes(b: Option<Seq<u8>>) -> Seq<u8> {
    match b {
        Some(b) => b,
        None => Seq::empty(),
    }
}

/// The single object definition: "ssp_note", with one position value.
pub open spec fn definition_bytes() -> Seq<u8> {
    seq![1u8] + string_bytes(note_name()) + seq![1u8, 7u8, 0u8]
}

/// The text that ends a file written here.
pub open spec fn trailer_text() -> Seq<char> {
    "Squircle Util - 0.1.0"@
}

/// Where the custom data starts.
pub open spec fn names_end(m: MapModel) -> int {
    128 + names_bytes(m).len() as int
}

/// Where the audio data starts.
pub open spec fn audio_start(m: MapModel) -> int {
    names_end(m) + custom_bytes(m).len() as int
}

/// Where the cover data starts.
pub open spec fn cover_start(m: MapModel) -> int {
    audio_start(m) + media_bytes(m.info.audio).len() as int
}

/// Where the object definitions start.
pub open spec fn definitions_start(m: MapModel) -> int {
    cover_start(m) + media_bytes(m.info.cover).len() as int
}

/// Where the objects start.
pub open spec fn objects_start(m: MapModel) -> int {
    definitions_start(m) + definition_bytes().len() as int
}

/// The offsets of the header are those of the layout, for a file written
/// at position `k`.
pub proof fn lemma_offsets(m: MapModel, k: int, r: [u64; 10])
    requires
        r[0] == (if has_custom_name(m) { k + names_end(m) } else { 0 }),
        r[1] == (if has_custom_name(m) { custom_bytes(m).len() as int } else { 0 }),
        r[2] == k + audio_start(m),
        r[3] == media_bytes(m.info.audio).len(),
        r[4] == (if m.info.cover is Some { k + cover_start(m) } else { 0 }),
        r[5] == media_bytes(m.info.cover).len(),
        r[6] == k + definitions_start(m),
        r[7] == definition_bytes().len(),
        r[8] == k + objects_start(m),
        r[9] == notes_bytes(m.notes).len(),
    ensures
        offsets_table(r[0], r[1], r[2], r[3], r[4], r[5], r[6], r[7], r[8], r[9]) == offsets_bytes(
            m,
            k,
        ),
{
    reveal(offsets_bytes);
}

/// The header and its offsets take 128 bytes.
pub proof fn lemma_header_len(m: MapModel, k: int)
    ensures
        header_bytes(m).len() == 48,
        offsets_bytes(m, k).len() == 80,
{
    reveal(header_bytes);
    reveal(offsets_bytes);
    lemma_offsets_table_len(
        (if has_custom_name(m) { k + names_end(m) } else { 0 }) as u64,
        (if has_custom_name(m) { custom_bytes(m).len() as int } else { 0 }) as u64,
        (k + audio_start(m)) as u64,
        media_bytes(m.info.audio).len() as u64,
        (if m.info.cover is Some { k + cover_start(m) } else { 0 }) as u64,
        media_bytes(m.info.cover).len() as u64,
        (k + definitions_start(m)) as u64,
        definition_bytes().len() as u64,
        (k + objects_start(m)) as u64,
        notes_bytes(m.notes).len() as u64,
    );
}

/// Where the file stands does not change its length.
pub proof fn lemma_image_len_any_base(m: MapModel, k: int)
    ensures
        sspm_image(m, k).len() == sspm_image(m, 0).len(),
{
    lemma_header_len(m, k);
    lemma_header_len(m, 0);
}

/// Ten offsets and lengths, as little-endian `u64`s.
pub open spec fn offsets_table(
    a0: u64,
    a1: u64,
    a2: u64,
    a3: u64,
    a4: u64,
    a5: u64,
    a6: u64,
    a7: u64,
    a8: u64,
    a9: u64,
) -> Seq<u8> {
    u64_le(a0) + u64_le(a1) + u64_le(a2) + u64_le(a3) + u64_le(a4) + u64_le(a5) + u64_le(a6)
        + u64_le(a7) + u64_le(a8) + u64_le(a9)
}

pub proof fn lemma_offsets_table_len(
    a0: u64,
    a1: u64,
    a2: u64,
    a3: u64,
    a4: u64,
    a5: u64,
    a6: u64,
    a7: u64,
    a8: u64,
    a9: u64,
)
    ensures
        offsets_table(a0, a1, a2, a3, a4, a5, a6, a7, a8, a9).len() == 80,
{
    lemma_u64_roundtrip(a0);
    lemma_u64_roundtrip(a1);
    lemma_u64_roundtrip(a2);
    lemma_u64_roundtrip(a3);
    lemma_u64_roundtrip(a4);
    lemma_u64_roundtrip(a5);
    lemma_u64_roundtrip(a6);
    lemma_u64_roundtrip(a7);
    lemma_u64_roundtrip(a8);
    lemma_u64_roundtrip(a9);
}

/// The ten offsets and lengths of the header of a file written at position
/// `k` of a stream: custom data (offset zero when there is none), audio,
/// cover (offset zero when there is none), definitions, objects. Offsets are
/// positions in the stream.
#[verifier::opaque]
pub open spec fn offsets_bytes(m: MapModel, k: int) -> Seq<u8> {
    offsets_table(
        (if has_custom_name(m) { k + names_end(m) } else { 0 }) as u64,
        (if has_custom_name(m) { custom_bytes(m).len() as int } else { 0 }) as u64,
        (k + audio_start(m)) as u64,
        media_bytes(m.info.audio).len() as u64,
        (if m.info.cover is Some { k + cover_start(m) } else { 0 }) as u64,
        media_bytes(m.info.cover).len() as u64,
        (k + definitions_start(m)) as u64,
        definition_bytes().len() as u64,
        (k + objects_start(m)) as u64,
        notes_bytes(m.notes).len() as u64,
    )
}

/// Everything between the header's offsets and the closing string: the
/// strings, the custom data, the audio and cover data, the note definition
/// and the objects.
#[verifier::opaque]
pub open spec fn body_bytes(m: MapModel) -> Seq<u8> {
    names_bytes(m) + custom_bytes(m) + media_bytes(m.info.audio) + media_bytes(m.info.cover)
        + definition_bytes() + notes_bytes(m.notes)
}

/// The SSPM v2 file that `write_sspm` makes of a map, to stand at position
/// `k` of a stream: the header with its offsets, the strings, the custom
/// data, the audio and cover data, the note definition, every note as an
/// object, and a closing string.
pub open spec fn sspm_image(m: MapModel, k: int) -> Seq<u8> {
    header_bytes(m) + offsets_bytes(m, k) + body_bytes(m) + string_bytes(trailer_text())
}

impl SSPMSerde {
    /// Writes a string with its length, appending to `writer`.
    fn append_string(writer: &mut BinaryWriter, value: &str)
        requires
            old(writer).position() == old(writer).written().len(),
            old(writer).written().len() + string_bytes(value@).len() <= isize::MAX,
        ensures
            final(writer).written() == old(writer).written() + string_bytes(value@),
            final(writer).position() == final(writer).written().len(),
    {
        let ghost before = writer.written();
        let _ = writer.write_string(value);
        proof {
            lemma_write_append(before, u16_le((encode_utf8(value@).len() % 0x1_0000) as u16));
            lemma_write_append(
                before + u16_le((encode_utf8(value@).len() % 0x1_0000) as u16),
                encode_utf8(value@),
            );
            assert(before + u16_le((encode_utf8(value@).len() % 0x1_0000) as u16) + encode_utf8(
                value@,
            ) =~= before + string_bytes(value@));
        }
    }

    /// The position of `writer`.
    fn here(writer: &mut BinaryWriter) -> (p: u64)
        ensures
            *final(writer) == *old(writer),
            p as int == old(writer).position(),
    {
        match writer.stream_position() {
            Ok(p) => p,
            Err(_) => 0,
        }
    }

    /// Appends bytes to `writer`.
    fn append_bytes(writer: &mut BinaryWriter, bytes: &[u8])
        requires
            old(writer).position() == old(writer).written().len(),
            old(writer).written().len() + bytes@.len() <= isize::MAX,
        ensures
            final(writer).written() == old(writer).written() + bytes@,
            final(writer).position() == final(writer).written().len(),
    {
        let ghost before = writer.written();
        let _ = writer.write_all(bytes);
        proof {
            lemma_write_append(before, bytes@);
        }
    }

    /// Appends the 48 bytes of the header.
    fn write_header(writer: &mut BinaryWriter, map: &BeatMap)
        requires
            old(writer).position() == old(writer).written().len(),
            old(writer).written().len() + 48 <= isize::MAX,
        ensures
            final(writer).written() == old(writer).written() + header_bytes(map@),
            final(writer).position() == final(writer).written().len(),
    {
        let ghost before = writer.written();
        reveal(header_bytes);
        let sig: [u8; 4] = [0x53, 0x53, 0x2B, 0x6D];
        Self::append_bytes(writer, &sig);
        let version: [u8; 2] = [0x02, 0x00];
        Self::append_bytes(writer, &version);
        let unused = [0u8; 24];
        Self::append_bytes(writer, &unused);
        let b = encode_u32(map.info.length);
        Self::append_bytes(writer, &b);
        let b = encode_u32(map.info.note_count);
        Self::append_bytes(writer, &b);
        let b = encode_u32(map.info.object_count);
        Self::append_bytes(writer, &b);
        let b = [map.info.difficulty_name.to_u8()];
        Self::append_bytes(writer, &b);
        let b = encode_u16(0);
        Self::append_bytes(writer, &b);
        let b = [
            if map.info.audio_buf.is_some() {
                1u8
            } else {
                0u8
            },
            if map.info.cover_buf.is_some() {
                1u8
            } else {
                0u8
            },
            0u8,
        ];
        Self::append_bytes(writer, &b);
        proof {
            assert(unused@ =~= Seq::new(24, |i: int| 0u8));
            assert(writer.written() =~= before + header_bytes(map@));
        }
    }

    /// Appends the id, the title twice and the mappers.
    fn write_names(writer: &mut BinaryWriter, map: &BeatMap)
        requires
            old(writer).position() == old(writer).written().len(),
            old(writer).written().len() + names_bytes(map@).len() <= isize::MAX,
        ensures
            final(writer).written() == old(writer).written() + names_bytes(map@),
            final(writer).position() == final(writer).written().len(),
    {
        let ghost m = map@;
        let ghost before = writer.written();
        Self::append_string(writer, map.id.as_str());
        Self::append_string(writer, map.info.title.as_str());
        Self::append_string(writer, map.info.title.as_str());
        let b = encode_u16((map.info.mappers.len() as u64 % 0x1_0000) as u16);
        Self::append_bytes(writer, &b);
        let ghost before_mappers = writer.written();
        proof {
            assert(before_mappers =~= before + string_bytes(m.id) + string_bytes(m.info.title)
                + string_bytes(m.info.title) + u16_le((m.info.mappers.len() % 0x1_0000) as u16));
            assert(texts(map.info.mappers@).take(0) =~= Seq::<Seq<char>>::empty());
            assert(strings_bytes(Seq::<Seq<char>>::empty()) =~= Seq::<u8>::empty());
        }
        let n = map.info.mappers.len();
        let mut i: usize = 0;
        while i < n
            invariant
                n == map.info.mappers@.len(),
                i <= n,
                writer.position() == writer.written().len(),
                writer.written() == before_mappers + strings_bytes(
                    texts(map.info.mappers@).take(i as int),
                ),
                before_mappers.len() + strings_bytes(texts(map.info.mappers@)).len()
                    <= isize::MAX,
            decreases n - i,
        {
            proof {
                let t = texts(map.info.mappers@);
                assert(t.take(i + 1) =~= t.take(i as int).push(t[i as int]));
                t.take(i as int).map_values(|x: Seq<char>| string_bytes(x)).lemma_flatten_push(
                    string_bytes(t[i as int]),
                );
                assert(t.take(i + 1).map_values(|x: Seq<char>| string_bytes(x)) =~= t.take(
                    i as int,
                ).map_values(|x: Seq<char>| string_bytes(x)).push(string_bytes(t[i as int])));
                lemma_strings_prefix_len(t, i + 1);
            }
            Self::append_string(writer, map.info.mappers[i].as_str());
            i = i + 1;
        }
        proof {
            assert(texts(map.info.mappers@).take(n as int) =~= texts(map.info.mappers@));
            assert(writer.written() =~= before + names_bytes(m));
        }
    }

    /// Appends the custom data and tells where it is, (0, 0) when there is
    /// no custom name.
    fn write_custom(writer: &mut BinaryWriter, map: &BeatMap) -> (r: (u64, u64))
        requires
            old(writer).position() == old(writer).written().len(),
            old(writer).written().len() + custom_bytes(map@).len() <= isize::MAX,
        ensures
            final(writer).written() == old(writer).written() + custom_bytes(map@),
            final(writer).position() == final(writer).written().len(),
            r.0 == (if has_custom_name(map@) { old(writer).written().len() as int } else { 0 }),
            r.1 == (if has_custom_name(map@) { custom_bytes(map@).len() as int } else { 0 }),
    {
        let ghost before = writer.written();
        let mut custom_data_offset: u64 = 0;
        let mut custom_data_length: u64 = 0;
        if !map.info.difficulty_name.is_default() {
            custom_data_offset = Self::here(writer);
            let b = encode_u16(1);
            Self::append_bytes(writer, &b);
            Self::append_string(writer, "difficulty_name");
            let b = [0x09u8];
            Self::append_bytes(writer, &b);
            let value = map.info.difficulty_name.get_value();
            Self::append_string(writer, value.as_str());
            custom_data_length = Self::here(writer) - custom_data_offset;
            proof {
                assert(writer.written() =~= before + custom_bytes(map@));
            }
        } else {
            let b = encode_u16(0);
            Self::append_bytes(writer, &b);
        }
        (custom_data_offset, custom_data_length)
    }

    /// Appends the note definition.
    fn write_definition(writer: &mut BinaryWriter)
        requires
            old(writer).position() == old(writer).written().len(),
            old(writer).written().len() + definition_bytes().len() <= isize::MAX,
        ensures
            final(writer).written() == old(writer).written() + definition_bytes(),
            final(writer).position() == final(writer).written().len(),
    {
        let ghost before = writer.written();
        let b = [1u8];
        Self::append_bytes(writer, &b);
        Self::append_string(writer, "ssp_note");
        let b = [0x01u8, 0x07, 0x00];
        Self::append_bytes(writer, &b);
        proof {
            assert(writer.written() =~= before + definition_bytes());
        }
    }

    /// Appends every note as an object.
    fn write_notes(writer: &mut BinaryWriter, notes: &Vec<Note>)
        requires
            old(writer).position() == old(writer).written().len(),
            old(writer).written().len() + notes_bytes(notes@).len() <= isize::MAX,
        ensures
            final(writer).written() == old(writer).written() + notes_bytes(notes@),
            final(writer).position() == final(writer).written().len(),
    {
        let ghost before_notes = writer.written();
        let n = notes.len();
        let mut i: usize = 0;
        proof {
            assert(notes@.take(0) =~= Seq::<Note>::empty());
            assert(notes_bytes(Seq::<Note>::empty()) =~= Seq::<u8>::empty());
        }
        while i < n
            invariant
                n == notes@.len(),
                i <= n,
                writer.position() == writer.written().len(),
                writer.written() == before_notes + notes_bytes(notes@.take(i as int)),
                before_notes.len() + notes_bytes(notes@).len() <= isize::MAX,
            decreases n - i,
        {
            let note = notes[i];
            proof {
                let ns = notes@;
                assert(ns.take(i + 1) =~= ns.take(i as int).push(ns[i as int]));
                ns.take(i as int).map_values(|x: Note| note_bytes(x)).lemma_flatten_push(
                    note_bytes(ns[i as int]),
                );
                assert(ns.take(i + 1).map_values(|x: Note| note_bytes(x)) =~= ns.take(
                    i as int,
                ).map_values(|x: Note| note_bytes(x)).push(note_bytes(ns[i as int])));
                lemma_notes_prefix_len(ns, i + 1);
            }
            let nb = Self::note_to_bytes(note);
            Self::append_bytes(writer, nb.as_slice());
            i = i + 1;
        }
        proof {
            assert(notes@.take(n as int) =~= notes@);
        }
    }

    /// Appends everything after the header's offsets, from the strings to the
    /// objects, and tells the offsets and lengths of the sections.
    #[verifier::rlimit(40)]
    fn write_body(writer: &mut BinaryWriter, map: &BeatMap) -> (r: [u64; 10])
        requires
            old(writer).position() == old(writer).written().len() == 128,
            128 + body_bytes(map@).len() <= isize::MAX,
        ensures
            final(writer).written() == old(writer).written() + body_bytes(map@),
            final(writer).position() == final(writer).written().len(),
            r[0] == (if has_custom_name(map@) { names_end(map@) } else { 0 }),
            r[1] == (if has_custom_name(map@) { custom_bytes(map@).len() as int } else { 0 }),
            r[2] == audio_start(map@),
            r[3] == media_bytes(map@.info.audio).len(),
            r[4] == (if map@.info.cover is Some { cover_start(map@) } else { 0 }),
            r[5] == media_bytes(map@.info.cover).len(),
            r[6] == definitions_start(map@),
            r[7] == definition_bytes().len(),
            r[8] == objects_start(map@),
            r[9] == notes_bytes(map@.notes).len(),
    {
        reveal(body_bytes);
        let ghost m = map@;
        let ghost before = writer.written();
        Self::write_names(writer, map);
        let (custom_data_offset, custom_data_length) = Self::write_custom(writer, map);
        let audio_offset = Self::here(writer);
        if let Some(audio) = &map.info.audio_buf {
            Self::append_bytes(writer, audio.as_slice());
        }
        let audio_length = Self::here(writer) - audio_offset;
        let mut cover_offset: u64 = 0;
        let mut cover_length: u64 = 0;
        if let Some(cover) = &map.info.cover_buf {
            cover_offset = Self::here(writer);
            Self::append_bytes(writer, cover.as_slice());
            cover_length = Self::here(writer) - cover_offset;
        }
        proof {
            assert(writer.written() =~= before + names_bytes(m) + custom_bytes(m) + media_bytes(
                m.info.audio,
            ) + media_bytes(m.info.cover));
        }
        let object_definition_offset = Self::here(writer);
        Self::write_definition(writer);
        let object_definition_length = Self::here(writer) - object_definition_offset;
        let object_data_offset = Self::here(writer);
        Self::write_notes(writer, &map.objects.notes);
        let object_data_length = Self::here(writer) - object_data_offset;
        let r = [
            custom_data_offset,
            custom_data_length,
            audio_offset,
            audio_length,
            cover_offset,
            cover_length,
            object_definition_offset,
            object_definition_length,
            object_data_offset,
            object_data_length,
        ];
        proof {
            assert(writer.written() =~= before + body_bytes(m));
            assert(r[0] == (if has_custom_name(m) { names_end(m) } else { 0 }));
            assert(r[2] == audio_start(m));
            assert(r[4] == (if m.info.cover is Some { cover_start(m) } else { 0 }));
            assert(r[6] == definitions_start(m));
            assert(r[8] == objects_start(m));
        }
        r
    }

    /// Writes `map` as an SSPM v2 file that is to stand at position `base`
    /// of a stream: the offsets in its header are positions in that stream.
    pub fn write_sspm(map: &BeatMap, base: u64) -> (bytes: Vec<u8>)
        requires
            sspm_image(map@, base as int).len() <= isize::MAX,
            base + sspm_image(map@, base as int).len() <= u64::MAX,
        ensures
            bytes@ == sspm_image(map@, base as int),
    {
        let ghost m = map@;
        let ghost body = body_bytes(m);
        proof {
            lemma_header_len(m, base as int);
            reveal(body_bytes);
        }
        let mut writer = BinaryWriter::new(Vec::new());
        Self::write_header(&mut writer, map);
        let data_offset = Self::here(&mut writer);
        let placeholder = [0u8; 80];
        Self::append_bytes(&mut writer, &placeholder);
        let ghost zeros = Seq::new(80, |i: int| 0u8);
        proof {
            assert(placeholder@ =~= zeros);
            assert(writer.written() =~= header_bytes(m) + zeros);
        }
        let r = Self::write_body(&mut writer, map);
        proof {
            assert(writer.written() =~= header_bytes(m) + zeros + body);
        }
        let shifted = [
            Self::shifted(r[0], base),
            r[1],
            Self::shifted(r[2], base),
            r[3],
            Self::shifted(r[4], base),
            r[5],
            Self::shifted(r[6], base),
            r[7],
            Self::shifted(r[8], base),
            r[9],
        ];
        proof {
            lemma_offsets(m, base as int, shifted);
        }
        let offsets = Self::offsets_to_bytes(shifted);
        let _ = writer.seek(SeekFrom::Start(data_offset));
        let _ = writer.write_all(offsets.as_slice());
        proof {
            lemma_write_over(header_bytes(m), zeros, body, offsets@);
        }
        let _ = writer.seek(SeekFrom::End(0));
        Self::append_string(&mut writer, "Squircle Util - 0.1.0");
        writer.into_inner()
    }

    /// The length of the file that [`SSPMSerde::write_sspm`] makes of `map`,
    /// when it is at most `isize::MAX`.
    fn image_len(map: &BeatMap) -> (r: Option<u64>)
        ensures
            match r {
                Some(n) => n == sspm_image(map@, 0).len() && n <= isize::MAX,
                None => sspm_image(map@, 0).len() > isize::MAX,
            },
    {
        let ghost m = map@;
        let ghost t = texts(map.info.mappers@);
        let limit: u128 = isize::MAX as u128;
        proof {
            lemma_header_len(m, 0);
            reveal(body_bytes);
            reveal_strlit("Squircle Util - 0.1.0");
            reveal_strlit("difficulty_name");
            reveal_strlit("ssp_note");
            is_ascii_chars_encode_utf8(trailer_text());
            is_ascii_chars_encode_utf8("difficulty_name"@);
            is_ascii_chars_encode_utf8(note_name());
            assert(string_bytes(trailer_text()).len() == 23);
            assert(definition_bytes().len() == 14);
            assert(names_bytes(m).len() == string_bytes(m.id).len() + 2 * string_bytes(
                m.info.title,
            ).len() + 2 + strings_bytes(t).len());
            assert(sspm_image(m, 0).len() == 128 + string_bytes(m.id).len() + 2 * string_bytes(
                m.info.title,
            ).len() + 2 + strings_bytes(t).len() + custom_bytes(m).len() + media_bytes(
                m.info.audio,
            ).len() + media_bytes(m.info.cover).len() + 14 + notes_bytes(m.notes).len() + 23);
        }
        let id_len = map.id.as_str().as_bytes().len() as u128;
        let title_len = map.info.title.as_str().as_bytes().len() as u128;
        assert(string_bytes(m.id).len() == 2 + id_len);
        assert(string_bytes(m.info.title).len() == 2 + title_len);
        let mappers_len = Self::texts_len(&map.info.mappers, limit);
        let mut total: u128 = 128 + 2 + id_len + 2 * (2 + title_len) + 2 + 23 + 14 + mappers_len;
        if total > limit {
            return None;
        }
        if !map.info.difficulty_name.is_default() {
            let name = map.info.difficulty_name.get_value();
            let name_len = name.as_str().as_bytes().len() as u128;
            assert(string_bytes(name@).len() == 2 + name_len);
            total = total + 2 + 2 + 15 + 1 + 2 + name_len;
        } else {
            total = total + 2;
        }
        if let Some(a) = &map.info.audio_buf {
            total = total + a.len() as u128;
        }
        if let Some(c) = &map.info.cover_buf {
            total = total + c.len() as u128;
        }
        if total > limit {
            return None;
        }
        let notes_len = Self::notes_len(&map.objects.notes, limit);
        total = total + notes_len;
        if total > limit {
            return None;
        }
        Some(total as u64)
    }

    /// The stored length of the strings `v`, or `cap + 1` when it exceeds
    /// `cap`.
    fn texts_len(v: &Vec<String>, cap: u128) -> (r: u128)
        requires
            cap <= isize::MAX,
        ensures
            (r <= cap && r == strings_bytes(texts(v@)).len()) || (r == cap + 1 && strings_bytes(
                texts(v@),
            ).len() > cap),
    {
        let ghost t = texts(v@);
        let n = v.len();
        let mut total: u128 = 0;
        let mut i: usize = 0;
        proof {
            assert(t.take(0) =~= Seq::<Seq<char>>::empty());
            assert(strings_bytes(Seq::<Seq<char>>::empty()) =~= Seq::<u8>::empty());
        }
        while i < n
            invariant
                n == v@.len(),
                t == texts(v@),
                i <= n,
                cap <= isize::MAX,
                total == strings_bytes(t.take(i as int)).len(),
                total <= cap,
            decreases n - i,
        {
            proof {
                assert(t.take(i + 1) =~= t.take(i as int).push(t[i as int]));
                assert(t.take(i + 1).map_values(|x: Seq<char>| string_bytes(x)) =~= t.take(
                    i as int,
                ).map_values(|x: Seq<char>| string_bytes(x)).push(string_bytes(t[i as int])));
                t.take(i as int).map_values(|x: Seq<char>| string_bytes(x)).lemma_flatten_push(
                    string_bytes(t[i as int]),
                );
                assert(t[i as int] == v@[i as int]@);
            }
            total = total + 2 + v[i].as_str().as_bytes().len() as u128;
            i = i + 1;
            if total > cap {
                proof {
                    lemma_strings_prefix_len(t, i as int);
                }
                return cap + 1;
            }
        }
        proof {
            assert(t.take(n as int) =~= t);
        }
        total
    }

    /// The stored length of the notes `v`, or `cap + 1` when it exceeds
    /// `cap`.
    fn notes_len(v: &Vec<Note>, cap: u128) -> (r: u128)
        requires
            cap <= isize::MAX,
        ensures
            (r <= cap && r == notes_bytes(v@).len()) || (r == cap + 1 && notes_bytes(v@).len()
                > cap),
    {
        let ghost ns = v@;
        let n = v.len();
        let mut total: u128 = 0;
        let mut j: usize = 0;
        proof {
            assert(ns.take(0) =~= Seq::<Note>::empty());
            assert(notes_bytes(Seq::<Note>::empty()) =~= Seq::<u8>::empty());
        }
        while j < n
            invariant
                n == ns.len(),
                ns == v@,
                j <= n,
                cap <= isize::MAX,
                total == notes_bytes(ns.take(j as int)).len(),
                total <= cap,
            decreases n - j,
        {
            proof {
                assert(ns.take(j + 1) =~= ns.take(j as int).push(ns[j as int]));
                assert(ns.take(j + 1).map_values(|x: Note| note_bytes(x)) =~= ns.take(
                    j as int,
                ).map_values(|x: Note| note_bytes(x)).push(note_bytes(ns[j as int])));
                ns.take(j as int).map_values(|x: Note| note_bytes(x)).lemma_flatten_push(
                    note_bytes(ns[j as int]),
                );
            }
            let size: u128 = match v[j].position {
                StoredVec2::Quantum(_, _) => 14,
                StoredVec2::Grid(_, _) => 8,
            };
            total = total + size;
            j = j + 1;
            if total > cap {
                proof {
                    lemma_notes_prefix_len(ns, j as int);
                }
                return cap + 1;
            }
        }
        proof {
            assert(ns.take(n as int) =~= ns);
        }
        total
    }

    /// Writes `map` as an SSPM v2 file that is to stand at position `base`
    /// of a stream, or gives nothing when the file would not fit in memory
    /// or would end beyond `u64::MAX`.
    pub fn try_write_sspm(map: &BeatMap, base: u64) -> (r: Option<Vec<u8>>)
        ensures
            match r {
                Some(b) => b@ == sspm_image(map@, base as int),
                None => sspm_image(map@, base as int).len() > isize::MAX || base + sspm_image(
                    map@,
                    base as int,
                ).len() > u64::MAX,
            },
    {
        proof {
            lemma_image_len_any_base(map@, base as int);
        }
        match Self::image_len(map) {
            None => None,
            Some(n) => {
                if n > u64::MAX - base {
                    None
                } else {
                    Some(Self::write_sspm(map, base))
                }
            },
        }
    }

    /// The position in the stream of the offset `v` of a file at `base`; an
    /// offset of zero marks a missing section and stays zero.
    fn shifted(v: u64, base: u64) -> (r: u64)
        requires
            v == 0 || v + base <= u64::MAX,
        ensures
            r == if v == 0 {
                0
            } else {
                v + base
            },
    {
        if v == 0 {
            0
        } else {
            v + base
        }
    }

    /// The little-endian bytes of ten offsets and lengths.
    fn offsets_to_bytes(v: [u64; 10]) -> (b: Vec<u8>)
        ensures
            b@ == offsets_table(v[0], v[1], v[2], v[3], v[4], v[5], v[6], v[7], v[8], v[9]),
    {
        let mut b: Vec<u8> = Vec::new();
        let e = encode_u64(v[0]);
        b.extend_from_slice(&e);
        let e = encode_u64(v[1]);
        b.extend_from_slice(&e);
        let e = encode_u64(v[2]);
        b.extend_from_slice(&e);
        let e = encode_u64(v[3]);
        b.extend_from_slice(&e);
        let e = encode_u64(v[4]);
        b.extend_from_slice(&e);
        let e = encode_u64(v[5]);
        b.extend_from_slice(&e);
        let e = encode_u64(v[6]);
        b.extend_from_slice(&e);
        let e = encode_u64(v[7]);
        b.extend_from_slice(&e);
        let e = encode_u64(v[8]);
        b.extend_from_slice(&e);
        let e = encode_u64(v[9]);
        b.extend_from_slice(&e);
        assert(b@ =~= u64_le(v[0]) + u64_le(v[1]) + u64_le(v[2]) + u64_le(v[3]) + u64_le(v[4])
            + u64_le(v[5]) + u64_le(v[6]) + u64_le(v[7]) + u64_le(v[8]) + u64_le(v[9]));
        b
    }

    /// The bytes of a note as an object of the first definition.
    fn note_to_bytes(note: Note) -> (b: Vec<u8>)
        ensures
            b@ == note_bytes(note),
    {
        let mut b: Vec<u8> = Vec::new();
        let ms = encode_u32(note.millisecond);
        b.extend_from_slice(&ms);
        b.push(0x00);
        match note.position {
            StoredVec2::Quantum(x, y) => {
                b.push(1);
                let xb = encode_u32(x);
                b.extend_from_slice(&xb);
                let yb = encode_u32(y);
                b.extend_from_slice(&yb);
            },
            StoredVec2::Grid(x, y) => {
                b.push(0);
                b.push(x);
                b.push(y);
            },
        }
        assert(b@ =~= note_bytes(note));
        b
    }
}

/// The bytes of a prefix of a list of notes are no more than those of all.
pub proof fn lemma_notes_prefix_len(ns: Seq<Note>, i: int)
    requires
        0 <= i <= ns.len(),
    ensures
        notes_bytes(ns.take(i)).len() <= notes_bytes(ns).len(),
    decreases ns.len() - i,
{
    if i < ns.len() {
        lemma_notes_prefix_len(ns, i + 1);
        let f = |x: Note| note_bytes(x);
        assert(ns.take(i + 1) =~= ns.take(i).push(ns[i]));
        assert(ns.take(i + 1).map_values(f) =~= ns.take(i).map_values(f).push(note_bytes(ns[i])));
        ns.take(i).map_values(f).lemma_flatten_push(note_bytes(ns[i]));
    } else {
        assert(ns.take(i) =~= ns);
    }
}

/// The bytes of a prefix of a list of strings are no more than those of all.
pub proof fn lemma_strings_prefix_len(t: Seq<Seq<char>>, i: int)
    requires
        0 <= i <= t.len(),
    ensures
        strings_bytes(t.take(i)).len() <= strings_bytes(t).len(),
    decreases t.len() - i,
{
    if i < t.len() {
        lemma_strings_prefix_len(t, i + 1);
        let f = |x: Seq<char>| string_bytes(x);
        assert(t.take(i + 1) =~= t.take(i).push(t[i]));
        assert(t.take(i + 1).map_values(f) =~= t.take(i).map_values(f).push(string_bytes(t[i])));
        t.take(i).map_values(f).lemma_flatten_push(string_bytes(t[i]));
    } else {
        assert(t.take(i) =~= t);
    }
}

/// Once reading the first `i` values fails, reading all of them fails the
/// same way.
pub proof fn lemma_values_error_stays(data: Seq<u8>, pos: int, kinds: Seq<ObjectValue>, i: int)
    requires
        0 <= i <= kinds.len(),
        values_at(data, pos, kinds.take(i)).1 is Err,
    ensures
        values_at(data, pos, kinds) == values_at(data, pos, kinds.take(i)),
    decreases kinds.len() - i,
{
    if i < kinds.len() {
        assert(kinds.take(i + 1).drop_last() =~= kinds.take(i));
        lemma_values_error_stays(data, pos, kinds, i + 1);
    } else {
        assert(kinds.take(i) =~= kinds);
    }
}

} // verus!
