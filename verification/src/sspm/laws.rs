//! What reading gives back of what writing made.
use crate::codec::{
    lemma_u16_roundtrip, lemma_u32_roundtrip, lemma_u64_roundtrip, u16_le,
    u32_le, u64_le,
};
use crate::io::{
    line_end, read_bool_at, read_line_at, read_string_at, read_u16_at, read_u32_at, read_u64_at,
    read_u8_at, read_vec2_at, take_at, utf8_text,
};
use crate::error::MapError;
use crate::map::{default_text, InfoModel, MapFormat, MapModel};
use crate::objects::{note_of, DefinitionModel, Note, ObjectValue};
use crate::sspm::serde::{
    read_value_at, sspm_tag, decode_v1, flagged_buffer_at, notes_v1_at, v1_head_at, v1_mappers,
    audio_start, bool_byte, cover_start, custom_bytes, definitions_start, header_bytes,
    lemma_header_len, media_bytes, objects_start, offsets_bytes, offsets_table, sspm_signature,
    u32_field, u64_field, v2_header, V2Header, body_bytes, difficulty_of, field_value, media_at,
    sspm_decode, sspm_image, title_parts, trailer_text, custom_data_at, custom_fields_at, definition_bytes,
    definition_section_at, definitions_at, has_custom_name, kinds_at, names_at, names_bytes,
    names_end, note_bytes, note_name, notes_bytes, object_at, objects_from, string_bytes,
    strings_at, strings_bytes, values_at, vec2_bytes,
};
use crate::types::StoredVec2;
use vstd::prelude::*;
use vstd::utf8::{
    encode_utf8, encode_utf8_decode_utf8, encode_utf8_valid_utf8, is_ascii_chars,
    is_ascii_chars_encode_utf8,
};

verus! {

/// Whether `bytes` stand in `data` at `p`.
pub open spec fn window(data: Seq<u8>, p: int, bytes: Seq<u8>) -> bool {
    &&& 0 <= p
    &&& p + bytes.len() <= data.len()
    &&& data.subrange(p, p + bytes.len()) == bytes
}

/// A part of a window is a window.
pub proof fn lemma_window_split(data: Seq<u8>, p: int, a: Seq<u8>, b: Seq<u8>)
    requires
        window(data, p, a + b),
    ensures
        window(data, p, a),
        window(data, p + a.len(), b),
{
    assert(data.subrange(p, p + a.len()) =~= (a + b).subrange(0, a.len() as int));
    assert(data.subrange(p + a.len(), p + a.len() + b.len()) =~= (a + b).subrange(
        a.len() as int,
        (a.len() + b.len()) as int,
    ));
    assert((a + b).subrange(0, a.len() as int) =~= a);
    assert((a + b).subrange(a.len() as int, (a.len() + b.len()) as int) =~= b);
}

/// Bytes standing at `p` are taken whole.
pub proof fn lemma_take_window(data: Seq<u8>, p: int, bytes: Seq<u8>)
    requires
        window(data, p, bytes),
    ensures
        take_at(data, p, bytes.len() as int) == (p + bytes.len(), Ok::<Seq<u8>, crate::error::MapError>(bytes)),
{
    if bytes.len() == 0 {
        assert(bytes =~= Seq::<u8>::empty());
    }
}

pub proof fn lemma_read_u8_window(data: Seq<u8>, p: int, x: u8)
    requires
        window(data, p, seq![x]),
    ensures
        read_u8_at(data, p) == (p + 1, Ok::<u8, crate::error::MapError>(x)),
        read_bool_at(data, p) == (p + 1, Ok::<bool, crate::error::MapError>(x == 1)),
{
    lemma_take_window(data, p, seq![x]);
}

pub proof fn lemma_read_u16_window(data: Seq<u8>, p: int, x: u16)
    requires
        window(data, p, u16_le(x)),
    ensures
        read_u16_at(data, p) == (p + 2, Ok::<u16, crate::error::MapError>(x)),
{
    lemma_u16_roundtrip(x);
    lemma_take_window(data, p, u16_le(x));
}

pub proof fn lemma_read_u32_window(data: Seq<u8>, p: int, x: u32)
    requires
        window(data, p, u32_le(x)),
    ensures
        read_u32_at(data, p) == (p + 4, Ok::<u32, crate::error::MapError>(x)),
{
    lemma_u32_roundtrip(x);
    lemma_take_window(data, p, u32_le(x));
}

pub proof fn lemma_read_u64_window(data: Seq<u8>, p: int, x: u64)
    requires
        window(data, p, u64_le(x)),
    ensures
        read_u64_at(data, p) == (p + 8, Ok::<u64, crate::error::MapError>(x)),
{
    lemma_u64_roundtrip(x);
    lemma_take_window(data, p, u64_le(x));
}

/// A string stored with its length reads back when the length fits a `u16`.
pub proof fn lemma_read_string_window(data: Seq<u8>, p: int, s: Seq<char>)
    requires
        window(data, p, string_bytes(s)),
        encode_utf8(s).len() < 0x1_0000,
    ensures
        read_string_at(data, p) == (
            p + string_bytes(s).len(),
            Ok::<Seq<char>, crate::error::MapError>(s),
        ),
{
    let n = (encode_utf8(s).len() % 0x1_0000) as u16;
    lemma_window_split(data, p, u16_le(n), encode_utf8(s));
    lemma_u16_roundtrip(n);
    lemma_read_u16_window(data, p, n);
    lemma_take_window(data, p + 2, encode_utf8(s));
    encode_utf8_valid_utf8(s);
    encode_utf8_decode_utf8(s);
}

/// A stored position reads back.
pub proof fn lemma_read_vec2_window(data: Seq<u8>, p: int, v: StoredVec2)
    requires
        window(data, p, vec2_bytes(v)),
    ensures
        read_vec2_at(data, p) == (
            p + vec2_bytes(v).len(),
            Ok::<StoredVec2, crate::error::MapError>(v),
        ),
{
    match v {
        StoredVec2::Quantum(x, y) => {
            lemma_u32_roundtrip(x);
            lemma_u32_roundtrip(y);
            lemma_window_split(data, p, seq![1u8] + u32_le(x), u32_le(y));
            lemma_window_split(data, p, seq![1u8], u32_le(x));
            lemma_read_u8_window(data, p, 1);
            lemma_read_u32_window(data, p + 1, x);
            lemma_read_u32_window(data, p + 5, y);
        },
        StoredVec2::Grid(x, y) => {
            assert(seq![0u8, x, y] =~= seq![0u8] + seq![x] + seq![y]);
            lemma_window_split(data, p, seq![0u8] + seq![x], seq![y]);
            lemma_window_split(data, p, seq![0u8], seq![x]);
            lemma_read_u8_window(data, p, 0);
            lemma_read_u8_window(data, p + 1, x);
            lemma_read_u8_window(data, p + 2, y);
        },
    }
}

/// Every string of `ss` has fewer than 2^16 bytes.
pub open spec fn short_strings(ss: Seq<Seq<char>>) -> bool {
    forall|i: int| 0 <= i < ss.len() ==> encode_utf8(#[trigger] ss[i]).len() < 0x1_0000
}

/// Stored strings read back one after another.
pub proof fn lemma_read_strings_window(data: Seq<u8>, p: int, ss: Seq<Seq<char>>)
    requires
        window(data, p, strings_bytes(ss)),
        short_strings(ss),
    ensures
        strings_at(data, p, ss.len()) == (
            p + strings_bytes(ss).len(),
            Ok::<Seq<Seq<char>>, MapError>(ss),
        ),
    decreases ss.len(),
{
    if ss.len() == 0 {
        assert(strings_bytes(ss) =~= Seq::<u8>::empty());
        assert(ss =~= Seq::<Seq<char>>::empty());
    } else {
        let f = |t: Seq<char>| string_bytes(t);
        let init = ss.drop_last();
        assert(ss.map_values(f) =~= init.map_values(f).push(string_bytes(ss.last())));
        init.map_values(f).lemma_flatten_push(string_bytes(ss.last()));
        assert(strings_bytes(ss) == strings_bytes(init) + string_bytes(ss.last()));
        lemma_window_split(data, p, strings_bytes(init), string_bytes(ss.last()));
        assert forall|i: int| 0 <= i < init.len() implies encode_utf8(#[trigger] init[i]).len()
            < 0x1_0000 by {
            assert(init[i] == ss[i]);
        }
        lemma_read_strings_window(data, p, init);
        assert(encode_utf8(ss[ss.len() - 1]).len() < 0x1_0000);
        lemma_read_string_window(data, p + strings_bytes(init).len(), ss.last());
        assert(init.push(ss.last()) =~= ss);
        assert((ss.len() - 1) as nat == init.len());
    }
}

/// The byte length of an ASCII text is its length.
pub proof fn lemma_ascii_len(s: Seq<char>)
    requires
        is_ascii_chars(s),
    ensures
        encode_utf8(s).len() == s.len(),
{
    is_ascii_chars_encode_utf8(s);
}

/// The strings after the header read back.
pub proof fn lemma_read_names(data: Seq<u8>, m: MapModel, k: int)
    requires
        window(data, k + 128, names_bytes(m)),
        encode_utf8(m.id).len() < 0x1_0000,
        encode_utf8(m.info.title).len() < 0x1_0000,
        short_strings(m.info.mappers),
        m.info.mappers.len() < 0x1_0000,
    ensures
        names_at(data, k + 128) == (
            k + names_end(m),
            Ok::<(Seq<char>, Seq<char>, Seq<Seq<char>>), MapError>(
                (m.id, m.info.title, m.info.mappers),
            ),
        ),
{
    let a = string_bytes(m.id);
    let b = string_bytes(m.info.title);
    let c = u16_le((m.info.mappers.len() % 0x1_0000) as u16);
    let d = strings_bytes(m.info.mappers);
    assert(names_bytes(m) == a + b + b + c + d);
    lemma_window_split(data, k + 128, a + b + b + c, d);
    lemma_window_split(data, k + 128, a + b + b, c);
    lemma_window_split(data, k + 128, a + b, b);
    lemma_window_split(data, k + 128, a, b);
    let la = a.len() as int;
    let lb = b.len() as int;
    lemma_read_string_window(data, k + 128, m.id);
    lemma_read_string_window(data, k + 128 + la, m.info.title);
    lemma_read_string_window(data, k + 128 + la + lb, m.info.title);
    lemma_read_u16_window(data, k + 128 + la + lb + lb, m.info.mappers.len() as u16);
    lemma_read_strings_window(data, k + 128 + la + lb + lb + 2, m.info.mappers);
}

/// The custom data holding a difficulty name reads back as that one field.
pub proof fn lemma_read_custom(data: Seq<u8>, m: MapModel, k: int)
    requires
        window(data, k + names_end(m), custom_bytes(m)),
        has_custom_name(m),
        encode_utf8(m.info.difficulty.1).len() < 0x1_0000,
    ensures
        custom_data_at(data, k + names_end(m)) == (
            k + audio_start(m),
            Ok::<Seq<(Seq<char>, ObjectValue)>, MapError>(
                seq![("difficulty_name"@, ObjectValue::String(Some(m.info.difficulty.1)))],
            ),
        ),
{
    let p = k + names_end(m);
    reveal_strlit("difficulty_name");
    lemma_ascii_len("difficulty_name"@);
    let a = u16_le(1);
    let b = string_bytes("difficulty_name"@);
    let c = seq![9u8];
    let d = string_bytes(m.info.difficulty.1);
    assert(custom_bytes(m) == a + b + c + d);
    lemma_window_split(data, p, a + b + c, d);
    lemma_window_split(data, p, a + b, c);
    lemma_window_split(data, p, a, b);
    lemma_read_u16_window(data, p, 1);
    lemma_read_string_window(data, p + 2, "difficulty_name"@);
    lemma_read_u8_window(data, p + 2 + b.len(), 9);
    lemma_read_string_window(data, p + 2 + b.len() + 1, m.info.difficulty.1);
    assert(custom_fields_at(data, p + 2, 0).1 == Ok::<Seq<(Seq<char>, ObjectValue)>, MapError>(
        Seq::empty(),
    ));
    assert(Seq::<(Seq<char>, ObjectValue)>::empty().push(
        ("difficulty_name"@, ObjectValue::String(Some(m.info.difficulty.1))),
    ) =~= seq![("difficulty_name"@, ObjectValue::String(Some(m.info.difficulty.1)))]);
}

/// The note definition.
pub open spec fn note_definition() -> DefinitionModel {
    DefinitionModel { name: note_name(), millisecond: 0, data: seq![ObjectValue::Vec2(None)] }
}

/// The definitions section written here reads back as the note definition.
pub proof fn lemma_read_definitions(data: Seq<u8>, p: int)
    requires
        window(data, p, definition_bytes()),
    ensures
        definition_section_at(data, p) == (
            p + definition_bytes().len(),
            Ok::<Seq<DefinitionModel>, MapError>(seq![note_definition()]),
        ),
{
    reveal_strlit("ssp_note");
    lemma_ascii_len("ssp_note"@);
    let a = seq![1u8];
    let b = string_bytes(note_name());
    let c = seq![1u8];
    let d = seq![7u8];
    let e = seq![0u8];
    assert(definition_bytes() =~= a + b + c + d + e);
    lemma_window_split(data, p, a + b + c + d, e);
    lemma_window_split(data, p, a + b + c, d);
    lemma_window_split(data, p, a + b, c);
    lemma_window_split(data, p, a, b);
    lemma_read_u8_window(data, p, 1);
    lemma_read_string_window(data, p + 1, note_name());
    lemma_read_u8_window(data, p + 1 + b.len(), 1);
    lemma_read_u8_window(data, p + 2 + b.len(), 7);
    lemma_read_u8_window(data, p + 3 + b.len(), 0);
    assert(kinds_at(data, p + 2 + b.len(), 0).1 == Ok::<Seq<ObjectValue>, MapError>(
        Seq::empty(),
    ));
    assert(Seq::<ObjectValue>::empty().push(ObjectValue::Vec2(None)) =~= seq![
        ObjectValue::Vec2(None),
    ]);
    assert(definitions_at(data, p + 1, 0).1 == Ok::<Seq<DefinitionModel>, MapError>(
        Seq::empty(),
    ));
    assert(Seq::<DefinitionModel>::empty().push(note_definition()) =~= seq![note_definition()]);
}

/// Notes written as objects read back as those notes.
pub proof fn lemma_read_notes(data: Seq<u8>, p: int, end: int, ns: Seq<Note>)
    requires
        window(data, p, notes_bytes(ns)),
        end == p + notes_bytes(ns).len(),
    ensures
        objects_from(data, p, end, seq![note_definition()]) == Ok::<
            (Seq<Note>, Seq<DefinitionModel>),
            MapError,
        >((ns, Seq::empty())),
    decreases ns.len(),
{
    let defs = seq![note_definition()];
    if ns.len() == 0 {
        assert(notes_bytes(ns) =~= Seq::<u8>::empty());
        assert(ns =~= Seq::<Note>::empty());
    } else {
        let f = |x: Note| note_bytes(x);
        let n = ns[0];
        let rest = ns.drop_first();
        assert(ns.map_values(f).drop_first() =~= rest.map_values(f));
        assert(notes_bytes(ns) == note_bytes(n) + notes_bytes(rest));
        lemma_window_split(data, p, note_bytes(n), notes_bytes(rest));
        let a = u32_le(n.millisecond);
        let b = seq![0u8];
        let c = vec2_bytes(n.position);
        lemma_window_split(data, p, a + b, c);
        lemma_window_split(data, p, a, b);
        lemma_read_u32_window(data, p, n.millisecond);
        lemma_read_u8_window(data, p + 4, 0);
        lemma_read_vec2_window(data, p + 5, n.position);
        let q = p + note_bytes(n).len();
        assert(values_at(data, p + 5, Seq::<ObjectValue>::empty()).1 == Ok::<
            Seq<ObjectValue>,
            MapError,
        >(Seq::empty()));
        assert(seq![ObjectValue::Vec2(None)].drop_last() =~= Seq::<ObjectValue>::empty());
        let obj = DefinitionModel {
            name: note_name(),
            millisecond: n.millisecond,
            data: seq![ObjectValue::Vec2(Some(n.position))],
        };
        assert(Seq::<ObjectValue>::empty().push(ObjectValue::Vec2(Some(n.position))) =~= seq![
            ObjectValue::Vec2(Some(n.position)),
        ]);
        assert(object_at(data, p, defs) == (q, Ok::<DefinitionModel, MapError>(obj)));
        assert(note_of(obj) == Ok::<Note, MapError>(n));
        lemma_read_notes(data, q, end, rest);
        assert(seq![n] + rest =~= ns);
        assert(Seq::<DefinitionModel>::empty() + Seq::<DefinitionModel>::empty() =~= Seq::<
            DefinitionModel,
        >::empty());
    }
}

/// The header that reading an image written from `m` finds.
pub open spec fn written_header(m: MapModel, k: int) -> V2Header {
    V2Header {
        millisecond: m.info.length,
        note_count: m.info.note_count,
        object_count: m.info.object_count,
        difficulty: m.info.difficulty.0,
        has_audio: m.info.audio is Some,
        has_cover: m.info.cover is Some,
        custom_data_offset: (if has_custom_name(m) { k + names_end(m) } else { 0 }) as u64,
        audio_data_offset: (k + audio_start(m)) as u64,
        audio_data_length: media_bytes(m.info.audio).len() as u64,
        cover_data_offset: (if m.info.cover is Some { k + cover_start(m) } else { 0 }) as u64,
        cover_data_length: media_bytes(m.info.cover).len() as u64,
        object_data_offset: (k + objects_start(m)) as u64,
        object_data_length: notes_bytes(m.notes).len() as u64,
    }
}

/// The fixed header fields written for `m` read back.
pub proof fn lemma_header_part(data: Seq<u8>, m: MapModel, k: int)
    requires
        window(data, k, header_bytes(m)),
    ensures
        data.subrange(k, k + 4) == sspm_signature(),
        data[k + 4] == 2 && data[k + 5] == 0,
        u32_field(data, k + 30) == m.info.length,
        u32_field(data, k + 34) == m.info.note_count,
        u32_field(data, k + 38) == m.info.object_count,
        data[k + 42] == m.info.difficulty.0,
        data[k + 45] == bool_byte(m.info.audio is Some),
        data[k + 46] == bool_byte(m.info.cover is Some),
{
    reveal(header_bytes);
    let h0 = sspm_signature();
    let h1 = h0 + seq![2u8, 0u8];
    let h2 = h1 + Seq::new(24, |i: int| 0u8);
    let h3 = h2 + u32_le(m.info.length);
    let h4 = h3 + u32_le(m.info.note_count);
    let h5 = h4 + u32_le(m.info.object_count);
    let h6 = h5 + seq![m.info.difficulty.0];
    let h7 = h6 + u16_le(0);
    let flags = seq![bool_byte(m.info.audio is Some), bool_byte(m.info.cover is Some), 0u8];
    lemma_u32_roundtrip(m.info.length);
    lemma_u32_roundtrip(m.info.note_count);
    lemma_u32_roundtrip(m.info.object_count);
    lemma_u16_roundtrip(0);
    assert(header_bytes(m) == h7 + flags);
    lemma_window_split(data, k, h7, flags);
    lemma_window_split(data, k, h6, u16_le(0));
    lemma_window_split(data, k, h5, seq![m.info.difficulty.0]);
    lemma_window_split(data, k, h4, u32_le(m.info.object_count));
    lemma_window_split(data, k, h3, u32_le(m.info.note_count));
    lemma_window_split(data, k, h2, u32_le(m.info.length));
    lemma_window_split(data, k, h1, Seq::new(24, |i: int| 0u8));
    lemma_window_split(data, k, h0, seq![2u8, 0u8]);
    assert(data[k + 4] == data.subrange(k + 4, k + 6)[0]);
    assert(data[k + 5] == data.subrange(k + 4, k + 6)[1]);
    assert(data[k + 42] == data.subrange(k + 42, k + 43)[0]);
    assert(data[k + 45] == data.subrange(k + 45, k + 48)[0]);
    assert(data[k + 46] == data.subrange(k + 45, k + 48)[1]);
}

/// Ten offsets written at `p` read back.
pub proof fn lemma_offsets_part(
    data: Seq<u8>,
    p: int,
    a0: u64,
    a1: u64,
    a2: u64,
    a3: u64,
    a4: u64,
    a5: u64,
    a6: u64,
    a7: u64,
    a8: u64,
    a9: u64,
)
    requires
        window(data, p, offsets_table(a0, a1, a2, a3, a4, a5, a6, a7, a8, a9)),
    ensures
        u64_field(data, p) == a0,
        u64_field(data, p + 16) == a2,
        u64_field(data, p + 24) == a3,
        u64_field(data, p + 32) == a4,
        u64_field(data, p + 40) == a5,
        u64_field(data, p + 64) == a8,
        u64_field(data, p + 72) == a9,
{
    let t1 = u64_le(a0) + u64_le(a1);
    let t2 = t1 + u64_le(a2);
    let t3 = t2 + u64_le(a3);
    let t4 = t3 + u64_le(a4);
    let t5 = t4 + u64_le(a5);
    let t6 = t5 + u64_le(a6);
    let t7 = t6 + u64_le(a7);
    let t8 = t7 + u64_le(a8);
    lemma_u64_after(data, p, t8, a9);
    lemma_u64_after(data, p, t7, a8);
    lemma_u64_after(data, p, t6, a7);
    lemma_u64_after(data, p, t5, a6);
    lemma_u64_after(data, p, t4, a5);
    lemma_u64_after(data, p, t3, a4);
    lemma_u64_after(data, p, t2, a3);
    lemma_u64_after(data, p, t1, a2);
    lemma_u64_after(data, p, u64_le(a0), a1);
    lemma_u64_after(data, p, Seq::empty(), a0);
}

/// A `u64` written after `x` reads back.
pub proof fn lemma_u64_after(data: Seq<u8>, p: int, x: Seq<u8>, a: u64)
    requires
        window(data, p, x + u64_le(a)),
    ensures
        window(data, p, x),
        u64_field(data, p + x.len()) == a,
        x.len() + 8 == (x + u64_le(a)).len(),
{
    lemma_u64_roundtrip(a);
    lemma_window_split(data, p, x, u64_le(a));
}

/// The header written for `m` reads back with its fields.
#[verifier::spinoff_prover]
#[verifier::rlimit(60)]
pub proof fn lemma_header_fields(data: Seq<u8>, m: MapModel, k: int)
    requires
        window(data, k, header_bytes(m)),
        window(data, k + 48, offsets_bytes(m, k)),
    ensures
        data.len() >= k + 128,
        data.subrange(k, k + 4) == sspm_signature(),
        data[k + 4] == 2 && data[k + 5] == 0,
        v2_header(data, k) == written_header(m, k),
{
    lemma_header_len(m, k);
    lemma_header_part(data, m, k);
    let w = written_header(m, k);
    let a1 = (if has_custom_name(m) { custom_bytes(m).len() as int } else { 0 }) as u64;
    let a6 = (k + definitions_start(m)) as u64;
    let a7 = definition_bytes().len() as u64;
    assert(offsets_bytes(m, k) == offsets_table(
        w.custom_data_offset,
        a1,
        w.audio_data_offset,
        w.audio_data_length,
        w.cover_data_offset,
        w.cover_data_length,
        a6,
        a7,
        w.object_data_offset,
        w.object_data_length,
    )) by {
        reveal(offsets_bytes);
    }
    lemma_offsets_part(
        data,
        k + 48,
        w.custom_data_offset,
        a1,
        w.audio_data_offset,
        w.audio_data_length,
        w.cover_data_offset,
        w.cover_data_length,
        a6,
        a7,
        w.object_data_offset,
        w.object_data_length,
    );
}

/// The map that reading back the SSPM file written from `m` gives: the
/// title is split into artist and song as reading does, the difficulty,
/// media, counts and notes come back, and what SSPM does not store (the
/// video, the rating, the artist's links, other objects) comes back empty.
pub open spec fn sspm_read_back(m: MapModel) -> MapModel {
    MapModel {
        id: m.id,
        info: InfoModel {
            title: title_parts(m.info.title).1,
            mappers: m.info.mappers,
            artist: title_parts(m.info.title).0,
            length: m.info.length,
            difficulty: m.info.difficulty,
            audio: m.info.audio,
            cover: m.info.cover,
            video: None,
            note_count: m.info.note_count,
            object_count: m.info.object_count,
            rating: 0,
            artist_link: None,
            artist_platform: None,
        },
        format: MapFormat::SSPM,
        notes: m.notes,
        undefined: Seq::empty(),
    }
}

/// Where the parts of the image written from `m` stand in a stream that
/// holds it after `pre`.
pub proof fn lemma_image_windows(m: MapModel, pre: Seq<u8>, post: Seq<u8>)
    ensures
        ({
            let data = pre + sspm_image(m, pre.len() as int) + post;
            let k = pre.len() as int;
            &&& window(data, k, header_bytes(m))
            &&& window(data, k + 48, offsets_bytes(m, k))
            &&& window(data, k + 128, names_bytes(m))
            &&& window(data, k + names_end(m), custom_bytes(m))
            &&& window(data, k + audio_start(m), media_bytes(m.info.audio))
            &&& window(data, k + cover_start(m), media_bytes(m.info.cover))
            &&& window(data, k + definitions_start(m), definition_bytes())
            &&& window(data, k + objects_start(m), notes_bytes(m.notes))
        }),
{
    let k = pre.len() as int;
    let img = sspm_image(m, k);
    let data = pre + img + post;
    lemma_header_len(m, k);
    reveal(body_bytes);
    assert(data.subrange(k, k + img.len()) =~= img);
    let hb = header_bytes(m);
    let ob = offsets_bytes(m, k);
    let bb = body_bytes(m);
    let tb = string_bytes(trailer_text());
    lemma_window_split(data, k, hb + ob + bb, tb);
    lemma_window_split(data, k, hb + ob, bb);
    lemma_window_split(data, k, hb, ob);
    let nb = names_bytes(m);
    let cb = custom_bytes(m);
    let ab = media_bytes(m.info.audio);
    let vb = media_bytes(m.info.cover);
    let db = definition_bytes();
    let sb = notes_bytes(m.notes);
    assert(bb == nb + cb + ab + vb + db + sb);
    lemma_window_split(data, k + 128, nb + cb + ab + vb + db, sb);
    lemma_window_split(data, k + 128, nb + cb + ab + vb, db);
    lemma_window_split(data, k + 128, nb + cb + ab, vb);
    lemma_window_split(data, k + 128, nb + cb, ab);
    lemma_window_split(data, k + 128, nb, cb);
}

/// The media written for `m` at `k` read back, from wherever reading stands
/// when the file has custom data or holds audio or a cover (the reader then
/// moves to the data).
pub proof fn lemma_read_media(data: Seq<u8>, m: MapModel, k: int, p: int)
    requires
        0 <= k,
        window(data, k + audio_start(m), media_bytes(m.info.audio)),
        window(data, k + cover_start(m), media_bytes(m.info.cover)),
        k + objects_start(m) <= isize::MAX,
        p == k + audio_start(m) || m.info.audio is Some || m.info.cover is Some,
    ensures
        media_at(data, p, written_header(m, k)) == (
            k + definitions_start(m),
            Ok::<(Option<Seq<u8>>, Option<Seq<u8>>), MapError>((m.info.audio, m.info.cover)),
        ),
{
    lemma_take_window(data, k + audio_start(m), media_bytes(m.info.audio));
    lemma_take_window(data, k + cover_start(m), media_bytes(m.info.cover));
}

/// The custom data written for `m` gives its difficulty back.
pub proof fn lemma_custom_difficulty(m: MapModel)
    requires
        m.info.difficulty.0 <= 6,
    ensures
        difficulty_of(
            m.info.difficulty.0,
            Ok(seq![("difficulty_name"@, ObjectValue::String(Some(m.info.difficulty.1)))]),
        ) == m.info.difficulty,
{
    let fields = seq![("difficulty_name"@, ObjectValue::String(Some(m.info.difficulty.1)))];
    assert(fields.last().0 == "difficulty_name"@);
    assert(field_value(fields, "difficulty_name"@) == Some(
        ObjectValue::String(Some(m.info.difficulty.1)),
    ));
}

/// Reading back an SSPM file written from a map at a position of a stream,
/// from that position, gives the map (as [`sspm_read_back`] describes it),
/// whatever precedes and follows the file, when the strings and the list of
/// mappers fit the 16-bit lengths of the format and the stream fits in
/// memory, and the reader finds the difficulty name. A name other than the
/// usual one of its rank (whatever the rank) always comes back. When the
/// name is the usual one, no custom data is written and the reader parses
/// the start of the stream in its place, so reading then needs audio or a
/// cover to find its way back, and that start must not hold a
/// "difficulty_name" string.
pub proof fn sspm_write_read_roundtrip(m: MapModel, pre: Seq<u8>, post: Seq<u8>)
    requires
        (pre + sspm_image(m, pre.len() as int) + post).len() <= isize::MAX,
        m.info.difficulty.0 <= 6,
        encode_utf8(m.id).len() < 0x1_0000,
        encode_utf8(m.info.title).len() < 0x1_0000,
        encode_utf8(m.info.difficulty.1).len() < 0x1_0000,
        short_strings(m.info.mappers),
        m.info.mappers.len() < 0x1_0000,
        m.info.difficulty.1 != default_text(m.info.difficulty.0) || m.info.audio is Some
            || m.info.cover is Some,
        m.info.difficulty.1 == default_text(m.info.difficulty.0) ==> difficulty_of(
            m.info.difficulty.0,
            custom_data_at(pre + sspm_image(m, pre.len() as int) + post, 0).1,
        ) == m.info.difficulty,
    ensures
        sspm_decode(pre + sspm_image(m, pre.len() as int) + post, pre.len() as int) == Ok::<
            MapModel,
            MapError,
        >(sspm_read_back(m)),
{
    let k = pre.len() as int;
    let data = pre + sspm_image(m, k) + post;
    lemma_header_len(m, k);
    lemma_image_windows(m, pre, post);
    lemma_header_fields(data, m, k);
    lemma_read_names(data, m, k);
    let h = written_header(m, k);
    let p2 = custom_data_at(data, h.custom_data_offset as int).0;
    if has_custom_name(m) {
        lemma_read_custom(data, m, k);
        lemma_custom_difficulty(m);
    }
    lemma_read_media(data, m, k, p2);
    lemma_read_definitions(data, k + definitions_start(m));
    lemma_read_notes(
        data,
        k + objects_start(m),
        k + objects_start(m) + notes_bytes(m.notes).len(),
        m.notes,
    );
}

/// The SSPM type tag of a value's type: 0x01 to 0x04 for the unsigned
/// integers of 8, 16, 32 and 64 bits, 0x05 and 0x06 for `f32` and `f64`,
/// 0x07 for a position, 0x08 for a buffer, 0x09 for a string, 0x0A for a
/// long buffer, 0x0B for a long string, and 0x0C for a list.
pub open spec fn sspm_tag_byte(v: ObjectValue) -> u8 {
    match v {
        ObjectValue::U8(_) => 0x01,
        ObjectValue::U16(_) => 0x02,
        ObjectValue::U32(_) => 0x03,
        ObjectValue::U64(_) => 0x04,
        ObjectValue::F32(_) => 0x05,
        ObjectValue::F64(_) => 0x06,
        ObjectValue::Vec2(_) => 0x07,
        ObjectValue::Buf(_) => 0x08,
        ObjectValue::String(_) => 0x09,
        ObjectValue::LongBuf(_) => 0x0A,
        ObjectValue::LongString(_) => 0x0B,
        _ => 0x0C,
    }
}

/// The stored bytes of a value: integers and float bit patterns in
/// little-endian order, a position as stored, and buffers and strings after
/// their byte length (a `u16`, or a `u32` for the long forms).
pub open spec fn sspm_value_bytes(v: ObjectValue) -> Seq<u8> {
    match v {
        ObjectValue::U8(Some(x)) => seq![x],
        ObjectValue::U16(Some(x)) => u16_le(x),
        ObjectValue::U32(Some(x)) => u32_le(x),
        ObjectValue::U64(Some(x)) => u64_le(x),
        ObjectValue::F32(Some(x)) => u32_le(x),
        ObjectValue::F64(Some(x)) => u64_le(x),
        ObjectValue::Vec2(Some(x)) => vec2_bytes(x),
        ObjectValue::Buf(Some(b)) => u16_le(b.len() as u16) + b,
        ObjectValue::String(Some(t)) => u16_le(encode_utf8(t).len() as u16) + encode_utf8(t),
        ObjectValue::LongBuf(Some(b)) => u32_le(b.len() as u32) + b,
        ObjectValue::LongString(Some(t)) => u32_le(encode_utf8(t).len() as u32) + encode_utf8(t),
        _ => Seq::empty(),
    }
}

/// Whether SSPM can store the value: an integer, float, position, or a
/// buffer or string whose length fits its length field.
pub open spec fn sspm_storable(v: ObjectValue) -> bool {
    match v {
        ObjectValue::U8(Some(_)) => true,
        ObjectValue::U16(Some(_)) => true,
        ObjectValue::U32(Some(_)) => true,
        ObjectValue::U64(Some(_)) => true,
        ObjectValue::F32(Some(_)) => true,
        ObjectValue::F64(Some(_)) => true,
        ObjectValue::Vec2(Some(_)) => true,
        ObjectValue::Buf(Some(b)) => b.len() < 0x1_0000,
        ObjectValue::String(Some(t)) => encode_utf8(t).len() < 0x1_0000,
        ObjectValue::LongBuf(Some(b)) => b.len() < 0x1_0000_0000,
        ObjectValue::LongString(Some(t)) => encode_utf8(t).len() < 0x1_0000_0000,
        _ => false,
    }
}

/// A value stored after its type tag reads back as that value: reading the
/// tag gives the value's type, and reading a value of that type gives the
/// value and ends after its bytes.
pub proof fn typed_value_read_back(data: Seq<u8>, p: int, v: ObjectValue)
    requires
        sspm_storable(v),
        window(data, p, seq![sspm_tag_byte(v)] + sspm_value_bytes(v)),
    ensures
        read_u8_at(data, p) == (p + 1, Ok::<u8, MapError>(sspm_tag_byte(v))),
        sspm_tag(sspm_tag_byte(v)) matches Ok(kind) && read_value_at(data, p + 1, kind) == (
            p + 1 + sspm_value_bytes(v).len(),
            Ok::<ObjectValue, MapError>(v),
        ),
{
    let b = sspm_value_bytes(v);
    lemma_window_split(data, p, seq![sspm_tag_byte(v)], b);
    lemma_read_u8_window(data, p, sspm_tag_byte(v));
    let q = p + 1;
    match v {
        ObjectValue::U8(Some(x)) => {
            lemma_read_u8_window(data, q, x);
        },
        ObjectValue::U16(Some(x)) => {
            lemma_read_u16_window(data, q, x);
        },
        ObjectValue::U32(Some(x)) => {
            lemma_read_u32_window(data, q, x);
        },
        ObjectValue::U64(Some(x)) => {
            lemma_read_u64_window(data, q, x);
        },
        ObjectValue::F32(Some(x)) => {
            lemma_read_u32_window(data, q, x);
        },
        ObjectValue::F64(Some(x)) => {
            lemma_read_u64_window(data, q, x);
        },
        ObjectValue::Vec2(Some(x)) => {
            lemma_read_vec2_window(data, q, x);
        },
        ObjectValue::Buf(Some(bs)) => {
            let n = bs.len() as u16;
            lemma_window_split(data, q, u16_le(n), bs);
            lemma_u16_roundtrip(n);
            lemma_read_u16_window(data, q, n);
            lemma_take_window(data, q + 2, bs);
        },
        ObjectValue::String(Some(t)) => {
            assert(sspm_value_bytes(v) == string_bytes(t));
            lemma_read_string_window(data, q, t);
        },
        ObjectValue::LongBuf(Some(bs)) => {
            let n = bs.len() as u32;
            lemma_window_split(data, q, u32_le(n), bs);
            lemma_u32_roundtrip(n);
            lemma_read_u32_window(data, q, n);
            lemma_take_window(data, q + 4, bs);
        },
        ObjectValue::LongString(Some(t)) => {
            let n = encode_utf8(t).len() as u32;
            lemma_window_split(data, q, u32_le(n), encode_utf8(t));
            lemma_u32_roundtrip(n);
            lemma_read_u32_window(data, q, n);
            lemma_take_window(data, q + 4, encode_utf8(t));
            encode_utf8_valid_utf8(t);
            encode_utf8_decode_utf8(t);
        },
        _ => {},
    }
}

/// Whether a text can stand as a line of an SSPM v1 file: ASCII, without a
/// line feed.
pub open spec fn plain_line(t: Seq<char>) -> bool {
    &&& is_ascii_chars(t)
    &&& forall|i: int| 0 <= i < t.len() ==> #[trigger] t[i] != '\n'
}

/// A line of an SSPM v1 file: the text, then a line feed.
pub open spec fn line_bytes(t: Seq<char>) -> Seq<u8> {
    encode_utf8(t) + seq![10u8]
}

/// An optional buffer of an SSPM v1 file: the byte `flag`, the buffer's
/// length as a `u64` and the buffer when there is one; a zero byte when
/// there is none.
pub open spec fn flagged_bytes(flag: u8, b: Option<Seq<u8>>) -> Seq<u8> {
    match b {
        Some(b) => seq![flag] + u64_le(b.len() as u64) + b,
        None => seq![0u8],
    }
}

/// An SSPM v1 file: the signature, version 1 and two unused bytes, the id,
/// name and mappers as lines, the length, the note count and the difficulty,
/// the cover after the flag 2 and the audio after the flag 1, and then each
/// note as its millisecond and its stored position.
pub open spec fn v1_image(
    id: Seq<char>,
    name: Seq<char>,
    mappers: Seq<char>,
    length: u32,
    difficulty: u8,
    cover: Option<Seq<u8>>,
    audio: Option<Seq<u8>>,
    notes: Seq<Note>,
) -> Seq<u8> {
    sspm_signature() + seq![1u8, 0u8, 0u8, 0u8] + v1_head_bytes(
        id,
        name,
        mappers,
        length,
        notes.len() as u32,
        difficulty,
    ) + flagged_bytes(2, cover) + flagged_bytes(1, audio) + crate::phxm::serde::phxm_notes_bytes(
        notes,
    )
}

/// The end of a line standing at `p` is its line feed.
pub proof fn lemma_line_end(data: Seq<u8>, p: int, t: Seq<char>, q: int)
    requires
        window(data, p, line_bytes(t)),
        plain_line(t),
        p <= q <= p + t.len(),
    ensures
        line_end(data, q) == p + t.len(),
    decreases p + t.len() - q,
{
    is_ascii_chars_encode_utf8(t);
    assert(data[p + t.len()] == line_bytes(t)[t.len() as int]);
    if q < p + t.len() {
        assert(data[q] == line_bytes(t)[q - p]);
        assert(line_bytes(t)[q - p] == encode_utf8(t)[q - p]);
        assert(t[q - p] != '\n');
        lemma_line_end(data, p, t, q + 1);
    }
}

/// A line standing at `p` reads back as its text.
pub proof fn lemma_read_line_window(data: Seq<u8>, p: int, t: Seq<char>)
    requires
        window(data, p, line_bytes(t)),
        plain_line(t),
    ensures
        read_line_at(data, p) == (p + t.len() + 1, Ok::<Seq<char>, MapError>(t)),
{
    is_ascii_chars_encode_utf8(t);
    lemma_line_end(data, p, t, p);
    lemma_window_split(data, p, encode_utf8(t), seq![10u8]);
    encode_utf8_valid_utf8(t);
    encode_utf8_decode_utf8(t);
}

/// An optional buffer standing at `p` reads back.
pub proof fn lemma_read_flagged_window(data: Seq<u8>, p: int, flag: u8, b: Option<Seq<u8>>)
    requires
        window(data, p, flagged_bytes(flag, b)),
        flag != 0,
        b matches Some(x) ==> x.len() <= isize::MAX,
    ensures
        flagged_buffer_at(data, p, flag) == (
            p + flagged_bytes(flag, b).len(),
            Ok::<Option<Seq<u8>>, MapError>(b),
        ),
{
    match b {
        Some(x) => {
            let n = x.len() as u64;
            lemma_window_split(data, p, seq![flag] + u64_le(n), x);
            lemma_window_split(data, p, seq![flag], u64_le(n));
            lemma_read_u8_window(data, p, flag);
            lemma_read_u64_window(data, p + 1, n);
            lemma_take_window(data, p + 9, x);
        },
        None => {
            lemma_read_u8_window(data, p, 0);
        },
    }
}

/// The head of an SSPM v1 file standing at `p` reads back: three lines,
/// the length, the note count and the difficulty.
pub proof fn lemma_read_v1_head(
    data: Seq<u8>,
    p: int,
    id: Seq<char>,
    name: Seq<char>,
    mappers: Seq<char>,
    length: u32,
    count: u32,
    difficulty: u8,
)
    requires
        plain_line(id),
        plain_line(name),
        plain_line(mappers),
        window(data, p, v1_head_bytes(id, name, mappers, length, count, difficulty)),
    ensures
        v1_head_at(data, p) == (
            p + v1_head_bytes(id, name, mappers, length, count, difficulty).len(),
            Ok::<(Seq<char>, Seq<char>, Seq<char>, u32, u32, u8), MapError>(
                (id, name, mappers, length, count, difficulty),
            ),
        ),
{
    let a1 = line_bytes(id);
    let a2 = line_bytes(name);
    let a3 = line_bytes(mappers);
    let a4 = u32_le(length);
    let a5 = u32_le(count);
    let a6 = seq![difficulty];
    lemma_window_split(data, p, a1 + a2 + a3 + a4 + a5, a6);
    lemma_window_split(data, p, a1 + a2 + a3 + a4, a5);
    lemma_window_split(data, p, a1 + a2 + a3, a4);
    lemma_window_split(data, p, a1 + a2, a3);
    lemma_window_split(data, p, a1, a2);
    is_ascii_chars_encode_utf8(id);
    is_ascii_chars_encode_utf8(name);
    is_ascii_chars_encode_utf8(mappers);
    lemma_read_line_window(data, p, id);
    lemma_read_line_window(data, p + a1.len(), name);
    lemma_read_line_window(data, p + a1.len() + a2.len(), mappers);
    let q = p + a1.len() + a2.len() + a3.len();
    lemma_read_u32_window(data, q, length);
    lemma_read_u32_window(data, q + 4, count);
    lemma_read_u8_window(data, q + 8, difficulty);
}

/// The map of an SSPM v1 file with the given parts: the id, the name as
/// title, the mappers of the mapper line, the length, the difficulty rank
/// under its usual name (an unknown rank reads as 0, "N/A"), the cover and
/// the audio, and the notes, counted as notes and as objects.
pub open spec fn v1_read_back(
    id: Seq<char>,
    name: Seq<char>,
    mappers: Seq<char>,
    length: u32,
    difficulty: u8,
    cover: Option<Seq<u8>>,
    audio: Option<Seq<u8>>,
    notes: Seq<Note>,
) -> MapModel {
    MapModel {
        id,
        info: InfoModel {
            title: name,
            mappers: v1_mappers(mappers),
            artist: Seq::empty(),
            length,
            difficulty: if difficulty <= 6 {
                (difficulty, default_text(difficulty))
            } else {
                (0u8, "N/A"@)
            },
            audio,
            cover,
            video: None,
            note_count: notes.len() as u32,
            object_count: notes.len() as u32,
            rating: 0,
            artist_link: None,
            artist_platform: None,
        },
        format: MapFormat::SSPM,
        notes,
        undefined: Seq::empty(),
    }
}

/// An SSPM v1 file whose parts read back decodes to their map.
#[verifier::spinoff_prover]
pub proof fn lemma_v1_decode_parts(
    data: Seq<u8>,
    k: int,
    p5: int,
    p6: int,
    p7: int,
    id: Seq<char>,
    name: Seq<char>,
    mappers: Seq<char>,
    length: u32,
    difficulty: u8,
    cover: Option<Seq<u8>>,
    audio: Option<Seq<u8>>,
    notes: Seq<Note>,
)
    requires
        data.len() >= k + 8,
        data.subrange(k, k + 4) == sspm_signature(),
        data[k + 4] == 1 && data[k + 5] == 0,
        notes.len() <= u32::MAX,
        v1_head_at(data, k + 8) == (
            p5,
            Ok::<(Seq<char>, Seq<char>, Seq<char>, u32, u32, u8), MapError>(
                (id, name, mappers, length, notes.len() as u32, difficulty),
            ),
        ),
        flagged_buffer_at(data, p5, 2) == (p6, Ok::<Option<Seq<u8>>, MapError>(cover)),
        flagged_buffer_at(data, p6, 1) == (p7, Ok::<Option<Seq<u8>>, MapError>(audio)),
        notes_v1_at(data, p7, notes.len()).1 == Ok::<Seq<Note>, MapError>(notes),
    ensures
        sspm_decode(data, k) == Ok::<MapModel, MapError>(
            v1_read_back(id, name, mappers, length, difficulty, cover, audio, notes),
        ),
{
    assert((notes.len() as u32) as nat == notes.len());
    assert(difficulty_of(difficulty, Err(MapError::UnexpectedEof)) == (if difficulty <= 6 {
        (difficulty, default_text(difficulty))
    } else {
        (0u8, "N/A"@)
    }));
}

/// The head of an SSPM v1 file: its lines, length, note count and
/// difficulty.
pub open spec fn v1_head_bytes(
    id: Seq<char>,
    name: Seq<char>,
    mappers: Seq<char>,
    length: u32,
    count: u32,
    difficulty: u8,
) -> Seq<u8> {
    line_bytes(id) + line_bytes(name) + line_bytes(mappers) + u32_le(length) + u32_le(count)
        + seq![difficulty]
}

/// Where the parts of an SSPM v1 file stand in a stream that holds it after
/// `pre`.
#[verifier::spinoff_prover]
pub proof fn lemma_v1_windows(
    pre: Seq<u8>,
    post: Seq<u8>,
    id: Seq<char>,
    name: Seq<char>,
    mappers: Seq<char>,
    length: u32,
    difficulty: u8,
    cover: Option<Seq<u8>>,
    audio: Option<Seq<u8>>,
    notes: Seq<Note>,
)
    ensures
        ({
            let data = pre + v1_image(id, name, mappers, length, difficulty, cover, audio, notes)
                + post;
            let k = pre.len() as int;
            let head = v1_head_bytes(id, name, mappers, length, notes.len() as u32, difficulty);
            let p5 = k + 8 + head.len();
            let p6 = p5 + flagged_bytes(2, cover).len();
            let p7 = p6 + flagged_bytes(1, audio).len();
            &&& window(data, k, sspm_signature() + seq![1u8, 0u8, 0u8, 0u8])
            &&& window(data, k + 8, head)
            &&& window(data, p5, flagged_bytes(2, cover))
            &&& window(data, p6, flagged_bytes(1, audio))
            &&& window(data, p7, crate::phxm::serde::phxm_notes_bytes(notes))
        }),
{
    let k = pre.len() as int;
    let img = v1_image(id, name, mappers, length, difficulty, cover, audio, notes);
    let data = pre + img + post;
    assert(data.subrange(k, k + img.len()) =~= img);
    let a0 = sspm_signature() + seq![1u8, 0u8, 0u8, 0u8];
    let head = v1_head_bytes(id, name, mappers, length, notes.len() as u32, difficulty);
    let a7 = flagged_bytes(2, cover);
    let a8 = flagged_bytes(1, audio);
    let a9 = crate::phxm::serde::phxm_notes_bytes(notes);
    assert(img =~= a0 + head + a7 + a8 + a9);
    lemma_window_split(data, k, a0 + head + a7 + a8, a9);
    lemma_window_split(data, k, a0 + head + a7, a8);
    lemma_window_split(data, k, a0 + head, a7);
    lemma_window_split(data, k, a0, head);
}

/// The parts of an SSPM v1 file read back where they stand.
#[verifier::spinoff_prover]
pub proof fn lemma_v1_parts_read_back(
    pre: Seq<u8>,
    post: Seq<u8>,
    id: Seq<char>,
    name: Seq<char>,
    mappers: Seq<char>,
    length: u32,
    difficulty: u8,
    cover: Option<Seq<u8>>,
    audio: Option<Seq<u8>>,
    notes: Seq<Note>,
)
    requires
        plain_line(id),
        plain_line(name),
        plain_line(mappers),
        notes.len() <= u32::MAX,
        cover matches Some(c) ==> c.len() <= isize::MAX,
        audio matches Some(a) ==> a.len() <= isize::MAX,
    ensures
        ({
            let data = pre + v1_image(id, name, mappers, length, difficulty, cover, audio, notes)
                + post;
            let k = pre.len() as int;
            let head = v1_head_bytes(id, name, mappers, length, notes.len() as u32, difficulty);
            let p5 = k + 8 + head.len();
            let p6 = p5 + flagged_bytes(2, cover).len();
            let p7 = p6 + flagged_bytes(1, audio).len();
            &&& data.len() >= k + 8
            &&& data.subrange(k, k + 4) == sspm_signature()
            &&& data[k + 4] == 1 && data[k + 5] == 0
            &&& v1_head_at(data, k + 8) == (
                p5,
                Ok::<(Seq<char>, Seq<char>, Seq<char>, u32, u32, u8), MapError>(
                    (id, name, mappers, length, notes.len() as u32, difficulty),
                ),
            )
            &&& flagged_buffer_at(data, p5, 2) == (p6, Ok::<Option<Seq<u8>>, MapError>(cover))
            &&& flagged_buffer_at(data, p6, 1) == (p7, Ok::<Option<Seq<u8>>, MapError>(audio))
            &&& notes_v1_at(data, p7, notes.len()).1 == Ok::<Seq<Note>, MapError>(notes)
        }),
{
    let k = pre.len() as int;
    let data = pre + v1_image(id, name, mappers, length, difficulty, cover, audio, notes) + post;
    let head = v1_head_bytes(id, name, mappers, length, notes.len() as u32, difficulty);
    let p5 = k + 8 + head.len();
    let p6 = p5 + flagged_bytes(2, cover).len();
    let p7 = p6 + flagged_bytes(1, audio).len();
    lemma_v1_windows(pre, post, id, name, mappers, length, difficulty, cover, audio, notes);
    lemma_window_split(data, k, sspm_signature(), seq![1u8, 0u8, 0u8, 0u8]);
    assert(data[k + 4] == seq![1u8, 0u8, 0u8, 0u8][0]);
    assert(data[k + 5] == seq![1u8, 0u8, 0u8, 0u8][1]);
    lemma_read_v1_head(data, k + 8, id, name, mappers, length, notes.len() as u32, difficulty);
    lemma_read_flagged_window(data, p5, 2, cover);
    lemma_read_flagged_window(data, p6, 1, audio);
    crate::phxm::laws::lemma_read_phxm_notes(data, p7, notes);
    assert(data.len() >= k + 8);
    assert(data.subrange(k, k + 4) == sspm_signature());
    assert(v1_head_at(data, k + 8) == (
        p5,
        Ok::<(Seq<char>, Seq<char>, Seq<char>, u32, u32, u8), MapError>(
            (id, name, mappers, length, notes.len() as u32, difficulty),
        ),
    ));
    assert(flagged_buffer_at(data, p5, 2) == (p6, Ok::<Option<Seq<u8>>, MapError>(cover)));
    assert(flagged_buffer_at(data, p6, 1) == (p7, Ok::<Option<Seq<u8>>, MapError>(audio)));
    assert(notes_v1_at(data, p7, notes.len()).1 == Ok::<Seq<Note>, MapError>(notes));
}

/// Reading an SSPM v1 file, wherever it stands in a stream, gives its map
/// (as [`v1_read_back`] describes it): its lines, counts and difficulty,
/// the cover after the flag 2, the audio after the flag 1, and the notes
/// after them.
pub proof fn sspm_v1_read_back(
    pre: Seq<u8>,
    post: Seq<u8>,
    id: Seq<char>,
    name: Seq<char>,
    mappers: Seq<char>,
    length: u32,
    difficulty: u8,
    cover: Option<Seq<u8>>,
    audio: Option<Seq<u8>>,
    notes: Seq<Note>,
)
    requires
        plain_line(id),
        plain_line(name),
        plain_line(mappers),
        notes.len() <= u32::MAX,
        cover matches Some(c) ==> c.len() <= isize::MAX,
        audio matches Some(a) ==> a.len() <= isize::MAX,
    ensures
        sspm_decode(
            pre + v1_image(id, name, mappers, length, difficulty, cover, audio, notes) + post,
            pre.len() as int,
        ) == Ok::<MapModel, MapError>(
            v1_read_back(id, name, mappers, length, difficulty, cover, audio, notes),
        ),
{
    let k = pre.len() as int;
    let data = pre + v1_image(id, name, mappers, length, difficulty, cover, audio, notes) + post;
    let head = v1_head_bytes(id, name, mappers, length, notes.len() as u32, difficulty);
    let p5 = k + 8 + head.len();
    let p6 = p5 + flagged_bytes(2, cover).len();
    let p7 = p6 + flagged_bytes(1, audio).len();
    lemma_v1_parts_read_back(pre, post, id, name, mappers, length, difficulty, cover, audio, notes);
    lemma_v1_decode_parts(
        data,
        k,
        p5,
        p6,
        p7,
        id,
        name,
        mappers,
        length,
        difficulty,
        cover,
        audio,
        notes,
    );
}

} // verus!
