//! What reading gives back of what writing made.
use crate::codec::{lemma_u32_roundtrip, u32_le};
use crate::error::MapError;
use crate::objects::Note;
use crate::map::{default_text, MapModel};
use crate::phxm::serde::{
    audio_entry_name, info_of_metadata, metadata_of, phxm_decode, phxm_entries_of, phxm_read_back,
    phxm_roundtrip_ok, zip_entry, MetaModel, phxm_note_bytes, phxm_notes_bytes, phxm_objects_decode,
    phxm_objects_image,
};
use crate::sspm::laws::{lemma_read_u32_window, lemma_read_vec2_window, lemma_window_split, window};
use crate::sspm::serde::notes_v1_at;
use vstd::prelude::*;

verus! {

/// Notes stored one after another read back.
pub proof fn lemma_read_phxm_notes(data: Seq<u8>, p: int, ns: Seq<Note>)
    requires
        window(data, p, phxm_notes_bytes(ns)),
    ensures
        notes_v1_at(data, p, ns.len()) == (
            p + phxm_notes_bytes(ns).len(),
            Ok::<Seq<Note>, MapError>(ns),
        ),
    decreases ns.len(),
{
    if ns.len() == 0 {
        assert(phxm_notes_bytes(ns) =~= Seq::<u8>::empty());
        assert(ns =~= Seq::<Note>::empty());
    } else {
        let f = |n: Note| phxm_note_bytes(n);
        let init = ns.drop_last();
        let last = ns.last();
        assert(ns.map_values(f) =~= init.map_values(f).push(phxm_note_bytes(last)));
        init.map_values(f).lemma_flatten_push(phxm_note_bytes(last));
        lemma_window_split(data, p, phxm_notes_bytes(init), phxm_note_bytes(last));
        lemma_read_phxm_notes(data, p, init);
        let q = p + phxm_notes_bytes(init).len();
        lemma_window_split(data, q, u32_le(last.millisecond), crate::sspm::serde::vec2_bytes(last.position));
        lemma_read_u32_window(data, q, last.millisecond);
        lemma_read_vec2_window(data, q + 4, last.position);
        assert(init.push(last) =~= ns);
        assert((ns.len() - 1) as nat == init.len());
    }
}

/// Reading back the objects file written for notes `ns` gives `ns`, when
/// the note count written is their number.
pub proof fn phxm_objects_roundtrip(ns: Seq<Note>)
    requires
        ns.len() <= u32::MAX,
    ensures
        phxm_objects_decode(phxm_objects_image(ns.len() as u32, ns)) == Ok::<Seq<Note>, MapError>(ns),
{
    let data = phxm_objects_image(ns.len() as u32, ns);
    let a = u32_le(12);
    let b = u32_le(ns.len() as u32);
    let c = phxm_notes_bytes(ns);
    let z = Seq::new(44, |i: int| 0u8);
    lemma_u32_roundtrip(12);
    lemma_u32_roundtrip(ns.len() as u32);
    assert(data.subrange(0, data.len() as int) =~= data);
    lemma_window_split(data, 0, a + b + c, z);
    lemma_window_split(data, 0, a + b, c);
    lemma_window_split(data, 0, a, b);
    lemma_read_u32_window(data, 0, 12);
    lemma_read_u32_window(data, 4, ns.len() as u32);
    lemma_read_phxm_notes(data, 8, ns);
}

/// The information that a map's metadata gives back keeps the map's title,
/// mappers, artist, length, difficulty rank, rating and artist's links; the
/// difficulty comes back under the usual name of its rank, and the media and
/// counts come back empty.
pub proof fn metadata_info_roundtrip(m: MapModel, is_audio: bool, extension: Option<Seq<char>>)
    requires
        m.info.difficulty.0 <= 6,
        metadata_of(m, is_audio, extension) is Ok,
    ensures
        ({
            let info = info_of_metadata(metadata_of(m, is_audio, extension)->Ok_0);
            &&& info.title == m.info.title
            &&& info.mappers == m.info.mappers
            &&& info.artist == m.info.artist
            &&& info.length == m.info.length
            &&& info.difficulty == (m.info.difficulty.0, default_text(m.info.difficulty.0))
            &&& info.rating == m.info.rating
            &&& info.artist_link == m.info.artist_link
            &&& info.artist_platform == m.info.artist_platform
            &&& info.audio is None && info.cover is None && info.video is None
            &&& info.note_count == 0 && info.object_count == 0
        }),
{
}

/// Reading a PHXM archive that holds the entries written for a map gives the
/// map back (as [`phxm_read_back`] describes it), when the metadata says
/// which of audio and video the map has, the map has a cover exactly when it
/// has a video, and its note count is the number of its notes.
pub proof fn phxm_archive_read_back(m: MapModel, meta: MetaModel, json: Seq<u8>, archive: Seq<u8>)
    requires
        phxm_roundtrip_ok(m, meta, json),
        forall|i: int|
            0 <= i < phxm_entries_of(m, meta, json).len() ==> #[trigger] zip_entry(
                archive,
                phxm_entries_of(m, meta, json)[i].0,
            ) == Some(phxm_entries_of(m, meta, json)[i].1),
    ensures
        phxm_decode(archive, meta) == Ok::<MapModel, MapError>(phxm_read_back(m, meta)),
{
    let es = phxm_entries_of(m, meta, json);
    let e0 = seq![("metadata.json"@, json)];
    let e1: Seq<(Seq<char>, Seq<u8>)> = match m.info.audio {
        Some(a) => seq![(audio_entry_name(meta.audio_ext), a)],
        None => Seq::empty(),
    };
    let e2: Seq<(Seq<char>, Seq<u8>)> = match m.info.cover {
        Some(c) => seq![("cover.png"@, c)],
        None => Seq::empty(),
    };
    let e3: Seq<(Seq<char>, Seq<u8>)> = match m.info.video {
        Some(v) => seq![("video.mp4"@, v)],
        None => Seq::empty(),
    };
    let image = phxm_objects_image(m.info.note_count, m.notes);
    let e4 = seq![("objects.phxmo"@, image)];
    assert(es == e0 + e1 + e2 + e3 + e4);
    let last = es.len() - 1;
    assert(es[last] == ("objects.phxmo"@, image));
    assert(zip_entry(archive, es[last].0) == Some(es[last].1));
    if m.info.audio is Some {
        assert(es[1] == e1[0]);
        assert(zip_entry(archive, es[1].0) == Some(es[1].1));
    }
    if m.info.cover is Some {
        let i: int = (1 + e1.len()) as int;
        assert(es[i] == e2[0]);
        assert(zip_entry(archive, es[i].0) == Some(es[i].1));
    }
    if m.info.video is Some {
        let i: int = (1 + e1.len() + e2.len()) as int;
        assert(es[i] == e3[0]);
        assert(zip_entry(archive, es[i].0) == Some(es[i].1));
    }
    phxm_objects_roundtrip(m.notes);
}

/// The metadata made of a map describes it: the map's id, title, artist,
/// mappers, length, difficulty rank and name, rating and artist's links,
/// and which of audio, video and cover data it has; it fails, with
/// `InvalidAudio`, exactly when the map has audio that was not recognised
/// as audio, and the audio extension is the one detected, or empty when
/// there is no audio or none was found.
pub proof fn metadata_describes_map(m: MapModel, is_audio: bool, extension: Option<Seq<char>>)
    ensures
        (metadata_of(m, is_audio, extension) is Err) == (m.info.audio is Some && !is_audio),
        metadata_of(m, is_audio, extension) is Err ==> metadata_of(m, is_audio, extension)
            == Err::<MetaModel, MapError>(MapError::InvalidAudio),
        metadata_of(m, is_audio, extension) matches Ok(meta) ==> {
            &&& meta.id == m.id
            &&& meta.title == m.info.title
            &&& meta.artist == m.info.artist
            &&& meta.mappers == m.info.mappers
            &&& meta.length == m.info.length
            &&& meta.difficulty == m.info.difficulty.0
            &&& meta.difficulty_name == m.info.difficulty.1
            &&& meta.rating == m.info.rating
            &&& meta.artist_link == m.info.artist_link
            &&& meta.artist_platform == m.info.artist_platform
            &&& meta.has_audio == (m.info.audio is Some)
            &&& meta.has_video == (m.info.video is Some)
            &&& meta.has_cover == (m.info.cover is Some)
            &&& meta.audio_ext == (if m.info.audio is Some && extension is Some {
                extension->Some_0
            } else {
                Seq::<char>::empty()
            })
        },
{
}

} // verus!
