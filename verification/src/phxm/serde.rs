//! Reading and writing PHXM maps.
use crate::codec::{encode_u32, u32_le};
use crate::error::MapError;
use crate::io::{read_u32_at, BinaryReader};
use crate::map::{
    default_text, opt_bytes, opt_text, texts, BeatMap, DifficultyName, InfoModel, MapFormat,
    MapInfo, MapMetadata, MapModel, MapObjects, map_result,
};
use crate::objects::{DefinitionModel, Note, ObjectDefinition};
use crate::sspm::serde::{lemma_notes_v1_error_stays, notes_v1_at, vec2_bytes};
use crate::types::StoredVec2;
use vstd::prelude::*;
use vstd::utf8::{encode_utf8, is_ascii_chars, is_ascii_chars_encode_utf8};

verus! {

/// The PHXM codec.
pub struct PHXMSerde;

/// The metadata of a PHXM archive, as its "metadata.json" holds it.
///
/// `rating` holds the IEEE-754 bit pattern of an `f32`.
#[derive(Debug, Clone)]
pub struct PHXMMetadata {
    pub id: String,
    pub length: u32,
    pub title: String,
    pub artist: String,
    pub mappers: Vec<String>,
    pub difficulty: u8,
    pub difficulty_name: String,
    pub has_audio: bool,
    pub audio_ext: String,
    pub has_video: bool,
    pub has_cover: bool,
    pub rating: u32,
    pub artist_link: Option<String>,
    pub artist_platform: Option<String>,
}

/// The value of a [`PHXMMetadata`].
pub struct MetaModel {
    pub id: Seq<char>,
    pub length: u32,
    pub title: Seq<char>,
    pub artist: Seq<char>,
    pub mappers: Seq<Seq<char>>,
    pub difficulty: u8,
    pub difficulty_name: Seq<char>,
    pub has_audio: bool,
    pub audio_ext: Seq<char>,
    pub has_video: bool,
    pub has_cover: bool,
    pub rating: u32,
    pub artist_link: Option<Seq<char>>,
    pub artist_platform: Option<Seq<char>>,
}

impl View for PHXMMetadata {
    type V = MetaModel;

    open spec fn view(&self) -> MetaModel {
        MetaModel {
            id: self.id@,
            length: self.length,
            title: self.title@,
            artist: self.artist@,
            mappers: texts(self.mappers@),
            difficulty: self.difficulty,
            difficulty_name: self.difficulty_name@,
            has_audio: self.has_audio,
            audio_ext: self.audio_ext@,
            has_video: self.has_video,
            has_cover: self.has_cover,
            rating: self.rating,
            artist_link: opt_text(self.artist_link),
            artist_platform: opt_text(self.artist_platform),
        }
    }
}

/// The information that metadata gives a map: its difficulty rank (an
/// unknown rank reads as "N/A") under its usual name, and no media or counts.
pub open spec fn info_of_metadata(meta: MetaModel) -> InfoModel {
    InfoModel {
        title: meta.title,
        mappers: meta.mappers,
        artist: meta.artist,
        length: meta.length,
        difficulty: if meta.difficulty <= 6 {
            (meta.difficulty, default_text(meta.difficulty))
        } else {
            (0u8, "N/A"@)
        },
        audio: None,
        cover: None,
        video: None,
        note_count: 0,
        object_count: 0,
        rating: meta.rating,
        artist_link: meta.artist_link,
        artist_platform: meta.artist_platform,
    }
}

/// Whether `infer` recognises `buf` as audio.
pub uninterp spec fn infer_is_audio(buf: Seq<u8>) -> bool;

/// The file extension of the type that `infer` finds first for `buf`, if any.
pub uninterp spec fn infer_extension(buf: Seq<u8>) -> Option<Seq<char>>;

/// `infer::is_audio`: whether the buffer matches one of infer's audio types.
#[verifier::external_body]
fn detect_audio(buf: &[u8]) -> (b: bool)
    ensures
        b == infer_is_audio(buf@),
{
    infer::is_audio(buf)
}

/// Whether `e` could be an extension that `infer` gives: one to six ASCII
/// letters and digits.
pub open spec fn infer_extension_text(e: Seq<char>) -> bool {
    &&& 1 <= e.len() <= 6
    &&& forall|i: int|
        0 <= i < e.len() ==> ('a' <= #[trigger] e[i] <= 'z') || ('A' <= e[i] <= 'Z') || ('0' <= e[i]
            <= '9')
}

/// `infer::get` and `Type::extension`: the extension of the first type that
/// infer's matchers find for the buffer, if any. The default `infer::Infer`
/// has only the types of its `MATCHER_MAP` (infer's map.rs), whose
/// extensions are literals of one to six ASCII letters and digits.
#[verifier::external_body]
fn detect_extension(buf: &[u8]) -> (r: Option<String>)
    ensures
        opt_text(r) == infer_extension(buf@),
        r matches Some(e) ==> infer_extension_text(e@),
{
    match infer::get(buf) {
        Some(t) => Some(t.extension().to_string()),
        None => None,
    }
}

/// The metadata of a map, given whether its audio was recognised as audio
/// and the extension detected for it: a map with unrecognised audio has
/// none; the extension is empty when there is no audio or none was found.
pub open spec fn metadata_of(m: MapModel, is_audio: bool, extension: Option<Seq<char>>) -> Result<
    MetaModel,
    MapError,
> {
    if m.info.audio is Some && !is_audio {
        Err(MapError::InvalidAudio)
    } else {
        Ok(
            MetaModel {
                id: m.id,
                length: m.info.length,
                title: m.info.title,
                artist: m.info.artist,
                mappers: m.info.mappers,
                difficulty: m.info.difficulty.0,
                difficulty_name: m.info.difficulty.1,
                has_audio: m.info.audio is Some,
                audio_ext: if m.info.audio is Some {
                    match extension {
                        Some(e) => e,
                        None => Seq::empty(),
                    }
                } else {
                    Seq::empty()
                },
                has_video: m.info.video is Some,
                has_cover: m.info.cover is Some,
                rating: m.info.rating,
                artist_link: m.info.artist_link,
                artist_platform: m.info.artist_platform,
            },
        )
    }
}

/// The metadata of a map, with its audio's kind and extension as `infer`
/// detects them.
pub open spec fn map_metadata(m: MapModel) -> Result<MetaModel, MapError> {
    match m.info.audio {
        Some(a) => metadata_of(m, infer_is_audio(a), infer_extension(a)),
        None => metadata_of(m, false, None),
    }
}

/// A copy of a list of strings.
fn copy_texts(v: &Vec<String>) -> (r: Vec<String>)
    ensures
        texts(r@) == texts(v@),
{
    let mut r: Vec<String> = Vec::new();
    let mut i: usize = 0;
    while i < v.len()
        invariant
            i <= v@.len(),
            texts(r@) == texts(v@.take(i as int)),
        decreases v@.len() - i,
    {
        let t = v[i].clone();
        proof {
            assert(texts(r@.push(t)) =~= texts(r@).push(t@));
            assert(texts(v@.take(i + 1)) =~= texts(v@.take(i as int)).push(v@[i as int]@));
        }
        r.push(t);
        i = i + 1;
    }
    proof {
        assert(v@.take(v@.len() as int) =~= v@);
    }
    r
}

/// A copy of an optional string.
fn copy_opt_text(s: &Option<String>) -> (r: Option<String>)
    ensures
        opt_text(r) == opt_text(*s),
{
    match s {
        Some(t) => Some(t.clone()),
        None => None,
    }
}

/// The view of the outcome of making metadata.
pub open spec fn meta_result(r: Result<PHXMMetadata, MapError>) -> Result<MetaModel, MapError> {
    match r {
        Ok(m) => Ok(m@),
        Err(e) => Err(e),
    }
}

impl PHXMMetadata {
    /// The information this metadata gives a map.
    pub fn to_map_info(self) -> (info: MapInfo)
        ensures
            info@ == info_of_metadata(self@),
    {
        MapInfo {
            title: self.title,
            mappers: self.mappers,
            artist: self.artist,
            length: self.length,
            difficulty_name: DifficultyName::from_u8_or_default(self.difficulty),
            audio_buf: None,
            cover_buf: None,
            video_buf: None,
            note_count: 0,
            object_count: 0,
            rating: self.rating,
            artist_link: self.artist_link,
            artist_platform: self.artist_platform,
        }
    }

    /// The metadata of `map`, given whether its audio was recognised as
    /// audio and the extension detected for it.
    pub fn from_map_detected(map: &BeatMap, is_audio: bool, extension: Option<String>) -> (r:
        Result<Self, MapError>)
        ensures
            meta_result(r) == metadata_of(map@, is_audio, opt_text(extension)),
    {
        let mut audio_ext = String::new();
        if map.info.audio_buf.is_some() {
            if !is_audio {
                return Err(MapError::InvalidAudio);
            }
            if let Some(e) = extension {
                audio_ext = e;
            }
        }
        let difficulty = map.info.difficulty_name.to_u8();
        let difficulty_name = map.info.difficulty_name.get_value();
        Ok(
            PHXMMetadata {
                id: map.id.clone(),
                title: map.info.title.clone(),
                mappers: copy_texts(&map.info.mappers),
                artist: map.info.artist.clone(),
                length: map.info.length,
                difficulty,
                difficulty_name,
                has_audio: map.info.audio_buf.is_some(),
                has_video: map.info.video_buf.is_some(),
                has_cover: map.info.cover_buf.is_some(),
                audio_ext,
                artist_link: copy_opt_text(&map.info.artist_link),
                artist_platform: copy_opt_text(&map.info.artist_platform),
                rating: map.info.rating,
            },
        )
    }

    /// The metadata of `map`, with its audio's kind and extension detected;
    /// the extension is empty or one that `infer` gives.
    pub fn of_map(map: &BeatMap) -> (r: Result<Self, MapError>)
        ensures
            meta_result(r) == map_metadata(map@),
            r matches Ok(meta) ==> meta.audio_ext@.len() == 0 || infer_extension_text(
                meta.audio_ext@,
            ),
    {
        let mut is_audio = false;
        let mut extension: Option<String> = None;
        if let Some(buf) = &map.info.audio_buf {
            is_audio = detect_audio(buf.as_slice());
            if is_audio {
                extension = detect_extension(buf.as_slice());
            }
        }
        Self::from_map_detected(map, is_audio, extension)
    }

    /// The metadata of `map`; audio data must be recognised as audio, and
    /// its extension is the one detected for it.
    pub fn from_map(map: BeatMap) -> (r: Result<Self, MapError>)
        ensures
            meta_result(r) == map_metadata(map@),
    {
        Self::of_map(&map)
    }
}

/// A note as a PHXM objects file stores it: its millisecond and position.
pub open spec fn phxm_note_bytes(n: Note) -> Seq<u8> {
    u32_le(n.millisecond) + vec2_bytes(n.position)
}

/// Notes as a PHXM objects file stores them, one after another.
pub open spec fn phxm_notes_bytes(ns: Seq<Note>) -> Seq<u8> {
    ns.map_values(|n: Note| phxm_note_bytes(n)).flatten()
}

/// The objects file written for a map: the number of object types (12),
/// the note count, the notes, and a zero count for each of the other eleven
/// object types.
pub open spec fn phxm_objects_image(note_count: u32, ns: Seq<Note>) -> Seq<u8> {
    u32_le(12) + u32_le(note_count) + phxm_notes_bytes(ns) + Seq::new(44, |i: int| 0u8)
}

/// The notes of a PHXM objects file: after the number of object types, the
/// note count, then each note's millisecond and position.
pub open spec fn phxm_objects_decode(data: Seq<u8>) -> Result<Seq<Note>, MapError> {
    let (p1, types) = read_u32_at(data, 0);
    match types {
        Err(e) => Err(e),
        Ok(_) => {
            let (p2, count) = read_u32_at(data, p1);
            match count {
                Err(e) => Err(e),
                Ok(count) => notes_v1_at(data, p2, count as nat).1,
            }
        },
    }
}

/// The view of the outcome of reading notes.
pub open spec fn notes_result(r: Result<Vec<Note>, MapError>) -> Result<Seq<Note>, MapError> {
    match r {
        Ok(v) => Ok(v@),
        Err(e) => Err(e),
    }
}

impl PHXMSerde {
    /// Reads the notes of a PHXM objects file.
    pub fn parse_objects(data: Vec<u8>) -> (r: Result<Vec<Note>, MapError>)
        ensures
            notes_result(r) == phxm_objects_decode(data@),
    {
        let mut reader = BinaryReader::new(data);
        let _type_count = reader.read_u32()?;
        let note_count = reader.read_u32()?;
        let ghost d = reader.source();
        let ghost start = reader.offset();
        let mut notes: Vec<Note> = Vec::new();
        let mut i: u32 = 0;
        assert(phxm_objects_decode(data@) == notes_v1_at(d, start, note_count as nat).1);
        while i < note_count
            invariant
                reader.source() == d,
                phxm_objects_decode(data@) == notes_v1_at(d, start, note_count as nat).1,
                i <= note_count,
                (reader.offset(), Ok::<Seq<Note>, MapError>(notes@)) == notes_v1_at(
                    d,
                    start,
                    i as nat,
                ),
            decreases note_count - i,
        {
            let ms = match reader.read_u32() {
                Ok(ms) => ms,
                Err(e) => {
                    proof {
                        lemma_notes_v1_error_stays(d, start, (i + 1) as nat, note_count as nat);
                    }
                    return Err(e);
                },
            };
            let pos = match reader.read_vec2() {
                Ok(p) => p,
                Err(e) => {
                    proof {
                        lemma_notes_v1_error_stays(d, start, (i + 1) as nat, note_count as nat);
                    }
                    return Err(e);
                },
            };
            notes.push(Note { millisecond: ms, position: pos });
            i = i + 1;
        }
        Ok(notes)
    }

    /// Whether the objects file of a map with the notes `notes` fits in
    /// memory, as [`PHXMSerde::encode_objects`] and
    /// [`PHXMSerde::encode_phxm`] need.
    pub fn objects_fit(note_count: u32, notes: &Vec<Note>) -> (r: bool)
        ensures
            r == (phxm_objects_image(note_count, notes@).len() <= isize::MAX),
    {
        let ghost ns = notes@;
        let cap: u128 = isize::MAX as u128 - 52;
        let n = notes.len();
        let mut total: u128 = 0;
        let mut j: usize = 0;
        proof {
            assert(ns.take(0) =~= Seq::<Note>::empty());
            assert(phxm_notes_bytes(Seq::<Note>::empty()) =~= Seq::<u8>::empty());
            assert(phxm_objects_image(note_count, ns).len() == 52 + phxm_notes_bytes(ns).len());
        }
        while j < n
            invariant
                n == ns.len(),
                ns == notes@,
                j <= n,
                cap == isize::MAX - 52,
                total == phxm_notes_bytes(ns.take(j as int)).len(),
                total <= cap,
            decreases n - j,
        {
            proof {
                assert(ns.take(j + 1) =~= ns.take(j as int).push(ns[j as int]));
                assert(ns.take(j + 1).map_values(|x: Note| phxm_note_bytes(x)) =~= ns.take(
                    j as int,
                ).map_values(|x: Note| phxm_note_bytes(x)).push(phxm_note_bytes(ns[j as int])));
                ns.take(j as int).map_values(|x: Note| phxm_note_bytes(x)).lemma_flatten_push(
                    phxm_note_bytes(ns[j as int]),
                );
            }
            let size: u128 = match notes[j].position {
                StoredVec2::Quantum(_, _) => 13,
                StoredVec2::Grid(_, _) => 7,
            };
            total = total + size;
            j = j + 1;
            if total > cap {
                proof {
                    lemma_phxm_notes_prefix_len(ns, j as int);
                }
                return false;
            }
        }
        proof {
            assert(ns.take(n as int) =~= ns);
        }
        true
    }

    /// Writes the objects file of a map with `note_count` notes `notes`.
    pub fn encode_objects(note_count: u32, notes: &Vec<Note>) -> (b: Vec<u8>)
        requires
            phxm_objects_image(note_count, notes@).len() <= isize::MAX,
        ensures
            b@ == phxm_objects_image(note_count, notes@),
    {
        let mut out: Vec<u8> = Vec::new();
        let e = encode_u32(12);
        out.extend_from_slice(&e);
        let e = encode_u32(note_count);
        out.extend_from_slice(&e);
        let ghost before = out@;
        let n = notes.len();
        let mut i: usize = 0;
        proof {
            assert(notes@.take(0) =~= Seq::<Note>::empty());
            assert(phxm_notes_bytes(Seq::<Note>::empty()) =~= Seq::<u8>::empty());
            assert(out@ =~= before + phxm_notes_bytes(notes@.take(0)));
        }
        while i < n
            invariant
                n == notes@.len(),
                i <= n,
                out@ == before + phxm_notes_bytes(notes@.take(i as int)),
            decreases n - i,
        {
            let note = notes[i];
            proof {
                let ns = notes@;
                assert(ns.take(i + 1) =~= ns.take(i as int).push(ns[i as int]));
                ns.take(i as int).map_values(|x: Note| phxm_note_bytes(x)).lemma_flatten_push(
                    phxm_note_bytes(ns[i as int]),
                );
                assert(ns.take(i + 1).map_values(|x: Note| phxm_note_bytes(x)) =~= ns.take(
                    i as int,
                ).map_values(|x: Note| phxm_note_bytes(x)).push(phxm_note_bytes(ns[i as int])));
            }
            let ms = encode_u32(note.millisecond);
            out.extend_from_slice(&ms);
            match note.position {
                StoredVec2::Quantum(x, y) => {
                    out.push(1);
                    let xb = encode_u32(x);
                    out.extend_from_slice(&xb);
                    let yb = encode_u32(y);
                    out.extend_from_slice(&yb);
                },
                StoredVec2::Grid(x, y) => {
                    out.push(0);
                    out.push(x);
                    out.push(y);
                },
            }
            proof {
                assert(out@ =~= before + phxm_notes_bytes(notes@.take(i + 1)));
            }
            i = i + 1;
        }
        proof {
            assert(notes@.take(n as int) =~= notes@);
        }
        let zeros = [0u8; 44];
        out.extend_from_slice(&zeros);
        proof {
            assert(out@ =~= phxm_objects_image(note_count, notes@));
        }
        out
    }
}

/// What `zip` reads for the entry `name` of the archive held in `archive`,
/// or nothing when the archive or the entry cannot be read.
pub uninterp spec fn zip_entry(archive: Seq<u8>, name: Seq<char>) -> Option<Seq<u8>>;

/// `zip::ZipArchive::new`, `ZipArchive::by_name` and `Read::read_to_end` on
/// the entry: the bytes of the entry `name` of the archive held in `archive`.
/// Every failure of the archive becomes `MapError::Archive`.
#[verifier::external_body]
fn read_zip_entry(archive: &[u8], name: &str) -> (r: Result<Vec<u8>, MapError>)
    ensures
        match r {
            Ok(b) => zip_entry(archive@, name@) == Some(b@),
            Err(e) => e == MapError::Archive && zip_entry(archive@, name@) is None,
        },
{
    let mut zip = match zip::ZipArchive::new(std::io::Cursor::new(archive)) {
        Ok(z) => z,
        Err(_) => return Err(MapError::Archive),
    };
    let mut file = match zip.by_name(name) {
        Ok(f) => f,
        Err(_) => return Err(MapError::Archive),
    };
    let mut out = Vec::new();
    match std::io::Read::read_to_end(&mut file, &mut out) {
        Ok(_) => Ok(out),
        Err(_) => Err(MapError::Archive),
    }
}

/// A zip archive being written into memory.
#[verifier::external_body]
pub struct ArchiveWriter {
    inner: zip::ZipWriter<std::io::Cursor<Vec<u8>>>,
}

/// The entries started so far in an archive writer, in order: each entry's
/// name and the bytes written into it.
pub uninterp spec fn archive_entries(w: ArchiveWriter) -> Seq<(Seq<char>, Seq<u8>)>;

/// Whether every entry started in the writer `w` is stored without
/// compression.
pub uninterp spec fn all_stored(w: ArchiveWriter) -> bool;

/// Whether the entry started last in the writer `w` still receives what is
/// written.
pub uninterp spec fn entry_open(w: ArchiveWriter) -> bool;

/// The bytes of the archive that finishing the writer `w` gives.
pub uninterp spec fn finished_archive(w: ArchiveWriter) -> Seq<u8>;

/// Whether an entry stays within what a zip archive holds without its
/// 64-bit extensions: its name takes fewer than 65000 bytes of UTF-8 and it
/// holds fewer than 2^32 - 1 bytes.
pub open spec fn plain_zip_entry(e: (Seq<char>, Seq<u8>)) -> bool {
    encode_utf8(e.0).len() < 65000 && e.1.len() < 0xFFFF_FFFF
}

/// Whether every entry stays within what a zip archive holds without its
/// 64-bit extensions.
pub open spec fn plain_zip_entries(es: Seq<(Seq<char>, Seq<u8>)>) -> bool {
    forall|i: int| 0 <= i < es.len() ==> #[trigger] plain_zip_entry(es[i])
}

/// Whether an entry of `es` is named `name`.
pub open spec fn has_entry(es: Seq<(Seq<char>, Seq<u8>)>, name: Seq<char>) -> bool {
    exists|i: int| 0 <= i < es.len() && #[trigger] es[i].0 == name
}

/// `zip::ZipWriter::new` over an empty in-memory buffer: a writer with no
/// entries and none open.
#[verifier::external_body]
fn zip_writer() -> (w: ArchiveWriter)
    ensures
        archive_entries(w) == Seq::<(Seq<char>, Seq<u8>)>::empty(),
        all_stored(w),
        !entry_open(w),
{
    ArchiveWriter { inner: zip::ZipWriter::new(std::io::Cursor::new(Vec::new())) }
}

/// `ZipWriter::start_file`: closes the open entry and starts an entry named
/// `name`, stored without compression, which then receives what is written.
/// It succeeds when the entries so far stay within the limits of a zip
/// archive without 64-bit extensions, no entry has the name, and the name is
/// short enough. Every failure becomes `MapError::Archive`.
#[verifier::external_body]
fn zip_start_file(w: &mut ArchiveWriter, name: &str) -> (r: Result<(), MapError>)
    ensures
        match r {
            Ok(()) => {
                &&& archive_entries(*final(w)) == archive_entries(*old(w)).push(
                    (name@, Seq::<u8>::empty()),
                )
                &&& all_stored(*final(w)) == all_stored(*old(w))
                &&& entry_open(*final(w))
            },
            Err(e) => e == MapError::Archive,
        },
        plain_zip_entries(archive_entries(*old(w))) && !has_entry(archive_entries(*old(w)), name@)
            && encode_utf8(name@).len() < 65000 ==> r is Ok,
{
    let options = zip::write::SimpleFileOptions::default().compression_method(
        zip::CompressionMethod::Stored,
    );
    match w.inner.start_file(name, options) {
        Ok(()) => Ok(()),
        Err(_) => Err(MapError::Archive),
    }
}

/// `Write::write_all` on a `ZipWriter`: appends all of `data` to the entry
/// started last; writing nothing changes nothing. It succeeds when an entry
/// is open and stays under 2^32 - 1 bytes. Every failure becomes
/// `MapError::Archive`.
#[verifier::external_body]
fn zip_write(w: &mut ArchiveWriter, data: &[u8]) -> (r: Result<(), MapError>)
    ensures
        match r {
            Ok(()) => {
                let es = archive_entries(*old(w));
                &&& all_stored(*final(w)) == all_stored(*old(w))
                &&& entry_open(*final(w)) == entry_open(*old(w))
                &&& if data@.len() == 0 {
                    archive_entries(*final(w)) == es
                } else {
                    &&& es.len() > 0
                    &&& archive_entries(*final(w)) == es.drop_last().push(
                        (es.last().0, es.last().1 + data@),
                    )
                }
            },
            Err(e) => e == MapError::Archive,
        },
        entry_open(*old(w)) && archive_entries(*old(w)).len() > 0 && archive_entries(
            *old(w),
        ).last().1.len() + data@.len() < 0xFFFF_FFFF ==> r is Ok,
{
    match std::io::Write::write_all(&mut w.inner, data) {
        Ok(()) => Ok(()),
        Err(_) => Err(MapError::Archive),
    }
}

/// Whether a name is one that a zip archive gives back as it was written:
/// not empty, and without '/', '\\' or NUL.
pub open spec fn simple_zip_name(n: Seq<char>) -> bool {
    &&& n.len() > 0
    &&& forall|i: int| 0 <= i < n.len() ==> #[trigger] n[i] != '/' && n[i] != '\\' && n[i] != '\0'
}

/// Whether reading entries back from their archive is plain: fewer than
/// 65535 stored entries, with different simple names, within the limits of
/// a zip archive without 64-bit extensions.
pub open spec fn readable_entries(es: Seq<(Seq<char>, Seq<u8>)>) -> bool {
    &&& es.len() < 65535
    &&& distinct_names(es)
    &&& plain_zip_entries(es)
    &&& forall|i: int| 0 <= i < es.len() ==> #[trigger] simple_zip_name(es[i].0)
}

/// `ZipWriter::finish`: closes the archive and gives its bytes. It succeeds
/// when the entries stay within the limits of a zip archive without 64-bit
/// extensions. Every failure becomes `MapError::Archive`. Reading an entry
/// back from the bytes (`ZipArchive::new`, `by_name`, `read_to_end`, as the
/// examples of `ZipWriter::finish_into_readable` and `merge_archive` do)
/// gives what was written into it, for stored entries with different simple
/// names.
#[verifier::external_body]
fn zip_finish(w: ArchiveWriter) -> (r: Result<Vec<u8>, MapError>)
    ensures
        match r {
            Ok(b) => {
                &&& b@ == finished_archive(w)
                &&& all_stored(w) && readable_entries(archive_entries(w)) ==> forall|i: int|
                    0 <= i < archive_entries(w).len() ==> #[trigger] zip_entry(
                        b@,
                        archive_entries(w)[i].0,
                    ) == Some(archive_entries(w)[i].1)
            },
            Err(e) => e == MapError::Archive,
        },
        plain_zip_entries(archive_entries(w)) ==> r is Ok,
{
    match w.inner.finish() {
        Ok(c) => Ok(c.into_inner()),
        Err(_) => Err(MapError::Archive),
    }
}

/// The bytes of a prefix of a list of notes are no more than those of all.
pub proof fn lemma_phxm_notes_prefix_len(ns: Seq<Note>, i: int)
    requires
        0 <= i <= ns.len(),
    ensures
        phxm_notes_bytes(ns.take(i)).len() <= phxm_notes_bytes(ns).len(),
    decreases ns.len() - i,
{
    if i < ns.len() {
        lemma_phxm_notes_prefix_len(ns, i + 1);
        let f = |x: Note| phxm_note_bytes(x);
        assert(ns.take(i + 1) =~= ns.take(i).push(ns[i]));
        assert(ns.take(i + 1).map_values(f) =~= ns.take(i).map_values(f).push(phxm_note_bytes(ns[i])));
        ns.take(i).map_values(f).lemma_flatten_push(phxm_note_bytes(ns[i]));
    } else {
        assert(ns.take(i) =~= ns);
    }
}

/// The map that the parts of a PHXM archive make: its metadata, its cover,
/// audio and video, and the notes of its objects file.
pub open spec fn phxm_map(
    meta: MetaModel,
    cover: Option<Seq<u8>>,
    audio: Option<Seq<u8>>,
    video: Option<Seq<u8>>,
    objects: Seq<u8>,
) -> Result<MapModel, MapError> {
    match phxm_objects_decode(objects) {
        Err(e) => Err(e),
        Ok(notes) => Ok(
            MapModel {
                id: meta.id,
                info: InfoModel {
                    audio,
                    cover,
                    video,
                    ..info_of_metadata(meta)
                },
                format: MapFormat::PHXM,
                notes,
                undefined: Seq::empty(),
            },
        ),
    }
}

/// The entry of `archive` named `name`, read when `wanted`.
pub open spec fn entry_if(archive: Seq<u8>, wanted: bool, name: Seq<char>) -> Result<
    Option<Seq<u8>>,
    MapError,
> {
    if wanted {
        match zip_entry(archive, name) {
            Some(b) => Ok(Some(b)),
            None => Err(MapError::Archive),
        }
    } else {
        Ok(None)
    }
}

/// The map of a PHXM archive with metadata `meta`: the cover is read from
/// "cover.png" when the metadata says the map has a video, the audio from
/// "audio." and the audio extension, the video from "video.mp4", and the
/// notes from "objects.phxmo".
pub open spec fn phxm_decode(archive: Seq<u8>, meta: MetaModel) -> Result<MapModel, MapError> {
    match entry_if(archive, meta.has_video, "cover.png"@) {
        Err(e) => Err(e),
        Ok(cover) => match entry_if(archive, meta.has_audio, "audio."@ + meta.audio_ext) {
            Err(e) => Err(e),
            Ok(audio) => match entry_if(archive, meta.has_video, "video.mp4"@) {
                Err(e) => Err(e),
                Ok(video) => match zip_entry(archive, "objects.phxmo"@) {
                    None => Err(MapError::Archive),
                    Some(objects) => phxm_map(meta, cover, audio, video, objects),
                },
            },
        },
    }
}

/// The view of the outcome of reading an optional entry.
pub open spec fn entry_result(r: Result<Option<Vec<u8>>, MapError>) -> Result<
    Option<Seq<u8>>,
    MapError,
> {
    match r {
        Ok(b) => Ok(opt_bytes(b)),
        Err(e) => Err(e),
    }
}

/// The name of the audio entry: "audio." and the extension.
pub open spec fn audio_entry_name(ext: Seq<char>) -> Seq<char> {
    "audio."@ + ext
}

/// The entries of the PHXM archive of a map: its metadata as JSON, its
/// audio, cover and video when it has them, and its objects file.
pub open spec fn phxm_entries_of(m: MapModel, meta: MetaModel, json: Seq<u8>) -> Seq<
    (Seq<char>, Seq<u8>),
> {
    seq![("metadata.json"@, json)] + (match m.info.audio {
        Some(a) => seq![(audio_entry_name(meta.audio_ext), a)],
        None => Seq::empty(),
    }) + (match m.info.cover {
        Some(c) => seq![("cover.png"@, c)],
        None => Seq::empty(),
    }) + (match m.info.video {
        Some(v) => seq![("video.mp4"@, v)],
        None => Seq::empty(),
    }) + seq![("objects.phxmo"@, phxm_objects_image(m.info.note_count, m.notes))]
}

/// The views of archive entries.
pub open spec fn entry_views(v: Seq<(String, Vec<u8>)>) -> Seq<(Seq<char>, Seq<u8>)> {
    v.map_values(|e: (String, Vec<u8>)| (e.0@, e.1@))
}

/// A copy of a buffer.
fn copy_bytes(v: &Vec<u8>) -> (r: Vec<u8>)
    ensures
        r@ == v@,
{
    let r = v.clone();
    assert(r@ =~= v@);
    r
}

impl PHXMSerde {
    /// The bytes of the "metadata.json" entry of a PHXM archive.
    pub fn metadata_bytes(archive: &[u8]) -> (r: Result<Vec<u8>, MapError>)
        ensures
            match r {
                Ok(b) => zip_entry(archive@, "metadata.json"@) == Some(b@),
                Err(e) => e == MapError::Archive && zip_entry(archive@, "metadata.json"@) is None,
            },
    {
        read_zip_entry(archive, "metadata.json")
    }

    /// The map that the parts of a PHXM archive make.
    pub fn map_from_parts(
        meta: PHXMMetadata,
        cover: Option<Vec<u8>>,
        audio: Option<Vec<u8>>,
        video: Option<Vec<u8>>,
        objects: Vec<u8>,
    ) -> (r: Result<BeatMap, MapError>)
        ensures
            map_result(r) == phxm_map(meta@, opt_bytes(cover), opt_bytes(audio), opt_bytes(video), objects@),
    {
        let notes = Self::parse_objects(objects)?;
        let id = meta.id.clone();
        let mut info = meta.to_map_info();
        info.cover_buf = cover;
        info.audio_buf = audio;
        info.video_buf = video;
        let undefined: Vec<ObjectDefinition> = Vec::new();
        proof {
            assert(undefined@.map_values(|d: ObjectDefinition| d@) =~= Seq::<DefinitionModel>::empty());
        }
        Ok(
            BeatMap {
                id,
                info,
                metadata: MapMetadata { format: MapFormat::PHXM },
                objects: MapObjects { notes, undefined },
            },
        )
    }

    /// Reads the entry `name` when `wanted`.
    fn entry_if(archive: &[u8], wanted: bool, name: &str) -> (r: Result<Option<Vec<u8>>, MapError>)
        ensures
            entry_result(r) == entry_if(archive@, wanted, name@),
    {
        if wanted {
            let b = read_zip_entry(archive, name)?;
            Ok(Some(b))
        } else {
            Ok(None)
        }
    }

    /// Reads the map of a PHXM archive whose metadata is `meta`.
    pub fn parse_phxm(archive: &[u8], meta: PHXMMetadata) -> (r: Result<BeatMap, MapError>)
        ensures
            map_result(r) == phxm_decode(archive@, meta@),
    {
        let cover = Self::entry_if(archive, meta.has_video, "cover.png")?;
        let mut audio_name = String::from_str("audio.");
        audio_name.append(meta.audio_ext.as_str());
        let audio = Self::entry_if(archive, meta.has_audio, audio_name.as_str())?;
        let video = Self::entry_if(archive, meta.has_video, "video.mp4")?;
        let objects = read_zip_entry(archive, "objects.phxmo")?;
        Self::map_from_parts(meta, cover, audio, video, objects)
    }

    /// The entries of the PHXM archive of `map`, given its metadata and the
    /// metadata's JSON text.
    pub fn phxm_entries(map: &BeatMap, meta: &PHXMMetadata, metadata_json: Vec<u8>) -> (r: Vec<
        (String, Vec<u8>),
    >)
        requires
            phxm_objects_image(map@.info.note_count, map@.notes).len() <= isize::MAX,
        ensures
            entry_views(r@) == phxm_entries_of(map@, meta@, metadata_json@),
    {
        let ghost m = map@;
        let mut entries: Vec<(String, Vec<u8>)> = Vec::new();
        let ghost json = metadata_json@;
        entries.push((String::from_str("metadata.json"), metadata_json));
        let ghost e0 = entry_views(entries@);
        proof {
            assert(e0 =~= seq![("metadata.json"@, json)]);
        }
        if let Some(buf) = &map.info.audio_buf {
            let mut name = String::from_str("audio.");
            name.append(meta.audio_ext.as_str());
            entries.push((name, copy_bytes(buf)));
        }
        let ghost e1 = entry_views(entries@);
        proof {
            assert(e1 =~= e0 + match m.info.audio {
                Some(a) => seq![(audio_entry_name(meta@.audio_ext), a)],
                None => Seq::empty(),
            });
        }
        if let Some(buf) = &map.info.cover_buf {
            entries.push((String::from_str("cover.png"), copy_bytes(buf)));
        }
        let ghost e2 = entry_views(entries@);
        proof {
            assert(e2 =~= e1 + match m.info.cover {
                Some(c) => seq![("cover.png"@, c)],
                None => Seq::empty(),
            });
        }
        if let Some(buf) = &map.info.video_buf {
            entries.push((String::from_str("video.mp4"), copy_bytes(buf)));
        }
        let ghost e3 = entry_views(entries@);
        proof {
            assert(e3 =~= e2 + match m.info.video {
                Some(v) => seq![("video.mp4"@, v)],
                None => Seq::empty(),
            });
        }
        let objects = Self::encode_objects(map.info.note_count, &map.objects.notes);
        entries.push((String::from_str("objects.phxmo"), objects));
        proof {
            assert(entry_views(entries@) =~= phxm_entries_of(m, meta@, json));
        }
        entries
    }

    /// Writes the PHXM archive of `map`, given the metadata that
    /// [`PHXMMetadata::of_map`] makes of it and that metadata's JSON text:
    /// fails as `of_map` does, else gives an archive finished from a writer
    /// that holds exactly the entries of [`PHXMSerde::phxm_entries`], in that
    /// order, each stored without compression. It succeeds whenever the
    /// metadata can be made and the entries stay within the limits of a zip
    /// archive without 64-bit extensions. Reading the archive back with that
    /// metadata gives the map back (as [`phxm_map_read_back`] says) when the
    /// map has a cover exactly when it has a video, its note count is the
    /// number of its notes, and no entry reaches 2^32 - 1 bytes.
    pub fn encode_phxm(map: &BeatMap, metadata_json: Vec<u8>) -> (r: Result<Vec<u8>, MapError>)
        requires
            phxm_objects_image(map@.info.note_count, map@.notes).len() <= isize::MAX,
        ensures
            match r {
                Ok(b) => map_metadata(map@) is Ok && exists|w: ArchiveWriter|
                    #![trigger finished_archive(w)]
                    archive_entries(w) == phxm_entries_of(
                        map@,
                        map_metadata(map@)->Ok_0,
                        metadata_json@,
                    ) && all_stored(w) && b@ == finished_archive(w),
                Err(e) => match map_metadata(map@) {
                    Err(e2) => e == e2,
                    Ok(_) => e == MapError::Archive,
                },
            },
            map_metadata(map@) matches Ok(meta) ==> (plain_zip_entries(
                phxm_entries_of(map@, meta, metadata_json@),
            ) ==> r is Ok),
            r matches Ok(b) ==> (phxm_write_ok(map@, metadata_json@) ==> phxm_decode(
                b@,
                map_metadata(map@)->Ok_0,
            ) == Ok::<MapModel, MapError>(phxm_map_read_back(map@))),
    {
        let ghost json = metadata_json@;
        let meta = PHXMMetadata::of_map(map)?;
        let r = Self::write_archive(map, &meta, metadata_json);
        proof {
            if r is Ok && phxm_write_ok(map@, json) {
                assert(map@.info.difficulty.0 <= 6);
                lemma_written_roundtrip_ok(map@, meta@, json);
            }
        }
        r
    }

    /// Writes the PHXM archive of `map`, given its metadata and the
    /// metadata's JSON text: an archive finished from a writer that holds
    /// exactly the entries of [`PHXMSerde::phxm_entries`], in that order,
    /// each stored without compression. It succeeds whenever those entries
    /// stay within the limits of a zip archive without 64-bit extensions.
    fn write_archive(map: &BeatMap, meta: &PHXMMetadata, metadata_json: Vec<u8>) -> (r: Result<
        Vec<u8>,
        MapError,
    >)
        requires
            phxm_objects_image(map@.info.note_count, map@.notes).len() <= isize::MAX,
        ensures
            match r {
                Ok(b) => exists|w: ArchiveWriter|
                    #![trigger finished_archive(w)]
                    archive_entries(w) == phxm_entries_of(map@, meta@, metadata_json@) && all_stored(
                        w,
                    ) && b@ == finished_archive(w),
                Err(e) => e == MapError::Archive,
            },
            plain_zip_entries(phxm_entries_of(map@, meta@, metadata_json@)) ==> r is Ok,
            r matches Ok(b) ==> (phxm_roundtrip_ok(map@, meta@, metadata_json@) ==> phxm_decode(
                b@,
                meta@,
            ) == Ok::<MapModel, MapError>(phxm_read_back(map@, meta@))),
    {
        let ghost json = metadata_json@;
        let entries = Self::phxm_entries(map, meta, metadata_json);
        let ghost views = entry_views(entries@);
        proof {
            lemma_entry_names_distinct(map@, meta@, json);
        }
        let mut writer = zip_writer();
        let n = entries.len();
        let mut i: usize = 0;
        proof {
            assert(views.take(0) =~= Seq::<(Seq<char>, Seq<u8>)>::empty());
        }
        while i < n
            invariant
                n == entries@.len(),
                views == entry_views(entries@),
                views == phxm_entries_of(map@, meta@, json),
                json == metadata_json@,
                distinct_names(views),
                i <= n,
                archive_entries(writer) == views.take(i as int),
                all_stored(writer),
            decreases n - i,
        {
            proof {
                let es = views.take(i as int);
                assert(views[i as int] == (entries@[i as int].0@, entries@[i as int].1@));
                if has_entry(es, views[i as int].0) {
                    let k = choose|k: int| 0 <= k < es.len() && #[trigger] es[k].0 == views[i as int].0;
                    assert(es[k] == views[k]);
                    assert(views[k].0 == views[i as int].0);
                }
                assert(!has_entry(archive_entries(writer), entries@[i as int].0@));
                if plain_zip_entries(views) {
                    assert forall|k: int| 0 <= k < es.len() implies #[trigger] plain_zip_entry(
                        es[k],
                    ) by {
                        assert(es[k] == views[k]);
                        assert(plain_zip_entry(views[k]));
                    }
                    assert(plain_zip_entries(archive_entries(writer)));
                    assert(plain_zip_entry(views[i as int]));
                    assert(encode_utf8(entries@[i as int].0@).len() < 65000);
                    assert(entries@[i as int].1@.len() < 0xFFFF_FFFF);
                }
            }
            zip_start_file(&mut writer, entries[i].0.as_str())?;
            zip_write(&mut writer, entries[i].1.as_slice())?;
            proof {
                assert(views.take(i + 1) =~= views.take(i as int).push(views[i as int]));
                assert(Seq::<u8>::empty() + entries@[i as int].1@ =~= entries@[i as int].1@);
                if entries@[i as int].1@.len() == 0 {
                    assert(entries@[i as int].1@ =~= Seq::<u8>::empty());
                }
            }
            i = i + 1;
        }
        proof {
            assert(views.take(n as int) =~= views);
        }
        let ghost last = writer;
        let r = zip_finish(writer);
        proof {
            if r is Ok {
                assert(archive_entries(last) == phxm_entries_of(map@, meta@, json));
                if phxm_roundtrip_ok(map@, meta@, json) {
                    lemma_roundtrip_entries_readable(map@, meta@, json);
                    crate::phxm::laws::phxm_archive_read_back(
                        map@,
                        meta@,
                        json,
                        r->Ok_0@,
                    );
                }
            }
        }
        r
    }
}

/// When a PHXM archive written from a map reads back: its metadata says
/// which of audio and video the map has, the map has a cover exactly when it
/// has a video (the cover is read only with a video), its note count is the
/// number of its notes, its entries stay within the limits of a zip archive
/// without 64-bit extensions, and the audio extension is a simple name.
pub open spec fn phxm_roundtrip_ok(m: MapModel, meta: MetaModel, json: Seq<u8>) -> bool {
    &&& meta.has_audio == (m.info.audio is Some)
    &&& meta.has_video == (m.info.video is Some)
    &&& (m.info.cover is Some) == (m.info.video is Some)
    &&& m.info.note_count == m.notes.len()
    &&& plain_zip_entries(phxm_entries_of(m, meta, json))
    &&& forall|i: int| 0 <= i < meta.audio_ext.len() ==> #[trigger] meta.audio_ext[i] != '/'
        && meta.audio_ext[i] != '\\' && meta.audio_ext[i] != '\0'
}

/// When reading back the PHXM archive written from a map gives the map: it
/// has a cover exactly when it has a video (the cover is read only with a
/// video), its note count is the number of its notes, and no entry reaches
/// 2^32 - 1 bytes (the limit of a zip archive without 64-bit extensions).
pub open spec fn phxm_write_ok(m: MapModel, json: Seq<u8>) -> bool {
    &&& (m.info.cover is Some) == (m.info.video is Some)
    &&& m.info.note_count == m.notes.len()
    &&& json.len() < 0xFFFF_FFFF
    &&& media_bytes_len(m.info.audio) < 0xFFFF_FFFF
    &&& media_bytes_len(m.info.cover) < 0xFFFF_FFFF
    &&& media_bytes_len(m.info.video) < 0xFFFF_FFFF
    &&& phxm_objects_image(m.info.note_count, m.notes).len() < 0xFFFF_FFFF
}

/// The length of an optional buffer, zero when there is none.
pub open spec fn media_bytes_len(b: Option<Seq<u8>>) -> nat {
    match b {
        Some(b) => b.len(),
        None => 0,
    }
}

/// The map that reading back the PHXM archive written from `m` gives: its
/// id, title, mappers, artist, length, rating, artist's links, media and
/// notes; its difficulty under the usual name of its rank, and no counts.
pub open spec fn phxm_map_read_back(m: MapModel) -> MapModel {
    MapModel {
        id: m.id,
        info: InfoModel {
            title: m.info.title,
            mappers: m.info.mappers,
            artist: m.info.artist,
            length: m.info.length,
            difficulty: (m.info.difficulty.0, default_text(m.info.difficulty.0)),
            audio: m.info.audio,
            cover: m.info.cover,
            video: m.info.video,
            note_count: 0,
            object_count: 0,
            rating: m.info.rating,
            artist_link: m.info.artist_link,
            artist_platform: m.info.artist_platform,
        },
        format: MapFormat::PHXM,
        notes: m.notes,
        undefined: Seq::empty(),
    }
}

/// The metadata that [`PHXMMetadata::of_map`] makes of a map that
/// [`phxm_write_ok`] accepts lets the archive read back as the map.
pub proof fn lemma_written_roundtrip_ok(m: MapModel, meta: MetaModel, json: Seq<u8>)
    requires
        m.info.difficulty.0 <= 6,
        phxm_write_ok(m, json),
        map_metadata(m) == Ok::<MetaModel, MapError>(meta),
        meta.audio_ext.len() == 0 || infer_extension_text(meta.audio_ext),
    ensures
        phxm_roundtrip_ok(m, meta, json),
        phxm_read_back(m, meta) == phxm_map_read_back(m),
{
    reveal_strlit("metadata.json");
    reveal_strlit("audio.");
    reveal_strlit("cover.png");
    reveal_strlit("video.mp4");
    reveal_strlit("objects.phxmo");
    let an = audio_entry_name(meta.audio_ext);
    assert(is_ascii_chars(an)) by {
        assert forall|i: int| 0 <= i < an.len() implies '\0' <= #[trigger] an[i] <= '\u{7f}' by {
            if i >= 6 {
                assert(an[i] == meta.audio_ext[i - 6]);
            }
        }
    }
    is_ascii_chars_encode_utf8(an);
    assert(is_ascii_chars("metadata.json"@));
    is_ascii_chars_encode_utf8("metadata.json"@);
    assert(is_ascii_chars("cover.png"@));
    is_ascii_chars_encode_utf8("cover.png"@);
    assert(is_ascii_chars("video.mp4"@));
    is_ascii_chars_encode_utf8("video.mp4"@);
    assert(is_ascii_chars("objects.phxmo"@));
    is_ascii_chars_encode_utf8("objects.phxmo"@);
    let es = phxm_entries_of(m, meta, json);
    let e0 = seq![("metadata.json"@, json)];
    let e1: Seq<(Seq<char>, Seq<u8>)> = match m.info.audio {
        Some(a) => seq![(an, a)],
        None => Seq::empty(),
    };
    let e2: Seq<(Seq<char>, Seq<u8>)> = match m.info.cover {
        Some(c) => seq![("cover.png"@, c)],
        None => Seq::empty(),
    };
    let e3: Seq<(Seq<char>, Seq<u8>)> = match m.info.video {
        Some(v) => seq![("video.mp4"@, v)],
        None => Seq::empty(),
    };
    let e4 = seq![("objects.phxmo"@, phxm_objects_image(m.info.note_count, m.notes))];
    assert(es == e0 + e1 + e2 + e3 + e4);
    assert forall|i: int| 0 <= i < es.len() implies #[trigger] plain_zip_entry(es[i]) by {
        let names = set!["metadata.json"@, an, "cover.png"@, "video.mp4"@, "objects.phxmo"@];
        assert(names.contains(es[i].0));
    }
    assert forall|i: int| 0 <= i < meta.audio_ext.len() implies #[trigger] meta.audio_ext[i]
        != '/' && meta.audio_ext[i] != '\\' && meta.audio_ext[i] != '\0' by {
        assert(infer_extension_text(meta.audio_ext));
    }
    assert(phxm_read_back(m, meta).info =~= phxm_map_read_back(m).info);
}

/// The map that reading back the PHXM archive written from `m` with
/// metadata `meta` gives: its id and information come from the metadata (the
/// difficulty under the usual name of its rank, no counts), its media and
/// notes come back.
pub open spec fn phxm_read_back(m: MapModel, meta: MetaModel) -> MapModel {
    MapModel {
        id: meta.id,
        info: InfoModel {
            audio: m.info.audio,
            cover: m.info.cover,
            video: m.info.video,
            ..info_of_metadata(meta)
        },
        format: MapFormat::PHXM,
        notes: m.notes,
        undefined: Seq::empty(),
    }
}

/// The entries written for a map that reads back are readable.
pub proof fn lemma_roundtrip_entries_readable(m: MapModel, meta: MetaModel, json: Seq<u8>)
    requires
        phxm_roundtrip_ok(m, meta, json),
    ensures
        readable_entries(phxm_entries_of(m, meta, json)),
{
    reveal_strlit("metadata.json");
    reveal_strlit("audio.");
    reveal_strlit("cover.png");
    reveal_strlit("video.mp4");
    reveal_strlit("objects.phxmo");
    lemma_entry_names_distinct(m, meta, json);
    let es = phxm_entries_of(m, meta, json);
    assert(simple_zip_name("metadata.json"@));
    assert(simple_zip_name("cover.png"@));
    assert(simple_zip_name("video.mp4"@));
    assert(simple_zip_name("objects.phxmo"@));
    let an = audio_entry_name(meta.audio_ext);
    assert forall|i: int| 0 <= i < an.len() implies #[trigger] an[i] != '/' && an[i] != '\\'
        && an[i] != '\0' by {
        if i >= 6 {
            assert(an[i] == meta.audio_ext[i - 6]);
        }
    }
    assert(simple_zip_name(an));
    assert forall|i: int| 0 <= i < es.len() implies #[trigger] simple_zip_name(es[i].0) by {
        let e0 = seq![("metadata.json"@, json)];
        let e1: Seq<(Seq<char>, Seq<u8>)> = match m.info.audio {
            Some(a) => seq![(an, a)],
            None => Seq::empty(),
        };
        let e2: Seq<(Seq<char>, Seq<u8>)> = match m.info.cover {
            Some(c) => seq![("cover.png"@, c)],
            None => Seq::empty(),
        };
        let e3: Seq<(Seq<char>, Seq<u8>)> = match m.info.video {
            Some(v) => seq![("video.mp4"@, v)],
            None => Seq::empty(),
        };
        let e4 = seq![("objects.phxmo"@, phxm_objects_image(m.info.note_count, m.notes))];
        assert(es == e0 + e1 + e2 + e3 + e4);
        let names = set!["metadata.json"@, an, "cover.png"@, "video.mp4"@, "objects.phxmo"@];
        assert(names.contains(es[i].0));
    }
}

/// Whether no two entries of `es` have the same name.
pub open spec fn distinct_names(es: Seq<(Seq<char>, Seq<u8>)>) -> bool {
    forall|i: int, j: int| 0 <= i < j < es.len() ==> es[i].0 != es[j].0
}

/// Whether every name in `es` starts with one of the characters `cs`.
pub open spec fn names_start_in(es: Seq<(Seq<char>, Seq<u8>)>, cs: Set<char>) -> bool {
    forall|i: int| #![trigger es[i]] 0 <= i < es.len() ==> es[i].0.len() > 0 && cs.contains(es[i].0[0])
}

/// Entries whose names start with different characters have different names.
pub proof fn lemma_concat_distinct(
    a: Seq<(Seq<char>, Seq<u8>)>,
    b: Seq<(Seq<char>, Seq<u8>)>,
    ca: Set<char>,
    cb: Set<char>,
)
    requires
        distinct_names(a),
        distinct_names(b),
        names_start_in(a, ca),
        names_start_in(b, cb),
        ca.disjoint(cb),
    ensures
        distinct_names(a + b),
        names_start_in(a + b, ca + cb),
{
    assert forall|i: int, j: int| 0 <= i < j < (a + b).len() implies (a + b)[i].0 != (a
        + b)[j].0 by {
        if j >= a.len() && i < a.len() {
            assert((a + b)[i] == a[i]);
            assert((a + b)[j] == b[j - a.len()]);
            assert(ca.contains(a[i].0[0]));
            assert(cb.contains(b[j - a.len()].0[0]));
        } else if i >= a.len() {
            assert((a + b)[i] == b[i - a.len()]);
            assert((a + b)[j] == b[j - a.len()]);
        } else {
            assert((a + b)[i] == a[i]);
            assert((a + b)[j] == a[j]);
        }
    }
    assert forall|i: int| #![trigger (a + b)[i]] 0 <= i < (a + b).len() implies (a + b)[i].0.len() > 0 && (ca
        + cb).contains((a + b)[i].0[0]) by {
        if i < a.len() {
            assert((a + b)[i] == a[i]);
        } else {
            assert((a + b)[i] == b[i - a.len()]);
        }
    }
}

/// The entries of a PHXM archive have different names: they start with
/// different characters.
pub proof fn lemma_entry_names_distinct(m: MapModel, meta: MetaModel, json: Seq<u8>)
    ensures
        distinct_names(phxm_entries_of(m, meta, json)),
{
    reveal_strlit("metadata.json");
    reveal_strlit("audio.");
    reveal_strlit("cover.png");
    reveal_strlit("video.mp4");
    reveal_strlit("objects.phxmo");
    let e0 = seq![("metadata.json"@, json)];
    let e1: Seq<(Seq<char>, Seq<u8>)> = match m.info.audio {
        Some(a) => seq![(audio_entry_name(meta.audio_ext), a)],
        None => Seq::empty(),
    };
    let e2: Seq<(Seq<char>, Seq<u8>)> = match m.info.cover {
        Some(c) => seq![("cover.png"@, c)],
        None => Seq::empty(),
    };
    let e3: Seq<(Seq<char>, Seq<u8>)> = match m.info.video {
        Some(v) => seq![("video.mp4"@, v)],
        None => Seq::empty(),
    };
    let e4 = seq![("objects.phxmo"@, phxm_objects_image(m.info.note_count, m.notes))];
    let s0 = set!['m'];
    let s1 = set!['a'];
    let s2 = set!['c'];
    let s3 = set!['v'];
    let s4 = set!['o'];
    if m.info.audio is Some {
        assert((audio_entry_name(meta.audio_ext))[0] == 'a');
    }
    assert(names_start_in(e0, s0));
    assert(names_start_in(e1, s1));
    assert(names_start_in(e2, s2));
    assert(names_start_in(e3, s3));
    assert(names_start_in(e4, s4));
    lemma_concat_distinct(e0, e1, s0, s1);
    lemma_concat_distinct(e0 + e1, e2, s0 + s1, s2);
    lemma_concat_distinct(e0 + e1 + e2, e3, s0 + s1 + s2, s3);
    lemma_concat_distinct(e0 + e1 + e2 + e3, e4, s0 + s1 + s2 + s3, s4);
    assert(phxm_entries_of(m, meta, json) == e0 + e1 + e2 + e3 + e4);
}

} // verus!
