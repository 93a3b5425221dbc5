use squircle::error::MapError;
use squircle::io::{BinaryReader, SeekFrom};
use squircle::map::{BeatMap, DifficultyName, MapFormat, MapInfo, MapMetadata, MapObjects};
use squircle::objects::{Note, ObjectDefinition, ObjectType};
use squircle::sspm::SSPMSerde;
use squircle::types::StoredVec2;

fn info(title: &str, difficulty: DifficultyName) -> MapInfo {
    MapInfo {
        title: String::from(title),
        mappers: vec![String::from("alice"), String::from("bob")],
        artist: String::new(),
        length: 4200,
        difficulty_name: difficulty,
        audio_buf: None,
        cover_buf: None,
        video_buf: None,
        note_count: 2,
        object_count: 2,
        rating: 0,
        artist_link: None,
        artist_platform: None,
    }
}

fn sample_map(title: &str, difficulty: DifficultyName) -> BeatMap {
    BeatMap {
        id: String::from("map_id"),
        info: info(title, difficulty),
        metadata: MapMetadata { format: MapFormat::SSPM },
        objects: MapObjects {
            notes: vec![
                Note { millisecond: 100, position: StoredVec2::Grid(0, 2) },
                Note {
                    millisecond: 250,
                    position: StoredVec2::Quantum(0x3FC0_0000, 0x3F00_0000),
                },
            ],
            undefined: Vec::new(),
        },
    }
}

fn read(bytes: Vec<u8>) -> Result<BeatMap, MapError> {
    SSPMSerde::read_sspm(BinaryReader::new(bytes))
}

fn push_string(out: &mut Vec<u8>, s: &str) {
    out.extend_from_slice(&(s.len() as u16).to_le_bytes());
    out.extend_from_slice(s.as_bytes());
}

#[test]
fn a_written_map_starts_with_its_header() {
    let bytes = SSPMSerde::write_sspm(&sample_map("Song", DifficultyName::from_u8(3).unwrap()), 0);
    assert_eq!(&bytes[0..6], b"SS+m\x02\x00");
    assert_eq!(&bytes[6..30], &[0u8; 24]);
    assert_eq!(&bytes[30..34], &4200u32.to_le_bytes());
    assert_eq!(&bytes[34..38], &2u32.to_le_bytes());
    assert_eq!(&bytes[38..42], &2u32.to_le_bytes());
    assert_eq!(bytes[42], 3);
    assert_eq!(&bytes[43..48], &[0, 0, 0, 0, 0]);
    let trailer = b"Squircle Util - 0.1.0";
    let n = bytes.len();
    assert_eq!(&bytes[n - trailer.len()..], trailer);
    assert_eq!(&bytes[n - trailer.len() - 2..n - trailer.len()], &[21, 0]);
}

#[test]
fn a_custom_difficulty_name_survives_writing_and_reading() {
    let mut d = DifficultyName::from_u8(3).unwrap();
    d.set_value(String::from("Tricky"));
    let bytes = SSPMSerde::write_sspm(&sample_map("Some Artist - Some Song", d), 0);
    let m = read(bytes).unwrap();
    assert_eq!(m.id, "map_id");
    assert_eq!(m.info.artist, "Some Artist");
    assert_eq!(m.info.title, "Some Song");
    assert_eq!(m.info.mappers, vec![String::from("alice"), String::from("bob")]);
    assert_eq!(m.info.length, 4200);
    assert_eq!(m.info.note_count, 2);
    assert_eq!(m.info.object_count, 2);
    assert_eq!(m.info.difficulty_name.to_u8(), 3);
    assert_eq!(m.info.difficulty_name.get_value(), "Tricky");
    assert!(m.info.audio_buf.is_none());
    assert!(m.info.cover_buf.is_none());
    assert_eq!(m.metadata.format, MapFormat::SSPM);
    assert_eq!(
        m.objects.notes,
        vec![
            Note { millisecond: 100, position: StoredVec2::Grid(0, 2) },
            Note { millisecond: 250, position: StoredVec2::Quantum(0x3FC0_0000, 0x3F00_0000) },
        ]
    );
    assert!(m.objects.undefined.is_empty());
}

#[test]
fn media_survive_writing_and_reading() {
    let mut map = sample_map("Title", DifficultyName::from_u8(5).unwrap());
    map.info.audio_buf = Some(vec![1, 2, 3, 4]);
    map.info.cover_buf = Some(vec![9, 8]);
    let m = read(SSPMSerde::write_sspm(&map, 0)).unwrap();
    assert_eq!(m.info.audio_buf, Some(vec![1, 2, 3, 4]));
    assert_eq!(m.info.cover_buf, Some(vec![9, 8]));
    assert_eq!(m.info.difficulty_name.get_value(), "Insane");
    assert_eq!(m.info.title, "Title");
    assert_eq!(m.info.artist, "Title");
    assert_eq!(m.objects.notes.len(), 2);
}

#[test]
fn a_usual_difficulty_name_without_media_is_not_read_back() {
    let bytes = SSPMSerde::write_sspm(&sample_map("Song", DifficultyName::from_u8(2).unwrap()), 0);
    assert_eq!(read(bytes).err(), Some(MapError::UnexpectedEof));
}

#[test]
fn rejects_a_wrong_signature() {
    assert_eq!(read(b"SSPM\x02\x00\x00\x00".to_vec()).err(), Some(MapError::IncorrectSignature));
}

#[test]
fn rejects_an_unknown_version() {
    assert_eq!(read(b"SS+m\x03\x00\x00\x00".to_vec()).err(), Some(MapError::UnsupportedVersion));
}

#[test]
fn rejects_a_short_file() {
    assert_eq!(read(b"SS+m".to_vec()).err(), Some(MapError::UnexpectedEof));
}

fn v1_file(difficulty: u8) -> Vec<u8> {
    let mut f = b"SS+m\x01\x00\x00\x00".to_vec();
    f.extend_from_slice(b"old_id\nOld Map\nann, & ben\n");
    f.extend_from_slice(&900u32.to_le_bytes());
    f.extend_from_slice(&2u32.to_le_bytes());
    f.push(difficulty);
    f.push(2);
    f.extend_from_slice(&3u64.to_le_bytes());
    f.extend_from_slice(&[7, 7, 7]);
    f.push(0);
    f.extend_from_slice(&10u32.to_le_bytes());
    f.extend_from_slice(&[0, 1, 2]);
    f.extend_from_slice(&20u32.to_le_bytes());
    f.push(1);
    f.extend_from_slice(&0x4000_0000u32.to_le_bytes());
    f.extend_from_slice(&0x3F80_0000u32.to_le_bytes());
    f
}

#[test]
fn reads_a_version_one_map() {
    let m = read(v1_file(4)).unwrap();
    assert_eq!(m.id, "old_id");
    assert_eq!(m.info.title, "Old Map");
    assert_eq!(m.info.artist, "");
    assert_eq!(m.info.mappers, vec![String::from("ann"), String::from("ben")]);
    assert_eq!(m.info.length, 900);
    assert_eq!(m.info.note_count, 2);
    assert_eq!(m.info.object_count, 2);
    assert_eq!(m.info.difficulty_name.to_u8(), 4);
    assert_eq!(m.info.difficulty_name.get_value(), "Expert");
    assert_eq!(m.info.cover_buf, Some(vec![7, 7, 7]));
    assert!(m.info.audio_buf.is_none());
    assert_eq!(
        m.objects.notes,
        vec![
            Note { millisecond: 10, position: StoredVec2::Grid(1, 2) },
            Note { millisecond: 20, position: StoredVec2::Quantum(0x4000_0000, 0x3F80_0000) },
        ]
    );
}

#[test]
fn a_version_one_map_with_an_unknown_rank_is_unrated() {
    let m = read(v1_file(42)).unwrap();
    assert_eq!(m.info.difficulty_name.to_u8(), 0);
    assert_eq!(m.info.difficulty_name.get_value(), "N/A");
}

#[test]
fn a_truncated_version_one_map_fails() {
    let mut f = v1_file(1);
    f.truncate(f.len() - 3);
    assert_eq!(read(f).err(), Some(MapError::UnexpectedEof));
}

/// A version 2 file with the given definitions section and objects.
fn v2_file(defs: &[u8], objects: &[u8]) -> Vec<u8> {
    let mut names = Vec::new();
    push_string(&mut names, "v2_id");
    push_string(&mut names, "Band - Tune - Remix");
    push_string(&mut names, "ignored");
    names.extend_from_slice(&1u16.to_le_bytes());
    push_string(&mut names, "carol");
    let custom_offset = 128 + names.len() as u64;
    let defs_offset = custom_offset + 2;
    let objects_offset = defs_offset + defs.len() as u64;

    let mut f = b"SS+m\x02\x00".to_vec();
    f.extend_from_slice(&[0u8; 24]);
    f.extend_from_slice(&77u32.to_le_bytes());
    f.extend_from_slice(&1u32.to_le_bytes());
    f.extend_from_slice(&2u32.to_le_bytes());
    f.push(6);
    f.extend_from_slice(&[0, 0, 0, 0, 0]);
    let table = [
        custom_offset,
        2,
        0,
        0,
        0,
        0,
        defs_offset,
        defs.len() as u64,
        objects_offset,
        objects.len() as u64,
    ];
    for v in table.iter() {
        f.extend_from_slice(&v.to_le_bytes());
    }
    assert_eq!(f.len(), 128);
    f.extend_from_slice(&names);
    f.extend_from_slice(&0u16.to_le_bytes());
    f.extend_from_slice(defs);
    f.extend_from_slice(objects);
    f
}

fn two_definitions() -> Vec<u8> {
    let mut defs = vec![2];
    push_string(&mut defs, "ssp_note");
    defs.extend_from_slice(&[1, 7, 0]);
    push_string(&mut defs, "marker");
    defs.extend_from_slice(&[2, 2, 9, 0]);
    defs
}

#[test]
fn keeps_objects_that_are_not_notes() {
    let mut objects = Vec::new();
    objects.extend_from_slice(&5u32.to_le_bytes());
    objects.extend_from_slice(&[0, 0, 2, 0]);
    objects.extend_from_slice(&6u32.to_le_bytes());
    objects.push(1);
    objects.extend_from_slice(&500u16.to_le_bytes());
    push_string(&mut objects, "hi");
    let m = read(v2_file(&two_definitions(), &objects)).unwrap();
    assert_eq!(m.id, "v2_id");
    assert_eq!(m.info.artist, "Band");
    assert_eq!(m.info.title, "Tune");
    assert_eq!(m.info.mappers, vec![String::from("carol")]);
    assert_eq!(m.info.length, 77);
    assert_eq!(m.info.difficulty_name.to_u8(), 6);
    assert_eq!(m.info.difficulty_name.get_value(), "Illogical");
    assert_eq!(m.objects.notes, vec![Note { millisecond: 5, position: StoredVec2::Grid(2, 0) }]);
    assert_eq!(m.objects.undefined.len(), 1);
    let o: &ObjectDefinition = &m.objects.undefined[0];
    assert_eq!(o.name, "marker");
    assert_eq!(o.millisecond, 6);
    assert_eq!(o.data.len(), 2);
    assert!(matches!(o.data[0], ObjectType::U16(Some(500))));
    assert!(matches!(&o.data[1], ObjectType::String(Some(s)) if s == "hi"));
}

#[test]
fn an_object_of_an_undeclared_definition_fails() {
    let mut objects = Vec::new();
    objects.extend_from_slice(&5u32.to_le_bytes());
    objects.push(4);
    assert_eq!(
        read(v2_file(&two_definitions(), &objects)).err(),
        Some(MapError::UnknownObjectDefinition)
    );
}

#[test]
fn a_definition_without_its_zero_byte_fails() {
    let mut defs = vec![1];
    push_string(&mut defs, "ssp_note");
    defs.extend_from_slice(&[1, 7, 5]);
    assert_eq!(read(v2_file(&defs, &[])).err(), Some(MapError::MissingDefinitionTerminator));
}

#[test]
fn an_unknown_type_tag_fails() {
    let mut defs = vec![1];
    push_string(&mut defs, "ssp_note");
    defs.extend_from_slice(&[1, 0x20, 0]);
    assert_eq!(read(v2_file(&defs, &[])).err(), Some(MapError::InvalidObjectType));
}

#[test]
fn a_note_without_a_position_fails() {
    let mut defs = vec![1];
    push_string(&mut defs, "ssp_note");
    defs.extend_from_slice(&[1, 1, 0]);
    let mut objects = Vec::new();
    objects.extend_from_slice(&5u32.to_le_bytes());
    objects.extend_from_slice(&[0, 3]);
    assert_eq!(read(v2_file(&defs, &objects)).err(), Some(MapError::InvalidNoteParams));
}

#[test]
fn sspm_type_tags() {
    assert!(matches!(ObjectType::from_sspm(0x01), Ok(ObjectType::U8(None))));
    assert!(matches!(ObjectType::from_sspm(0x05), Ok(ObjectType::F32(None))));
    assert!(matches!(ObjectType::from_sspm(0x07), Ok(ObjectType::Vec2(None))));
    assert!(matches!(ObjectType::from_sspm(0x0B), Ok(ObjectType::LongString(None))));
    assert!(matches!(ObjectType::from_sspm(0x0C), Ok(ObjectType::Vec(None))));
    assert!(matches!(ObjectType::from_sspm(0x00), Err(MapError::InvalidObjectType)));
    assert!(matches!(ObjectType::from_sspm(0x0D), Err(MapError::InvalidObjectType)));
}

fn read_at(bytes: Vec<u8>, start: u64) -> Result<BeatMap, MapError> {
    let mut r = BinaryReader::new(bytes);
    assert_eq!(r.seek(SeekFrom::Start(start)), Ok(start));
    SSPMSerde::read_sspm(r)
}

#[test]
fn a_map_written_inside_a_stream_reads_back_from_its_position() {
    let mut d = DifficultyName::from_u8(1).unwrap();
    d.set_value(String::from("Gentle"));
    let mut map = sample_map("A - B", d);
    map.info.cover_buf = Some(vec![4, 4, 4]);
    let prefix = vec![0xEE; 37];
    let file = SSPMSerde::write_sspm(&map, 37);
    let mut stream = prefix.clone();
    stream.extend_from_slice(&file);
    stream.extend_from_slice(&[0xAB; 5]);
    let m = read_at(stream, 37).unwrap();
    assert_eq!(m.info.artist, "A");
    assert_eq!(m.info.title, "B");
    assert_eq!(m.info.difficulty_name.get_value(), "Gentle");
    assert_eq!(m.info.cover_buf, Some(vec![4, 4, 4]));
    assert_eq!(m.objects.notes.len(), 2);
}

#[test]
fn offsets_are_positions_in_the_stream() {
    let map = sample_map("Song", DifficultyName::from_u8(3).unwrap());
    let at_zero = SSPMSerde::write_sspm(&map, 0);
    let at_ten = SSPMSerde::write_sspm(&map, 10);
    assert_eq!(at_zero.len(), at_ten.len());
    let field = |b: &Vec<u8>, at: usize| u64::from_le_bytes(b[at..at + 8].try_into().unwrap());
    assert_eq!(field(&at_zero, 48), 0);
    assert_eq!(field(&at_ten, 48), 0);
    assert_eq!(field(&at_ten, 64), field(&at_zero, 64) + 10);
    assert_eq!(field(&at_ten, 80), 0);
    assert_eq!(field(&at_ten, 112), field(&at_zero, 112) + 10);
    assert_eq!(field(&at_ten, 120), field(&at_zero, 120));
}

#[test]
fn a_version_one_map_reads_from_its_position() {
    let mut stream = vec![1, 2, 3];
    stream.extend_from_slice(&v1_file(4));
    let m = read_at(stream, 3).unwrap();
    assert_eq!(m.id, "old_id");
    assert_eq!(m.objects.notes.len(), 2);
    assert_eq!(read_at(vec![1, 2, 3], 1).err(), Some(MapError::UnexpectedEof));
}

#[test]
fn a_checked_write_gives_the_same_file() {
    let map = sample_map("Song", DifficultyName::from_u8(3).unwrap());
    assert_eq!(SSPMSerde::try_write_sspm(&map, 5), Some(SSPMSerde::write_sspm(&map, 5)));
    assert_eq!(SSPMSerde::try_write_sspm(&map, u64::MAX - 10), None);
}
