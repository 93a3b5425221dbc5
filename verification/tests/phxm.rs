use squircle::error::MapError;
use squircle::map::{BeatMap, DifficultyName, MapFormat, MapInfo, MapMetadata, MapObjects};
use squircle::objects::Note;
use squircle::phxm::serde::PHXMMetadata;
use squircle::phxm::PHXMSerde;
use squircle::types::StoredVec2;

fn notes() -> Vec<Note> {
    vec![
        Note { millisecond: 1, position: StoredVec2::Grid(2, 0) },
        Note { millisecond: 2, position: StoredVec2::Quantum(0xBF00_0000, 0x3E80_0000) },
    ]
}

fn sample_map(audio: Option<Vec<u8>>) -> BeatMap {
    let mut d = DifficultyName::from_u8(2).unwrap();
    d.set_value(String::from("Medium+"));
    BeatMap {
        id: String::from("phx_id"),
        info: MapInfo {
            title: String::from("Song"),
            mappers: vec![String::from("dan")],
            artist: String::from("Artist"),
            length: 3000,
            difficulty_name: d,
            audio_buf: audio,
            cover_buf: Some(vec![0x89, 0x50]),
            video_buf: None,
            note_count: 2,
            object_count: 2,
            rating: 0x4000_0000,
            artist_link: Some(String::from("https://example.org")),
            artist_platform: None,
        },
        metadata: MapMetadata { format: MapFormat::PHXM },
        objects: MapObjects { notes: notes(), undefined: Vec::new() },
    }
}

fn metadata() -> PHXMMetadata {
    PHXMMetadata {
        id: String::from("phx_id"),
        length: 3000,
        title: String::from("Song"),
        artist: String::from("Artist"),
        mappers: vec![String::from("dan")],
        difficulty: 2,
        difficulty_name: String::from("Medium+"),
        has_audio: true,
        audio_ext: String::from("mp3"),
        has_video: false,
        has_cover: true,
        rating: 0x4000_0000,
        artist_link: None,
        artist_platform: None,
    }
}

fn mp3() -> Vec<u8> {
    let mut b = b"ID3".to_vec();
    b.extend_from_slice(&[3, 0, 0, 0, 0, 0, 0, 1, 2, 3, 4]);
    b
}

#[test]
fn the_objects_file_holds_the_notes_and_empty_lists() {
    let b = PHXMSerde::encode_objects(2, &notes());
    let mut expected = Vec::new();
    expected.extend_from_slice(&12u32.to_le_bytes());
    expected.extend_from_slice(&2u32.to_le_bytes());
    expected.extend_from_slice(&1u32.to_le_bytes());
    expected.extend_from_slice(&[0, 2, 0]);
    expected.extend_from_slice(&2u32.to_le_bytes());
    expected.push(1);
    expected.extend_from_slice(&0xBF00_0000u32.to_le_bytes());
    expected.extend_from_slice(&0x3E80_0000u32.to_le_bytes());
    expected.extend_from_slice(&[0u8; 44]);
    assert_eq!(b, expected);
}

#[test]
fn the_objects_file_reads_back() {
    let b = PHXMSerde::encode_objects(2, &notes());
    assert_eq!(PHXMSerde::parse_objects(b), Ok(notes()));
}

#[test]
fn a_short_objects_file_fails() {
    let mut b = PHXMSerde::encode_objects(2, &notes());
    b.truncate(12);
    assert_eq!(PHXMSerde::parse_objects(b), Err(MapError::UnexpectedEof));
    assert_eq!(PHXMSerde::parse_objects(vec![12, 0, 0]), Err(MapError::UnexpectedEof));
}

#[test]
fn metadata_describes_the_map() {
    let meta = PHXMMetadata::from_map_detected(&sample_map(Some(vec![1])), true, Some(String::from("ogg")))
        .unwrap();
    assert_eq!(meta.id, "phx_id");
    assert_eq!(meta.title, "Song");
    assert_eq!(meta.artist, "Artist");
    assert_eq!(meta.mappers, vec![String::from("dan")]);
    assert_eq!(meta.length, 3000);
    assert_eq!(meta.difficulty, 2);
    assert_eq!(meta.difficulty_name, "Medium+");
    assert!(meta.has_audio);
    assert_eq!(meta.audio_ext, "ogg");
    assert!(meta.has_cover);
    assert!(!meta.has_video);
    assert_eq!(meta.rating, 0x4000_0000);
    assert_eq!(meta.artist_link, Some(String::from("https://example.org")));
}

#[test]
fn audio_that_is_not_audio_is_refused() {
    let r = PHXMMetadata::from_map_detected(&sample_map(Some(vec![1])), false, None);
    assert_eq!(r.err(), Some(MapError::InvalidAudio));
    let r = PHXMMetadata::from_map(sample_map(Some(vec![0, 1, 2, 3])));
    assert_eq!(r.err(), Some(MapError::InvalidAudio));
}

#[test]
fn audio_without_a_known_extension_has_none() {
    let meta = PHXMMetadata::from_map_detected(&sample_map(Some(vec![1])), true, None).unwrap();
    assert_eq!(meta.audio_ext, "");
    let meta = PHXMMetadata::from_map_detected(&sample_map(None), false, Some(String::from("x")))
        .unwrap();
    assert!(!meta.has_audio);
    assert_eq!(meta.audio_ext, "");
}

#[test]
fn detected_audio_gets_its_extension() {
    let meta = PHXMMetadata::from_map(sample_map(Some(mp3()))).unwrap();
    assert!(meta.has_audio);
    assert_eq!(meta.audio_ext, "mp3");
}

#[test]
fn metadata_gives_a_map_its_information() {
    let mut meta = metadata();
    meta.difficulty = 9;
    let info = meta.to_map_info();
    assert_eq!(info.title, "Song");
    assert_eq!(info.length, 3000);
    assert_eq!(info.difficulty_name.to_u8(), 0);
    assert_eq!(info.difficulty_name.get_value(), "N/A");
    assert!(info.audio_buf.is_none());
    assert_eq!(info.note_count, 0);
    assert_eq!(info.rating, 0x4000_0000);
}

#[test]
fn the_archive_lists_its_entries_in_order() {
    let map = sample_map(Some(mp3()));
    let meta = metadata();
    let entries = PHXMSerde::phxm_entries(&map, &meta, b"{}".to_vec());
    let names: Vec<&str> = entries.iter().map(|e| e.0.as_str()).collect();
    assert_eq!(names, vec!["metadata.json", "audio.mp3", "cover.png", "objects.phxmo"]);
    assert_eq!(entries[0].1, b"{}".to_vec());
    assert_eq!(entries[1].1, mp3());
    assert_eq!(entries[2].1, vec![0x89, 0x50]);
    assert_eq!(entries[3].1, PHXMSerde::encode_objects(2, &notes()));
}

#[test]
fn an_archive_reads_back() {
    let map = sample_map(Some(mp3()));
    let meta = metadata();
    let archive = PHXMSerde::encode_phxm(&map, b"{\"ID\":\"phx_id\"}".to_vec()).unwrap();
    assert_eq!(PHXMSerde::metadata_bytes(&archive), Ok(b"{\"ID\":\"phx_id\"}".to_vec()));
    let m = PHXMSerde::parse_phxm(&archive, meta).unwrap();
    assert_eq!(m.id, "phx_id");
    assert_eq!(m.info.title, "Song");
    assert_eq!(m.info.artist, "Artist");
    assert_eq!(m.info.difficulty_name.get_value(), "Medium");
    assert_eq!(m.info.audio_buf, Some(mp3()));
    assert!(m.info.cover_buf.is_none());
    assert!(m.info.video_buf.is_none());
    assert_eq!(m.metadata.format, MapFormat::PHXM);
    assert_eq!(m.objects.notes, notes());
}

#[test]
fn the_cover_is_read_only_with_a_video() {
    let mut map = sample_map(None);
    map.info.video_buf = Some(vec![5, 5]);
    let mut meta = metadata();
    meta.has_audio = false;
    meta.has_video = true;
    let archive = PHXMSerde::encode_phxm(&map, b"{}".to_vec()).unwrap();
    let m = PHXMSerde::parse_phxm(&archive, meta).unwrap();
    assert_eq!(m.info.cover_buf, Some(vec![0x89, 0x50]));
    assert_eq!(m.info.video_buf, Some(vec![5, 5]));
}

#[test]
fn a_missing_entry_fails() {
    let map = sample_map(None);
    let mut meta = metadata();
    meta.has_audio = false;
    let archive = PHXMSerde::encode_phxm(&map, b"{}".to_vec()).unwrap();
    meta.has_audio = true;
    assert_eq!(PHXMSerde::parse_phxm(&archive, meta).err(), Some(MapError::Archive));
    assert_eq!(PHXMSerde::metadata_bytes(&[1, 2, 3]), Err(MapError::Archive));
}

#[test]
fn information_survives_metadata() {
    let meta = PHXMMetadata::from_map_detected(&sample_map(None), false, None).unwrap();
    let info = meta.to_map_info();
    assert_eq!(info.title, "Song");
    assert_eq!(info.mappers, vec![String::from("dan")]);
    assert_eq!(info.artist, "Artist");
    assert_eq!(info.length, 3000);
    assert_eq!(info.difficulty_name.to_u8(), 2);
    assert_eq!(info.difficulty_name.get_value(), "Medium");
    assert_eq!(info.rating, 0x4000_0000);
    assert_eq!(info.artist_link, Some(String::from("https://example.org")));
    assert!(info.cover_buf.is_none());
    assert_eq!(info.note_count, 0);
}

#[test]
fn a_written_archive_reads_back_whole() {
    let mut map = sample_map(Some(mp3()));
    map.info.video_buf = Some(vec![7, 7, 7, 7]);
    let mut meta = metadata();
    meta.has_video = true;
    let archive = PHXMSerde::encode_phxm(&map, b"{}".to_vec()).unwrap();
    let m = PHXMSerde::parse_phxm(&archive, meta).unwrap();
    assert_eq!(m.id, "phx_id");
    assert_eq!(m.info.audio_buf, Some(mp3()));
    assert_eq!(m.info.cover_buf, Some(vec![0x89, 0x50]));
    assert_eq!(m.info.video_buf, Some(vec![7, 7, 7, 7]));
    assert_eq!(m.info.difficulty_name.get_value(), "Medium");
    assert_eq!(m.info.rating, 0x4000_0000);
    assert_eq!(m.objects.notes, notes());
}

#[test]
fn an_archive_of_unrecognised_audio_is_refused() {
    let map = sample_map(Some(vec![0, 1, 2, 3]));
    assert_eq!(PHXMSerde::encode_phxm(&map, b"{}".to_vec()).err(), Some(MapError::InvalidAudio));
}

#[test]
fn the_archive_reads_back_with_its_own_metadata() {
    let mut map = sample_map(Some(mp3()));
    map.info.video_buf = Some(vec![1]);
    let meta = PHXMMetadata::of_map(&map).unwrap();
    assert_eq!(meta.audio_ext, "mp3");
    let archive = PHXMSerde::encode_phxm(&map, b"{}".to_vec()).unwrap();
    let m = PHXMSerde::parse_phxm(&archive, meta).unwrap();
    assert_eq!(m.info.title, "Song");
    assert_eq!(m.info.mappers, vec![String::from("dan")]);
    assert_eq!(m.info.audio_buf, Some(mp3()));
    assert_eq!(m.info.cover_buf, Some(vec![0x89, 0x50]));
    assert_eq!(m.info.video_buf, Some(vec![1]));
    assert_eq!(m.info.artist_link, Some(String::from("https://example.org")));
    assert_eq!(m.objects.notes, notes());
}

#[test]
fn a_small_objects_file_fits() {
    assert!(PHXMSerde::objects_fit(2, &notes()));
    assert!(PHXMSerde::objects_fit(0, &Vec::new()));
}
