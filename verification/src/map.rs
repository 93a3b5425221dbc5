//! Maps and their descriptive information.
use crate::objects::{DefinitionModel, Note, ObjectDefinition};
use vstd::prelude::*;

verus! {

/// The file format a map was read from.
#[derive(Debug, Clone, Copy, PartialEq, Eq, Default)]
pub enum MapFormat {
    PHXM,
    #[default]
    SSPM,
}

/// The format whose files end in the extension `ext`: "sspm" or "phxm".
pub open spec fn format_of_extension(ext: Seq<char>) -> Option<MapFormat> {
    if ext == "sspm"@ {
        Some(MapFormat::SSPM)
    } else if ext == "phxm"@ {
        Some(MapFormat::PHXM)
    } else {
        None
    }
}

impl MapFormat {
    /// The format whose files end in the extension `ext`, if any.
    pub fn from_extension(ext: &str) -> (r: Option<MapFormat>)
        ensures
            r == format_of_extension(ext@),
    {
        let e = String::from_str(ext);
        if e == String::from_str("sspm") {
            Some(MapFormat::SSPM)
        } else if e == String::from_str("phxm") {
            Some(MapFormat::PHXM)
        } else {
            None
        }
    }
}

/// Facts about a map that are not part of its content.
#[derive(Debug, Clone, Copy, PartialEq, Eq, Default)]
pub struct MapMetadata {
    pub format: MapFormat,
}

/// The difficulty of a map: a rank, and the name shown for it.
#[derive(Debug, Clone)]
pub enum DifficultyName {
    Unrated(String),
    Easy(String),
    Medium(String),
    Hard(String),
    Expert(String),
    Insane(String),
    Illogical(String),
}

/// The name that goes with difficulty rank `rank` when no other is given.
pub open spec fn default_text(rank: u8) -> Seq<char> {
    if rank == 1 {
        "Easy"@
    } else if rank == 2 {
        "Medium"@
    } else if rank == 3 {
        "Hard"@
    } else if rank == 4 {
        "Expert"@
    } else if rank == 5 {
        "Insane"@
    } else if rank == 6 {
        "Illogical"@
    } else {
        "N/A"@
    }
}

impl View for DifficultyName {
    type V = (u8, Seq<char>);

    /// The rank and the name.
    open spec fn view(&self) -> (u8, Seq<char>) {
        (self.rank(), self.text())
    }
}

impl DifficultyName {
    /// The rank: 0 for `Unrated` up to 6 for `Illogical`.
    pub open spec fn rank(&self) -> u8 {
        match self {
            DifficultyName::Unrated(_) => 0,
            DifficultyName::Easy(_) => 1,
            DifficultyName::Medium(_) => 2,
            DifficultyName::Hard(_) => 3,
            DifficultyName::Expert(_) => 4,
            DifficultyName::Insane(_) => 5,
            DifficultyName::Illogical(_) => 6,
        }
    }

    /// The name shown for the difficulty.
    pub open spec fn text(&self) -> Seq<char> {
        match self {
            DifficultyName::Unrated(s) => s@,
            DifficultyName::Easy(s) => s@,
            DifficultyName::Medium(s) => s@,
            DifficultyName::Hard(s) => s@,
            DifficultyName::Expert(s) => s@,
            DifficultyName::Insane(s) => s@,
            DifficultyName::Illogical(s) => s@,
        }
    }

    /// The difficulty of rank `rank` under its usual name: rank 0 is `Unrated`
    /// ("N/A") up to rank 6, `Illogical`; other ranks have none.
    pub fn from_u8(value: u8) -> (r: Option<Self>)
        ensures
            match r {
                Some(d) => value <= 6 && d@ == (value, default_text(value)),
                None => value > 6,
            },
    {
        match value {
            0 => Some(DifficultyName::Unrated(String::from_str("N/A"))),
            1 => Some(DifficultyName::Easy(String::from_str("Easy"))),
            2 => Some(DifficultyName::Medium(String::from_str("Medium"))),
            3 => Some(DifficultyName::Hard(String::from_str("Hard"))),
            4 => Some(DifficultyName::Expert(String::from_str("Expert"))),
            5 => Some(DifficultyName::Insane(String::from_str("Insane"))),
            6 => Some(DifficultyName::Illogical(String::from_str("Illogical"))),
            _ => None,
        }
    }

    /// The difficulty of rank `value` under its usual name, or `Unrated` ("N/A")
    /// when the rank is unknown.
    pub fn from_u8_or_default(value: u8) -> (d: Self)
        ensures
            d@ == (if value <= 6 {
                (value, default_text(value))
            } else {
                (0u8, "N/A"@)
            }),
    {
        match Self::from_u8(value) {
            Some(d) => d,
            None => Self::default(),
        }
    }

    /// The rank.
    pub fn to_u8(&self) -> (r: u8)
        ensures
            r == self.rank(),
    {
        match self {
            DifficultyName::Unrated(_) => 0,
            DifficultyName::Easy(_) => 1,
            DifficultyName::Medium(_) => 2,
            DifficultyName::Hard(_) => 3,
            DifficultyName::Expert(_) => 4,
            DifficultyName::Insane(_) => 5,
            DifficultyName::Illogical(_) => 6,
        }
    }

    /// The name.
    pub fn get_value(&self) -> (r: String)
        ensures
            r@ == self.text(),
    {
        match self {
            DifficultyName::Unrated(s) => s.clone(),
            DifficultyName::Easy(s) => s.clone(),
            DifficultyName::Medium(s) => s.clone(),
            DifficultyName::Hard(s) => s.clone(),
            DifficultyName::Expert(s) => s.clone(),
            DifficultyName::Insane(s) => s.clone(),
            DifficultyName::Illogical(s) => s.clone(),
        }
    }

    /// Whether the name is the usual name of the rank.
    pub fn is_default(&self) -> (r: bool)
        ensures
            r == (self.text() == default_text(self.rank())),
    {
        match self {
            DifficultyName::Unrated(s) => *s == String::from_str("N/A"),
            DifficultyName::Easy(s) => *s == String::from_str("Easy"),
            DifficultyName::Medium(s) => *s == String::from_str("Medium"),
            DifficultyName::Hard(s) => *s == String::from_str("Hard"),
            DifficultyName::Expert(s) => *s == String::from_str("Expert"),
            DifficultyName::Insane(s) => *s == String::from_str("Insane"),
            DifficultyName::Illogical(s) => *s == String::from_str("Illogical"),
        }
    }

    /// Replaces the name, keeping the rank.
    pub fn set_value(&mut self, value: String)
        ensures
            final(self)@ == (old(self).rank(), value@),
    {
        match self {
            DifficultyName::Unrated(s) => {
                *s = value;
            },
            DifficultyName::Easy(s) => {
                *s = value;
            },
            DifficultyName::Medium(s) => {
                *s = value;
            },
            DifficultyName::Hard(s) => {
                *s = value;
            },
            DifficultyName::Expert(s) => {
                *s = value;
            },
            DifficultyName::Insane(s) => {
                *s = value;
            },
            DifficultyName::Illogical(s) => {
                *s = value;
            },
        }
    }
}

impl Default for DifficultyName {
    /// Rank 0 under the name "N/A".
    fn default() -> (d: Self)
        ensures
            d@ == (0u8, "N/A"@),
    {
        DifficultyName::Unrated(String::from_str("N/A"))
    }
}

/// The view of an optional buffer.
pub open spec fn opt_bytes(b: Option<Vec<u8>>) -> Option<Seq<u8>> {
    match b {
        Some(v) => Some(v@),
        None => None,
    }
}

/// The view of an optional string.
pub open spec fn opt_text(s: Option<String>) -> Option<Seq<char>> {
    match s {
        Some(v) => Some(v@),
        None => None,
    }
}

/// The views of a list of strings.
pub open spec fn texts(v: Seq<String>) -> Seq<Seq<char>> {
    v.map_values(|s: String| s@)
}

/// Descriptive information about a map.
///
/// `rating` holds the IEEE-754 bit pattern of an `f32`.
#[derive(Debug, Clone, Default)]
pub struct MapInfo {
    pub title: String,
    pub mappers: Vec<String>,
    pub artist: String,
    pub length: u32,
    pub difficulty_name: DifficultyName,
    pub audio_buf: Option<Vec<u8>>,
    pub cover_buf: Option<Vec<u8>>,
    pub video_buf: Option<Vec<u8>>,
    pub note_count: u32,
    pub object_count: u32,
    pub rating: u32,
    pub artist_link: Option<String>,
    pub artist_platform: Option<String>,
}

/// The value of a [`MapInfo`].
pub struct InfoModel {
    pub title: Seq<char>,
    pub mappers: Seq<Seq<char>>,
    pub artist: Seq<char>,
    pub length: u32,
    pub difficulty: (u8, Seq<char>),
    pub audio: Option<Seq<u8>>,
    pub cover: Option<Seq<u8>>,
    pub video: Option<Seq<u8>>,
    pub note_count: u32,
    pub object_count: u32,
    pub rating: u32,
    pub artist_link: Option<Seq<char>>,
    pub artist_platform: Option<Seq<char>>,
}

impl View for MapInfo {
    type V = InfoModel;

    open spec fn view(&self) -> InfoModel {
        InfoModel {
            title: self.title@,
            mappers: texts(self.mappers@),
            artist: self.artist@,
            length: self.length,
            difficulty: self.difficulty_name@,
            audio: opt_bytes(self.audio_buf),
            cover: opt_bytes(self.cover_buf),
            video: opt_bytes(self.video_buf),
            note_count: self.note_count,
            object_count: self.object_count,
            rating: self.rating,
            artist_link: opt_text(self.artist_link),
            artist_platform: opt_text(self.artist_platform),
        }
    }
}

/// The objects of a map: its notes, and every other object as it was defined.
#[derive(Debug, Default)]
pub struct MapObjects {
    pub notes: Vec<Note>,
    pub undefined: Vec<ObjectDefinition>,
}

/// A playable map.
#[derive(Debug, Default)]
pub struct BeatMap {
    pub id: String,
    pub info: MapInfo,
    pub metadata: MapMetadata,
    pub objects: MapObjects,
}

/// The value of a [`BeatMap`].
pub struct MapModel {
    pub id: Seq<char>,
    pub info: InfoModel,
    pub format: MapFormat,
    pub notes: Seq<Note>,
    pub undefined: Seq<DefinitionModel>,
}

impl View for BeatMap {
    type V = MapModel;

    open spec fn view(&self) -> MapModel {
        MapModel {
            id: self.id@,
            info: self.info@,
            format: self.metadata.format,
            notes: self.objects.notes@,
            undefined: self.objects.undefined@.map_values(|d: ObjectDefinition| d@),
        }
    }
}

/// The view of the outcome of reading a map.
pub open spec fn map_result(r: Result<BeatMap, crate::error::MapError>) -> Result<
    MapModel,
    crate::error::MapError,
> {
    match r {
        Ok(m) => Ok(m@),
        Err(e) => Err(e),
    }
}

/// A set of maps under one id.
#[derive(Debug, Default)]
pub struct MapSet {
    pub id: String,
    pub maps: Vec<BeatMap>,
}

/// A map without its objects.
#[derive(Debug, Default)]
pub struct PartialMap {
    pub id: String,
    pub info: MapInfo,
    pub metadata: MapMetadata,
}

} // verus!
