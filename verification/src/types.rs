use crate::text::{chars_of, lemma_split_nonempty, split_on, split_text};
use vstd::prelude::*;

verus! {

/// Why a vector literal could not be parsed.
#[derive(Debug, Clone, Copy, PartialEq, Eq)]
pub enum VectorErrorKind {
    Empty,
    Invalid,
    Radix,
}

/// The error of parsing a vector from text.
#[derive(Debug, Clone, Copy, PartialEq, Eq)]
pub struct ParseVectorError {
    kind: VectorErrorKind,
}

impl ParseVectorError {
    /// An error of the given kind.
    pub fn new(kind: VectorErrorKind) -> (e: Self)
        ensures
            e.kind() == kind,
    {
        ParseVectorError { kind }
    }

    /// The kind of this error.
    pub closed spec fn kind(&self) -> VectorErrorKind {
        self.kind
    }

    /// The kind of this error.
    pub fn get_kind(&self) -> (k: VectorErrorKind)
        ensures
            k == self.kind(),
    {
        self.kind
    }

    /// The text that describes this error.
    pub fn description(&self) -> (s: &'static str)
        ensures
            s@ == description_of(self.kind()),
    {
        match self.kind {
            VectorErrorKind::Empty => "cannot parse vector from empty string",
            VectorErrorKind::Invalid => "invalid vector literal",
            VectorErrorKind::Radix => "invalid radix literal",
        }
    }
}

/// The text that describes an error of kind `k`.
pub open spec fn description_of(k: VectorErrorKind) -> Seq<char> {
    match k {
        VectorErrorKind::Empty => "cannot parse vector from empty string"@,
        VectorErrorKind::Invalid => "invalid vector literal"@,
        VectorErrorKind::Radix => "invalid radix literal"@,
    }
}

/// The texts of the two components of a vector literal "x_y": the text
/// before the first '_' and the text after it, up to the next '_' if any.
/// A literal without '_' is invalid.
pub open spec fn vector_parts_of(s: Seq<char>) -> Result<(Seq<char>, Seq<char>), VectorErrorKind> {
    let pieces = split_on(s, "_"@);
    if pieces.len() < 2 {
        Err(VectorErrorKind::Invalid)
    } else {
        Ok((pieces[0], pieces[1]))
    }
}

/// Splits a vector literal "x_y" into the texts of its two components.
pub fn vector_parts(s: &str) -> (r: Result<(String, String), ParseVectorError>)
    ensures
        match r {
            Ok((x, y)) => vector_parts_of(s@) == Ok::<(Seq<char>, Seq<char>), VectorErrorKind>(
                (x@, y@),
            ),
            Err(e) => vector_parts_of(s@) == Err::<(Seq<char>, Seq<char>), VectorErrorKind>(
                e.kind(),
            ),
        },
{
    let chars = chars_of(s);
    let underscore = vec!['_'];
    proof {
        reveal_strlit("_");
        assert(underscore@ =~= "_"@);
        lemma_split_nonempty(s@, "_"@, 0);
    }
    let pieces = split_text(&chars, &underscore);
    if pieces.len() < 2 {
        return Err(ParseVectorError::new(VectorErrorKind::Invalid));
    }
    Ok((pieces[0].clone(), pieces[1].clone()))
}

/// A two-component position as a map file stores it.
///
/// `Quantum` positions hold the IEEE-754 bit patterns of two `f32` values;
/// `Grid` positions hold two bytes that address a cell of the grid.
#[derive(Debug, Clone, Copy, PartialEq, Eq)]
pub enum StoredVec2 {
    Quantum(u32, u32),
    Grid(u8, u8),
}

/// A three-component position as a map file stores it; see [`StoredVec2`].
#[derive(Debug, Clone, Copy, PartialEq, Eq)]
pub enum StoredVec3 {
    Quantum(u32, u32, u32),
    Grid(u8, u8, u8),
}

} // verus!
