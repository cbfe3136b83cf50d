//! The record data model: the parsed play-history entry, its mathematical
//! model, and the error values that parsing and correction can surface.

use vstd::prelude::*;

verus! {

/// Whether a track was fully played or abandoned.
#[derive(Clone, Copy, PartialEq, Eq, Structural, Debug)]
pub enum Rating {
    Listened,
    Skipped,
}

/// One parsed play-history entry.
///
/// A record is immutable once constructed: correction returns a new value
/// rather than mutating in place.  The timestamp is kept as the Unix epoch
/// seconds integer read from the wire, so it round-trips without loss.
#[derive(Debug)]
pub struct Record {
    pub artist: String,
    pub album: String,
    pub track: String,
    /// Absent when the wire field is empty.
    pub track_position: Option<u32>,
    pub duration_seconds: u32,
    pub rating: Rating,
    /// Unix epoch seconds.
    pub timestamp: i64,
    /// The trailing remainder of the line; absent when empty or missing.
    pub track_id: Option<String>,
}

/// Mathematical model of a record: each text field as a sequence of
/// characters, the other fields as themselves.
#[verifier::ext_equal]
pub struct RecordModel {
    pub artist: Seq<char>,
    pub album: Seq<char>,
    pub track: Seq<char>,
    pub track_position: Option<u32>,
    pub duration_seconds: u32,
    pub rating: Rating,
    pub timestamp: i64,
    pub track_id: Option<Seq<char>>,
}

impl View for Record {
    type V = RecordModel;

    open spec fn view(&self) -> RecordModel {
        RecordModel {
            artist: self.artist@,
            album: self.album@,
            track: self.track@,
            track_position: self.track_position,
            duration_seconds: self.duration_seconds,
            rating: self.rating,
            timestamp: self.timestamp,
            track_id: match self.track_id {
                Option::None => Option::None,
                Option::Some(s) => Option::Some(s@),
            },
        }
    }
}

/// Why a line failed to parse; each variant carries the offending raw text.
#[derive(Debug)]
pub enum ParseError {
    /// Fewer than the seven mandatory tab-delimited fields were found;
    /// carries the unconsumed remainder of the line.
    TruncatedRecord(String),
    InvalidTrackPosition(String),
    InvalidDuration(String),
    InvalidRating(String),
    InvalidTimestamp(String),
}

/// Mathematical model of a parse error.
#[verifier::ext_equal]
pub enum ParseErrorModel {
    TruncatedRecord(Seq<char>),
    InvalidTrackPosition(Seq<char>),
    InvalidDuration(Seq<char>),
    InvalidRating(Seq<char>),
    InvalidTimestamp(Seq<char>),
}

impl View for ParseError {
    type V = ParseErrorModel;

    open spec fn view(&self) -> ParseErrorModel {
        match self {
            ParseError::TruncatedRecord(s) => ParseErrorModel::TruncatedRecord(s@),
            ParseError::InvalidTrackPosition(s) => ParseErrorModel::InvalidTrackPosition(s@),
            ParseError::InvalidDuration(s) => ParseErrorModel::InvalidDuration(s@),
            ParseError::InvalidRating(s) => ParseErrorModel::InvalidRating(s@),
            ParseError::InvalidTimestamp(s) => ParseErrorModel::InvalidTimestamp(s@),
        }
    }
}

/// Why a correction failed.
#[derive(Clone, Copy, PartialEq, Eq, Structural, Debug)]
pub enum CorrectionError {
    /// The day-offset addition would leave the representable instant range.
    OffsetOverflow,
}

/// True when no character of `s` is a tab.
pub open spec fn has_no_tab(s: Seq<char>) -> bool {
    forall|i: int| 0 <= i < s.len() ==> s[i] != '\t'
}

/// The record shapes that parsing can produce: fields that the wire format
/// delimits with tabs hold no tab themselves, and an absent track id is
/// `None`, never an empty text.
pub open spec fn wf_record(r: RecordModel) -> bool {
    &&& has_no_tab(r.artist)
    &&& has_no_tab(r.album)
    &&& has_no_tab(r.track)
    &&& (r.track_id matches Some(id) ==> id.len() > 0)
}

} // verus!
