//! Repair of a media player's play-history log.
//!
//! A device clock that reverted to a wrong epoch left a run of play records
//! with timestamps far in the past.  This library parses each tab-delimited
//! record line, shifts timestamps that fall before a fixed cutoff forward by
//! a fixed whole-day offset, and serializes records back to the wire format.

pub mod correct;
pub mod numeric;
pub mod parse;
pub mod props;
pub mod record;
pub mod serialize;

pub use correct::{correct, CUTOFF_TIMESTAMP, OFFSET_DAYS, OFFSET_SECONDS, SECONDS_PER_DAY};
pub use parse::parse;
pub use record::{CorrectionError, ParseError, Rating, Record};
pub use serialize::serialize;
