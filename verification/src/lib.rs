//! A verified parser for M3U8 master playlists.
//!
//! The parser turns the text of a master playlist into an [`M3U8`] value:
//! media tags, variant streams and media (I-frame) resources, each a record
//! of string attributes, plus the protocol version and the
//! independent-segments flag.

pub mod laws;
pub mod playlist;
pub mod record;
pub mod sort;
pub mod tags;
pub mod text;

pub use crate::playlist::{ParseError, M3U8};
pub use crate::record::AttributeRecord;
pub use crate::tags::TagTypes;
