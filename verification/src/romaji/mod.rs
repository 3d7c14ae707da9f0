//! Transliteration of Latin letters into kana.
pub mod segment;
pub mod table;

pub use self::segment::{analyze, process_query, Segment};
