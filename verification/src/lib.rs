//! Core of a Japanese dictionary engine: typed dictionary records, the
//! builders that assemble them from parser events, and the conjugation engine
//! that derives inflected surface forms from an entry.
pub mod clipboard;
pub mod database;
pub mod entities;
pub mod inflection;
pub mod jmdict;
pub mod kana;
pub mod kanjidic2;
pub mod load;
pub mod number;
pub mod owned;
pub mod parser;
pub mod prompt;
pub mod query;
pub mod romaji;
pub mod service;
pub mod session;
pub mod text;
pub mod xml;

pub use self::entities::{PartOfSpeech, PosSet};
