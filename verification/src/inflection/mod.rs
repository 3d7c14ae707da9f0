//! Inflection features and the conjugation engine.
pub mod conjugate;
pub mod engine;
pub mod form;
pub mod godan;
pub mod laws;
pub mod rules;
pub mod table;

pub use self::conjugate::{
    conjugate, parts_of_speech, reading_permutations, surfaces, Reading, ReadingOption,
};
pub use self::engine::{inflect, Kind};
pub use self::form::{Form, Inflection};
pub use self::table::{InflectionTable, Inflections};
