//! The character dictionary: its records and the builders that assemble
//! them.
pub mod builder;
pub mod character;
pub mod meaning;
pub mod reading;

pub use self::character::{Character, Meaning, ReadingMeaning};
pub use self::reading::Reading;
