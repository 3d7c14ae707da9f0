//! The vocabulary dictionary: its records and the builders that assemble
//! them. The dictionary of names has entries of the same make: what a
//! name stands for is taken as a sense, with the kind of name among its
//! tags on usage.
pub mod builder;
pub mod entry;
pub mod example_sentence;
pub mod kanji_element;
pub mod reading_element;
pub mod sense;

pub use self::entry::{Entry, KanjiElement, Priority, PriorityKind, ReadingElement, Sense};
pub use self::example_sentence::ExampleSentence;
