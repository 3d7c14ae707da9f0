//! The index image: how a dictionary is laid out in bytes, written once
//! and read many times.
pub mod analyze;
pub mod blobs;
pub mod character_laws;
pub mod characters;
pub mod container;
pub mod index;
pub mod interner;
pub mod lookup;
pub mod laws;
pub mod model;
pub mod order;
pub mod phrases;
pub mod ranking;
pub mod records;
pub mod search;
pub mod store;
pub mod words;

pub use self::analyze::{analyze, identify, stretches, Segment};
pub use self::container::ImageError;
pub use self::index::Index;
pub use self::lookup::{search, Found};
pub use self::ranking::{by_key, EntryKey};
pub use self::search::{Hit, Match};
pub use self::store::{build, Store, StoreError};
