//! The stream parser: a pull reader that turns the bytes of a document
//! into its events.
pub mod expand;
pub mod reader;
pub mod scan;
pub mod stream;

pub use self::expand::{Chars, XmlError};
pub use self::reader::{Attribute, Item, Reader};
pub use self::stream::read_element;
