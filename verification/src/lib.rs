//! A logic-less Mustache-style template engine: templates are compiled once
//! into a flat sequence of blocks and can then be rendered repeatedly against
//! data values.

pub mod cmark;
pub mod content;
pub mod encoding;
pub mod error;
pub mod fnv;
pub mod laws;
pub mod template;
pub mod vartable;

pub use content::Content;
pub use content::Property;
pub use error::Error;
pub use fnv::hash;
pub use fnv::hash_name;
pub use template::Partials;
pub use template::Template;
