//! Synchronizes bibliographic records and annotations from a reference
//! manager's database into a store of text notes: one note per document,
//! matched by an embedded reference tag, with only the generated section of
//! an existing note ever rewritten.

pub mod chars;
pub mod numbers;
pub mod dates;
pub mod model;
pub mod extract;
pub mod editor;
pub mod refs;
pub mod filename;
pub mod reconcile;
pub mod render;
