//! The virtual filesystem: path-keyed entries, error taxonomy, and the
//! path-resolution and folder-creation protocol over the in-memory index.

pub mod entry;
pub mod errors;
pub mod fs;
