//! A document index over a directory tree: files carry a numeric identifier
//! in their names, and the index maps each identifier to the file that has it.
pub mod api;
pub mod fs;
pub mod indexing;
