//! Collects the names of the environment variables that a source tree refers to.
//!
//! A walk over the tree is cut down to the files to search (`walk`), each file
//! is searched line by line for a pattern and the first group of each match is
//! taken as a name (`extract`), and the names of all files and patterns are
//! gathered into a set and written out, a line for each (`aggregate`, `scan`).
//! The patterns come from the caller or from a table of presets (`presets`).

pub mod aggregate;
pub mod engine;
pub mod extract;
pub mod laws;
pub mod presets;
pub mod scan;
pub mod text;
pub mod walk;
