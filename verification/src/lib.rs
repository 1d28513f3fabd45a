//! A small pipeline language and execution engine for repairing file names
//! whose characters were damaged by mismatched Unicode normalization forms
//! or mismatched byte encodings.
//!
//! The library is the pure core: parsing pipeline source text into stages,
//! validating the stage list, applying the stages to one file name at a
//! time, planning renames over a directory listing, and reading and writing
//! the rename log. All file system access stays with the caller.

pub mod text;
pub mod paths;
pub mod stages;
pub mod codec;
pub mod executor;
pub mod parser;
pub mod log;
pub mod runner;
