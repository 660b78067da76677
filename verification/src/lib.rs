//! Substitution of placeholder tokens by the contents of credential files.
//!
//! The library holds the verified core: an index from identifier to file
//! path, a compiled placeholder pattern, and the substitution engine that
//! scans a text, resolves each matched identifier, and splices the resolved
//! secret values into the output. Reading the input, listing the directory
//! and writing the output stay with the caller, which hands the library
//! plain byte strings.

pub mod assoc;
pub mod errors;
pub mod index;
pub mod pattern;
pub mod scan;
pub mod engine;
