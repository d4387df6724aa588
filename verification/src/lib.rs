//! Downloading a prefix of an object store as one streamed ZIP archive.
//!
//! The library decides and computes; it performs no I/O. [`handler`] takes a request through its
//! checks to a response, [`produce`] walks the listing of the prefix, and [`zip_stream`] copies
//! each object into its archive entry. [`query`], [`names`] and [`response`] hold the rules that
//! these follow.

pub mod error;
pub mod handler;
pub mod names;
pub mod produce;
pub mod query;
pub mod response;
pub mod text;
pub mod zip_stream;
