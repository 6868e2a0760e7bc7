//! Host-side core of a tiny plugin system: plugin headers declare a name and
//! a scalar signature (`Str` / `U64` arguments and return); the host renders
//! glue source for an external toolchain, compiles it out of process, loads
//! the produced dynamic library and invokes its fixed entry point with a call
//! shape selected from the signature.
//!
//! This crate holds the verified logic: the signature model, the header
//! parser and renderer, the glue-source generators, the call-shape selection
//! and the error taxonomy. Process, file and foreign-function work lives in
//! the unverified binary around it.

pub mod dtype;
pub mod error;
pub mod header;
pub mod invoke;
pub mod platform;
pub mod source;
