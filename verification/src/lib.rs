//! Core of an xargs-style argument injector.
//!
//! The library takes lines piped on standard input, merges each line into a
//! caller-supplied command template (by appending it or by substituting a
//! literal `{}` placeholder), and hands the resulting command strings out in
//! input order for execution. Reading stdin, running the commands and logging
//! live outside this crate; everything here is verified.

pub mod engine;
pub mod errors;
pub mod expand;
pub mod input;
pub mod template;
pub mod text;
