//! Byte-exact manipulation of ECMA-335 method bodies.
//!
//! This crate implements the IL-rewriting core of a managed-runtime profiler:
//! it parses a method's header, scans and rewrites its bytecode, extends its
//! local-variable signature, merges exception-handler tables, and assembles a
//! replacement method image that wraps the original body in a try/catch
//! scaffold invoking tracer callbacks.

use vstd::prelude::*;

pub mod builder;
pub mod codec;
pub mod eh;
pub mod filter;
pub mod header;
pub mod inject;
pub mod le;
pub mod locals;
pub mod matcher;
pub mod opcodes;
pub mod scanner;
pub mod signature;
pub mod strutil;
pub mod tokenizer;
pub mod validation;

verus! {

/// Error raised by the IL parsing, rewriting and emission routines.
#[derive(Debug, Clone)]
pub enum IlError {
    /// Invalid or corrupt IL header
    InvalidHeader(String),
    /// Value too large for compressed encoding
    CompressionOverflow(u32),
    /// Unexpected end of data
    UnexpectedEnd,
    /// Invalid exception clause format
    InvalidExceptionClause(String),
    /// Jump label referenced but never defined
    UndefinedLabel(String),
    /// Token resolution failure
    TokenResolutionFailed(String),
    /// Generic IL generation error
    GenerationError(String),
}

} // verus!
