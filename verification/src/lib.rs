//! An incremental, extendable-output tree hash engine.
//!
//! The engine splits its input into fixed-size chunks, compresses each chunk
//! with the BLAKE3 compression primitive, and merges the chunk outputs up a
//! binary tree to a root, from which an arbitrarily long, seekable output
//! stream is derived. The tree shape depends only on the total input length,
//! never on how the input was split across `update` calls or on how many
//! worker threads compressed chunks, so the digest is deterministic.
//!
//! The compression primitive itself (chunk compression, parent-node
//! compression, root output blocks) is supplied by the `blake3` crate and is
//! not re-implemented here; this crate builds and verifies the engine around
//! it: chunking, tree reduction, output-stream seeking, thread dispatch and
//! buffer admission.

use vstd::prelude::*;

pub mod buffer;
pub mod dispatch;
pub mod engine;
pub mod hexcode;
pub mod laws;
pub mod model;
pub mod primitives;

verus! {

/// Number of bytes in a default-length digest.
pub const DIGEST_SIZE: usize = 32;

/// Internal block size of the compression primitive, in bytes.
pub const BLOCK_SIZE: usize = 64;

/// Exact length of a key for the keyed mode, in bytes.
pub const KEY_SIZE: usize = 32;

/// Number of input bytes in one chunk, the leaf unit of the tree.
pub const CHUNK_SIZE: usize = 1024;

/// Sentinel `max_threads` value selecting the automatic thread policy.
pub const AUTO: isize = -1;

/// Every failure the engine can report. Each operation's contract states
/// exactly which variants it can return and on which inputs.
#[derive(Clone, Copy, Debug, PartialEq, Eq, Structural)]
pub enum HashError {
    /// A keyed-mode key had the wrong length; holds the expected and the
    /// actual length in bytes.
    InvalidKey { expected: usize, actual: usize },
    /// Both a key and a derive-key context were requested at once.
    ConflictingMode,
    /// The requested thread count was neither positive nor the `AUTO`
    /// sentinel.
    InvalidThreadCount,
    /// A fixed-size worker pool could not be constructed.
    ThreadPoolInit,
    /// An external memory handle does not expose raw bytes.
    NotABuffer,
    /// An external memory handle exposes bytes, but not as one contiguous
    /// range.
    NonContiguousBuffer,
    /// A requested output length exceeds the platform's addressing limits.
    LengthOverflow,
}

} // verus!
