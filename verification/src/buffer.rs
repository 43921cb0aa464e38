//! The buffer admission boundary.
//!
//! The engine reads caller-owned memory through whatever byte-range
//! protocol the host offers. What the engine itself decides — and what is
//! verified here — is which handles are admissible: the handle must expose
//! raw bytes at all, its element type must be exactly one byte wide (a
//! signed byte and an unsigned byte are both accepted and read identically
//! as raw bytes, which is why signedness plays no part in the decision
//! below), and the exposed range must be a single contiguous stride. The
//! host-specific work of probing a handle for these properties stays
//! outside the engine; it hands in a `BufferShape` of plain values.

use vstd::prelude::*;

use crate::HashError;

verus! {

/// The properties of an external memory handle that admission depends on,
/// as reported by the host-side probe.
#[derive(Clone, Copy, Debug, PartialEq, Eq, Structural)]
pub struct BufferShape {
    /// Whether the handle supports a raw byte view at all.
    pub supports_byte_view: bool,
    /// The width of one element of the view, in bytes.
    pub item_size: usize,
    /// Whether the view is one contiguous range (a single stride, no gaps).
    pub c_contiguous: bool,
    /// Whether the elements are signed bytes; accepted identically to
    /// unsigned ones, so admission never depends on this field.
    pub signed_bytes: bool,
}

/// The admission rule: `NotABuffer` when the handle has no byte view or
/// its elements are not one byte wide, `NonContiguousBuffer` when it has a
/// one-byte-wide view that is not contiguous, admission otherwise.
pub open spec fn admission(shape: BufferShape) -> Result<(), HashError> {
    if !shape.supports_byte_view || shape.item_size != 1 {
        Err(HashError::NotABuffer)
    } else if !shape.c_contiguous {
        Err(HashError::NonContiguousBuffer)
    } else {
        Ok(())
    }
}

/// Decide whether a handle of the given shape may be ingested, exactly as
/// the admission rule prescribes.
pub fn admit_buffer(shape: &BufferShape) -> (r: Result<(), HashError>)
    ensures
        r == admission(*shape),
{
    if !shape.supports_byte_view {
        return Err(HashError::NotABuffer);
    }
    if shape.item_size != 1 {
        return Err(HashError::NotABuffer);
    }
    if !shape.c_contiguous {
        return Err(HashError::NonContiguousBuffer);
    }
    Ok(())
}

} // verus!
