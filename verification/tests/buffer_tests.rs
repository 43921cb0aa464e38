//! Tests of the buffer admission boundary.

use b3engine::buffer::{admit_buffer, BufferShape};
use b3engine::HashError;

fn shape(supports: bool, item_size: usize, contiguous: bool, signed: bool) -> BufferShape {
    BufferShape {
        supports_byte_view: supports,
        item_size,
        c_contiguous: contiguous,
        signed_bytes: signed,
    }
}

#[test]
fn unsigned_bytes_are_admitted() {
    assert_eq!(admit_buffer(&shape(true, 1, true, false)), Ok(()));
}

#[test]
fn signed_bytes_are_admitted_identically() {
    assert_eq!(admit_buffer(&shape(true, 1, true, true)), Ok(()));
}

#[test]
fn non_buffers_are_rejected() {
    assert_eq!(admit_buffer(&shape(false, 1, true, false)), Err(HashError::NotABuffer));
}

#[test]
fn wide_elements_are_rejected() {
    assert_eq!(admit_buffer(&shape(true, 4, true, false)), Err(HashError::NotABuffer));
    assert_eq!(admit_buffer(&shape(true, 2, true, true)), Err(HashError::NotABuffer));
}

#[test]
fn strided_views_are_rejected() {
    assert_eq!(admit_buffer(&shape(true, 1, false, false)), Err(HashError::NonContiguousBuffer));
}

#[test]
fn update_through_the_boundary_feeds_admitted_bytes_only() {
    let mut h = b3engine::engine::Hasher::new(None, None, 1).unwrap();
    let before = h.digest(32, 0).unwrap();
    assert_eq!(
        h.update_buffer(&shape(true, 1, false, false), b"rejected"),
        Err(HashError::NonContiguousBuffer)
    );
    assert_eq!(h.digest(32, 0).unwrap(), before, "a rejected update must not mutate the hasher");
    assert_eq!(h.update_buffer(&shape(true, 1, true, true), b"abc"), Ok(()));
    assert_eq!(h.digest(32, 0).unwrap().as_slice(), blake3::hash(b"abc").as_bytes());
}
