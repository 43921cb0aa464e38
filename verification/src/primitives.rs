//! Trusted boundary to the `blake3` compression primitive and to `rayon`.
//!
//! Everything verified in this crate reaches the outside crates only through
//! the items in this module. Each wrapper's contract states what the outside
//! call returns in terms of the uninterpreted names declared in `model`; the
//! engine's own proofs are carried out against these contracts.

use vstd::prelude::*;

use crate::model::{
    chunk_output, chunk_root_byte, context_key_bytes, mode_key_ok, parent_output,
    parent_root_byte, ModeKind,
};

verus! {

#[verifier::external_type_specification]
#[verifier::external_body]
pub struct ExThreadPool(rayon::ThreadPool);

#[verifier::external_type_specification]
#[verifier::external_body]
pub struct ExThreadPoolBuildError(rayon::ThreadPoolBuildError);

/// Relies on `rayon::join`: runs both closures to completion, possibly in
/// parallel, and returns both results.
pub assume_specification<A, B, RA, RB>[ rayon::join::<A, B, RA, RB> ](
    oper_a: A,
    oper_b: B,
) -> (r: (RA, RB)) where
    A: FnOnce() -> RA + Send,
    B: FnOnce() -> RB + Send,
    RA: Send,
    RB: Send,

    requires
        call_requires(oper_a, ()),
        call_requires(oper_b, ()),
    ensures
        call_ensures(oper_a, (), r.0),
        call_ensures(oper_b, (), r.1),
;

/// Relies on `rayon::ThreadPool::install`: runs the closure to completion
/// inside the pool and returns its result.
pub assume_specification<OP, R>[ rayon::ThreadPool::install::<OP, R> ](
    pool: &rayon::ThreadPool,
    op: OP,
) -> (r: R) where
    OP: FnOnce() -> R + Send,
    R: Send,

    requires
        call_requires(op, ()),
    ensures
        call_ensures(op, (), r),
;

/// Relies on `rayon::ThreadPoolBuilder`: builds a worker pool of exactly `n`
/// threads, or reports that the pool could not be started.
#[verifier::external_body]
pub(crate) fn build_pool(n: usize) -> Result<rayon::ThreadPool, rayon::ThreadPoolBuildError>
    requires
        n >= 1,
{
    rayon::ThreadPoolBuilder::new().num_threads(n).build()
}

/// Relies on `blake3::hazmat::hash_derive_key_context`: the 32-byte key
/// material for a derive-key context string, a function of the string alone.
#[verifier::external_body]
pub(crate) fn hash_context_key(context: &str) -> (r: Vec<u8>)
    ensures
        r@ == context_key_bytes(context@),
        r@.len() == 32,
{
    blake3::hazmat::hash_derive_key_context(context).to_vec()
}

/// Relies on `blake3::Hasher::{new, new_keyed}` and
/// `blake3::hazmat::HasherExt::{new_from_context_key, set_input_offset,
/// finalize_non_root}`: the 32-byte non-root chaining value of the chunk
/// with index `chunk_index` holding `bytes`, a function of the arguments
/// alone.
#[verifier::external_body]
pub(crate) fn compress_chunk(kind: ModeKind, key: &Vec<u8>, chunk_index: u64, bytes: &[u8]) -> (r:
    Vec<u8>)
    requires
        mode_key_ok(kind, key@),
        1 <= bytes@.len() <= 1024,
        chunk_index <= u64::MAX / 1024,
    ensures
        r@ == chunk_output(kind, key@, chunk_index as int, bytes@),
        r@.len() == 32,
{
    let mut h = match kind {
        ModeKind::Default => blake3::Hasher::new(),
        ModeKind::Keyed => blake3::Hasher::new_keyed(key.as_slice().try_into().unwrap()),
        ModeKind::DeriveKeyMaterial => {
            <blake3::Hasher as blake3::hazmat::HasherExt>::new_from_context_key(
                key.as_slice().try_into().unwrap(),
            )
        },
    };
    blake3::hazmat::HasherExt::set_input_offset(&mut h, chunk_index * 1024);
    h.update(bytes);
    blake3::hazmat::HasherExt::finalize_non_root(&h).to_vec()
}

/// Relies on `blake3::hazmat::merge_subtrees_non_root`: the 32-byte chaining
/// value of a non-root parent node over two child chaining values, a
/// function of the arguments alone.
#[verifier::external_body]
pub(crate) fn merge_parents(kind: ModeKind, key: &Vec<u8>, left: &Vec<u8>, right: &Vec<u8>) -> (r:
    Vec<u8>)
    requires
        mode_key_ok(kind, key@),
        left@.len() == 32,
        right@.len() == 32,
    ensures
        r@ == parent_output(kind, key@, left@, right@),
        r@.len() == 32,
{
    let l: &[u8; 32] = left.as_slice().try_into().unwrap();
    let rt: &[u8; 32] = right.as_slice().try_into().unwrap();
    let mode = match kind {
        ModeKind::Default => blake3::hazmat::Mode::Hash,
        ModeKind::Keyed => blake3::hazmat::Mode::KeyedHash(key.as_slice().try_into().unwrap()),
        ModeKind::DeriveKeyMaterial => {
            blake3::hazmat::Mode::DeriveKeyMaterial(key.as_slice().try_into().unwrap())
        },
    };
    blake3::hazmat::merge_subtrees_non_root(l, rt, mode).to_vec()
}

/// Relies on `blake3::Hasher::{new, new_keyed, finalize_xof}`,
/// `blake3::hazmat::HasherExt::new_from_context_key` and
/// `blake3::OutputReader::{set_position, fill}`: `count` output-stream bytes
/// starting at position `seek`, for a root that is a single chunk holding
/// the whole input `bytes`. Byte values depend on the arguments alone; the
/// stream ends at position `u64::MAX`.
#[verifier::external_body]
pub(crate) fn chunk_root_bytes(
    kind: ModeKind,
    key: &Vec<u8>,
    bytes: &[u8],
    seek: u64,
    count: usize,
) -> (r: Vec<u8>)
    requires
        mode_key_ok(kind, key@),
        bytes@.len() <= 1024,
        count <= isize::MAX,
        seek + count <= u64::MAX,
    ensures
        r@.len() == count,
        forall|i: int| 0 <= i < count ==> r@[i] == chunk_root_byte(kind, key@, bytes@, seek + i),
{
    let mut h = match kind {
        ModeKind::Default => blake3::Hasher::new(),
        ModeKind::Keyed => blake3::Hasher::new_keyed(key.as_slice().try_into().unwrap()),
        ModeKind::DeriveKeyMaterial => {
            <blake3::Hasher as blake3::hazmat::HasherExt>::new_from_context_key(
                key.as_slice().try_into().unwrap(),
            )
        },
    };
    h.update(bytes);
    let mut reader = h.finalize_xof();
    reader.set_position(seek);
    let mut out = vec![0u8; count];
    reader.fill(&mut out);
    out
}

/// Relies on `blake3::hazmat::merge_subtrees_root_xof` and
/// `blake3::OutputReader::{set_position, fill}`: `count` output-stream bytes
/// starting at position `seek`, for a root that is a parent node over two
/// child chaining values. Byte values depend on the arguments alone; the
/// stream ends at position `u64::MAX`.
#[verifier::external_body]
pub(crate) fn parent_root_bytes(
    kind: ModeKind,
    key: &Vec<u8>,
    left: &Vec<u8>,
    right: &Vec<u8>,
    seek: u64,
    count: usize,
) -> (r: Vec<u8>)
    requires
        mode_key_ok(kind, key@),
        left@.len() == 32,
        right@.len() == 32,
        count <= isize::MAX,
        seek + count <= u64::MAX,
    ensures
        r@.len() == count,
        forall|i: int|
            0 <= i < count ==> r@[i] == parent_root_byte(kind, key@, left@, right@, seek + i),
{
    let l: &[u8; 32] = left.as_slice().try_into().unwrap();
    let rt: &[u8; 32] = right.as_slice().try_into().unwrap();
    let mode = match kind {
        ModeKind::Default => blake3::hazmat::Mode::Hash,
        ModeKind::Keyed => blake3::hazmat::Mode::KeyedHash(key.as_slice().try_into().unwrap()),
        ModeKind::DeriveKeyMaterial => {
            blake3::hazmat::Mode::DeriveKeyMaterial(key.as_slice().try_into().unwrap())
        },
    };
    let mut reader = blake3::hazmat::merge_subtrees_root_xof(l, rt, mode);
    reader.set_position(seek);
    let mut out = vec![0u8; count];
    reader.fill(&mut out);
    out
}

} // verus!
