//! Chunk-compression scheduling.
//!
//! A run of whole chunks can be compressed one after another on the calling
//! thread, or split recursively and handed to `rayon::join` so independent
//! chunks compress in parallel. Both schedules satisfy the same contract —
//! every produced chaining value is `chunk_output` of its chunk — so the
//! engine's digest provably cannot depend on which one ran, nor on how the
//! work was split.

use vstd::prelude::*;

use crate::model::{chunk_output, mode_key_ok, ModeKind};
use crate::primitives::compress_chunk;

verus! {

/// What both schedules promise: one 32-byte chaining value per whole chunk
/// of `data`, each the compression of its chunk at its global index.
pub open spec fn chunk_cvs_ok(
    kind: ModeKind,
    key: Seq<u8>,
    start: int,
    data: Seq<u8>,
    r: Seq<Vec<u8>>,
) -> bool {
    &&& r.len() * 1024 == data.len()
    &&& forall|j: int|
        0 <= j < r.len() ==> (#[trigger] r[j])@ == chunk_output(
            kind,
            key,
            start + j,
            data.subrange(j * 1024, j * 1024 + 1024),
        )
    &&& forall|j: int| 0 <= j < r.len() ==> (#[trigger] r[j])@.len() == 32
}

/// Compress every whole chunk of `data` on the calling thread, in order.
pub(crate) fn compress_chunks_seq(kind: ModeKind, key: &Vec<u8>, start: u64, data: &[u8]) -> (r:
    Vec<Vec<u8>>)
    requires
        mode_key_ok(kind, key@),
        data@.len() % 1024 == 0,
        start as int * 1024 + data@.len() <= u64::MAX,
    ensures
        chunk_cvs_ok(kind, key@, start as int, data@, r@),
{
    let n = data.len() / 1024;
    proof {
        vstd::arithmetic::div_mod::lemma_fundamental_div_mod(data@.len() as int, 1024);
        assert(n * 1024 == data@.len());
        assert((start as int + n) * 1024 <= u64::MAX) by (nonlinear_arith)
            requires
                start as int * 1024 + n * 1024 <= u64::MAX,
        ;
        vstd::arithmetic::div_mod::lemma_div_is_ordered(
            (start as int + n) * 1024,
            u64::MAX as int,
            1024,
        );
        vstd::arithmetic::div_mod::lemma_div_multiples_vanish(start as int + n, 1024);
        assert((start as int + n) * 1024 == 1024 * (start as int + n)) by (nonlinear_arith);
        assert(start as int + n <= u64::MAX as int / 1024);
    }
    let mut out: Vec<Vec<u8>> = Vec::new();
    let mut j: usize = 0;
    while j < n
        invariant
            0 <= j <= n,
            n * 1024 == data@.len(),
            data@.len() <= usize::MAX,
            start as int + n <= u64::MAX as int / 1024,
            mode_key_ok(kind, key@),
            out@.len() == j,
            forall|t: int|
                0 <= t < j ==> (#[trigger] out@[t])@ == chunk_output(
                    kind,
                    key@,
                    start + t,
                    data@.subrange(t * 1024, t * 1024 + 1024),
                ),
            forall|t: int| 0 <= t < j ==> (#[trigger] out@[t])@.len() == 32,
        decreases n - j,
    {
        proof {
            assert((j + 1) * 1024 <= n * 1024) by (nonlinear_arith)
                requires
                    j + 1 <= n,
            ;
        }
        let lo = j * 1024;
        let hi = lo + 1024;
        let c = &data[lo..hi];
        let cv = compress_chunk(kind, key, start + j as u64, c);
        out.push(cv);
        j = j + 1;
    }
    out
}

/// Compress every whole chunk of `data`, splitting the run in half and
/// handing the halves to `rayon::join` until runs are small, so independent
/// chunks may compress on different worker threads.
pub(crate) fn compress_chunks_par(kind: ModeKind, key: &Vec<u8>, start: u64, data: &[u8]) -> (r:
    Vec<Vec<u8>>)
    requires
        mode_key_ok(kind, key@),
        data@.len() % 1024 == 0,
        start as int * 1024 + data@.len() <= u64::MAX,
    ensures
        chunk_cvs_ok(kind, key@, start as int, data@, r@),
    decreases data@.len(),
{
    let n = data.len() / 1024;
    proof {
        vstd::arithmetic::div_mod::lemma_fundamental_div_mod(data@.len() as int, 1024);
        assert(n * 1024 == data@.len());
    }
    if n <= 2 {
        return compress_chunks_seq(kind, key, start, data);
    }
    let half = n / 2;
    proof {
        assert(1 <= half < n);
        assert(half * 1024 < n * 1024) by (nonlinear_arith)
            requires
                half < n,
        ;
        assert(half * 1024 >= 1024) by (nonlinear_arith)
            requires
                half >= 1,
        ;
        assert((n - half) * 1024 == n * 1024 - half * 1024) by (nonlinear_arith);
        assert((half * 1024) % 1024 == 0) by {
            vstd::arithmetic::div_mod::lemma_mod_multiples_basic(half as int, 1024);
        }
        assert((data@.len() - half * 1024) % 1024 == 0) by {
            vstd::arithmetic::div_mod::lemma_mod_multiples_basic(n as int - half as int, 1024);
            assert((n - half) * 1024 == (n as int - half as int) * 1024) by (nonlinear_arith);
        }
        assert((start as int + half) * 1024 == start as int * 1024 + half * 1024)
            by (nonlinear_arith);
    }
    let mid = half * 1024;
    let left: &[u8] = &data[0..mid];
    let right: &[u8] = &data[mid..data.len()];
    let fl = || -> (rv: Vec<Vec<u8>>)
        requires
            mode_key_ok(kind, key@),
            left@.len() % 1024 == 0,
            start as int * 1024 + left@.len() <= u64::MAX,
            left@.len() < data@.len(),
            left@ == data@.subrange(0, mid as int),
        ensures
            chunk_cvs_ok(kind, key@, start as int, left@, rv@),
        { compress_chunks_par(kind, key, start, left) };
    let fr = || -> (rv: Vec<Vec<u8>>)
        requires
            mode_key_ok(kind, key@),
            right@.len() % 1024 == 0,
            (start + half as u64) as int * 1024 + right@.len() <= u64::MAX,
            right@.len() < data@.len(),
            right@ == data@.subrange(mid as int, data@.len() as int),
        ensures
            chunk_cvs_ok(kind, key@, (start + half as u64) as int, right@, rv@),
        { compress_chunks_par(kind, key, start + half as u64, right) };
    let (mut a, mut b) = rayon::join(fl, fr);
    let ghost a0 = a@;
    let ghost b0 = b@;
    proof {
        assert(a0.len() == half && b0.len() == n - half) by (nonlinear_arith)
            requires
                a0.len() * 1024 == half * 1024,
                b0.len() * 1024 == (n - half) * 1024,
        ;
    }
    a.append(&mut b);
    proof {
        assert(a@ == a0 + b0);
        assert forall|j: int| 0 <= j < n implies (#[trigger] a@[j])@ == chunk_output(
            kind,
            key@,
            start as int + j,
            data@.subrange(j * 1024, j * 1024 + 1024),
        ) && a@[j]@.len() == 32 by {
            if j < half {
                assert((j + 1) * 1024 <= half * 1024) by (nonlinear_arith)
                    requires
                        j + 1 <= half,
                ;
                assert(data@.subrange(0, mid as int).subrange(j * 1024, j * 1024 + 1024) =~= data@
                    .subrange(j * 1024, j * 1024 + 1024));
            } else {
                let u = j - half;
                assert((u + 1) * 1024 <= (n - half) * 1024) by (nonlinear_arith)
                    requires
                        u + 1 <= n - half,
                ;
                assert(u * 1024 + mid as int == j * 1024) by (nonlinear_arith)
                    requires
                        u == j - half,
                        mid == half * 1024,
                ;
                assert(data@.subrange(mid as int, data@.len() as int).subrange(
                    u * 1024,
                    u * 1024 + 1024,
                ) =~= data@.subrange(j * 1024, j * 1024 + 1024));
            }
        }
        assert(a@.len() * 1024 == data@.len()) by (nonlinear_arith)
            requires
                a@.len() == n,
                n * 1024 == data@.len(),
        ;
    }
    a
}

} // verus!
