//! The engine's global guarantees, stated and proved over the model.
//!
//! `Hasher::update` ensures the new model is `updated(old, data)` and
//! `Hasher::digest` ensures its result is `xof_bytes` of the model, so each
//! law below, proved over models and streams, carries over to the
//! executable hashers.

use vstd::prelude::*;

use crate::engine::{reset_model, updated, HasherModel};
use crate::model::{xof_bytes, ModeKind};

verus! {

/// The concatenation of a sequence of input fragments.
pub open spec fn concat_all(frags: Seq<Seq<u8>>) -> Seq<u8>
    decreases frags.len(),
{
    if frags.len() == 0 {
        Seq::empty()
    } else {
        frags[0] + concat_all(frags.drop_first())
    }
}

/// The model after feeding a sequence of fragments one `update` at a time.
pub open spec fn updated_all(m: HasherModel, frags: Seq<Seq<u8>>) -> HasherModel
    decreases frags.len(),
{
    if frags.len() == 0 {
        m
    } else {
        updated_all(updated(m, frags[0]), frags.drop_first())
    }
}

/// Determinism under fragmentation: feeding any fragments `b1 .. bn` by
/// successive `update` calls leaves the hasher in exactly the state that
/// one `update` of their concatenation does — so every digest, of every
/// length and seek position, agrees as well.
pub proof fn lemma_fragmentation(m: HasherModel, frags: Seq<Seq<u8>>)
    ensures
        updated_all(m, frags) == updated(m, concat_all(frags)),
    decreases frags.len(),
{
    if frags.len() == 0 {
        assert(m.input + concat_all(frags) =~= m.input);
    } else {
        lemma_fragmentation(updated(m, frags[0]), frags.drop_first());
        assert((m.input + frags[0]) + concat_all(frags.drop_first()) =~= m.input + concat_all(
            frags,
        ));
    }
}

/// Thread-policy invariance: the output stream is a function of the mode,
/// the key material and the input alone. Two hashers that agree on those —
/// whatever their thread policies — produce identical digests for every
/// length and seek position.
pub proof fn lemma_policy_invariance(m1: HasherModel, m2: HasherModel, seek: int, len: int)
    requires
        m1.kind == m2.kind,
        m1.key == m2.key,
        m1.input == m2.input,
    ensures
        xof_bytes(m1.kind, m1.key, m1.input, seek, len) == xof_bytes(
            m2.kind,
            m2.key,
            m2.input,
            seek,
            len,
        ),
{
}

/// Output-stream consistency: reading `l1` bytes at `seek` and then `l2`
/// bytes at `seek + l1` yields exactly the `l1 + l2` bytes read at `seek`
/// in one call.
pub proof fn lemma_stream_concat(
    kind: ModeKind,
    key: Seq<u8>,
    input: Seq<u8>,
    seek: int,
    l1: int,
    l2: int,
)
    requires
        l1 >= 0,
        l2 >= 0,
    ensures
        xof_bytes(kind, key, input, seek, l1) + xof_bytes(kind, key, input, seek + l1, l2)
            == xof_bytes(kind, key, input, seek, l1 + l2),
{
    assert(xof_bytes(kind, key, input, seek, l1) + xof_bytes(kind, key, input, seek + l1, l2)
        =~= xof_bytes(kind, key, input, seek, l1 + l2));
}

/// Prefix property: from the same seek position, a shorter digest is a
/// prefix of any longer one.
pub proof fn lemma_prefix(kind: ModeKind, key: Seq<u8>, input: Seq<u8>, seek: int, n: int, m: int)
    requires
        0 <= n <= m,
    ensures
        xof_bytes(kind, key, input, seek, n) == xof_bytes(kind, key, input, seek, m).take(n),
{
    assert(xof_bytes(kind, key, input, seek, n) =~= xof_bytes(kind, key, input, seek, m).take(n));
}

/// Reset semantics: whatever was fed before a reset is discarded, not
/// replayed — updating after a reset leaves exactly the state of a fresh
/// hasher of the same mode, key material and policy fed only the new bytes.
pub proof fn lemma_reset_discards(m: HasherModel, x: Seq<u8>, y: Seq<u8>)
    ensures
        updated(reset_model(updated(m, x)), y) == updated(reset_model(m), y),
        updated(reset_model(updated(m, x)), y).input == y,
{
    assert(Seq::<u8>::empty() + y =~= y);
}

} // verus!
