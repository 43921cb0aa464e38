//! The mathematical model of the engine.
//!
//! The input fed to a hasher is modelled as a byte sequence. Its digest is
//! defined by a chunk tree: the input is cut into 1024-byte chunks, each
//! chunk is compressed to a 32-byte chaining value, and adjacent subtrees are
//! merged pairwise, the left subtree always holding the largest power-of-two
//! number of chunks that is strictly smaller than the total. The results of
//! the compression primitive itself are opaque here: they are named by
//! uninterpreted functions (`chunk_output`, `parent_output`,
//! `chunk_root_byte`, `parent_root_byte`, `context_key_bytes`) whose values
//! the trusted wrappers in `primitives` tie to the `blake3` crate.

use vstd::prelude::*;

verus! {

/// Which keying mode a hasher runs in. For `Keyed` the key material is the
/// caller's 32-byte key; for `DeriveKeyMaterial` it is the 32-byte hash of
/// the caller's context string; for `Default` there is no key material.
#[derive(Clone, Copy, Debug, PartialEq, Eq, Structural)]
pub enum ModeKind {
    Default,
    Keyed,
    DeriveKeyMaterial,
}

/// The key material that a well-formed hasher of kind `kind` carries:
/// nothing in the default mode, exactly 32 bytes otherwise.
pub open spec fn mode_key_ok(kind: ModeKind, key: Seq<u8>) -> bool {
    match kind {
        ModeKind::Default => key == Seq::<u8>::empty(),
        ModeKind::Keyed => key.len() == 32,
        ModeKind::DeriveKeyMaterial => key.len() == 32,
    }
}

/// The 32-byte key material derived by hashing a derive-key context string.
pub uninterp spec fn context_key_bytes(context: Seq<char>) -> Seq<u8>;

/// The 32-byte chaining value of one non-root chunk: a function of the mode,
/// the key material, the chunk's index in the whole input, and its bytes.
pub uninterp spec fn chunk_output(
    kind: ModeKind,
    key: Seq<u8>,
    chunk_index: int,
    bytes: Seq<u8>,
) -> Seq<u8>;

/// The 32-byte chaining value of one non-root parent node over two child
/// chaining values.
pub uninterp spec fn parent_output(
    kind: ModeKind,
    key: Seq<u8>,
    left: Seq<u8>,
    right: Seq<u8>,
) -> Seq<u8>;

/// Byte `pos` of the output stream when the root of the tree is a single
/// chunk, i.e. when the whole input is at most one chunk long.
pub uninterp spec fn chunk_root_byte(
    kind: ModeKind,
    key: Seq<u8>,
    input: Seq<u8>,
    pos: int,
) -> u8;

/// Byte `pos` of the output stream when the root of the tree is a parent
/// node over two child chaining values.
pub uninterp spec fn parent_root_byte(
    kind: ModeKind,
    key: Seq<u8>,
    left: Seq<u8>,
    right: Seq<u8>,
    pos: int,
) -> u8;

/// How many chunks a byte range of length `len` occupies. An empty input
/// still forms one (empty) chunk; otherwise the final chunk holds between 1
/// and 1024 bytes.
pub open spec fn chunk_count(len: int) -> int
    decreases len,
{
    if len <= 1024 {
        1
    } else {
        1 + chunk_count(len - 1024)
    }
}

/// The largest power of two strictly below `n`, for `n >= 2`: the number of
/// chunks in the left child of a subtree of `n` chunks.
pub open spec fn largest_pow2_lt(n: int) -> int
    decreases n,
{
    if n <= 2 {
        1
    } else {
        2 * largest_pow2_lt(n - n / 2)
    }
}

/// Whether `x` is a power of two.
pub open spec fn is_pow2(x: int) -> bool
    decreases x,
{
    if x <= 0 {
        false
    } else if x == 1 {
        true
    } else if x % 2 == 1 {
        false
    } else {
        is_pow2(x / 2)
    }
}

/// The lowest set bit of `c` as a power of two: the size, in chunks, of the
/// smallest complete subtree in the binary decomposition of `c` chunks.
/// Total in `c`; meaningful for `c >= 1`.
pub open spec fn low_bit(c: int) -> int
    decreases c,
{
    if c <= 0 {
        1
    } else if c % 2 == 1 {
        1
    } else {
        2 * low_bit(c / 2)
    }
}

/// A byte range always occupies at least one chunk.
pub proof fn lemma_chunk_count_pos(len: int)
    ensures
        chunk_count(len) >= 1,
    decreases len,
{
    if len > 1024 {
        lemma_chunk_count_pos(len - 1024);
    }
}

/// A nonempty byte range of `c` chunks is longer than `c - 1` whole chunks.
pub proof fn lemma_chunk_count_lower(len: int)
    requires
        len >= 1,
    ensures
        len > (chunk_count(len) - 1) * 1024,
    decreases len,
{
    if len > 1024 {
        lemma_chunk_count_lower(len - 1024);
    }
}

/// Whole chunks prepended to a nonempty range add exactly their count.
pub proof fn lemma_chunk_count_add(p: int, m: int)
    requires
        p >= 0,
        m >= 1,
    ensures
        chunk_count(p * 1024 + m) == p + chunk_count(m),
    decreases p,
{
    if p > 0 {
        lemma_chunk_count_add(p - 1, m);
        assert(p * 1024 + m - 1024 == (p - 1) * 1024 + m) by (nonlinear_arith);
    }
}

/// `largest_pow2_lt` is a power of two strictly between 0 and its argument.
pub proof fn lemma_largest_pow2_lt_bounds(n: int)
    requires
        n >= 2,
    ensures
        1 <= largest_pow2_lt(n) < n,
        is_pow2(largest_pow2_lt(n)),
    decreases n,
{
    if n > 2 {
        lemma_largest_pow2_lt_bounds(n - n / 2);
    }
}

/// Splitting off a complete power-of-two left part: for `1 <= r <= p` with
/// `p` a power of two, the left child of a `p + r`-chunk subtree holds
/// exactly `p` chunks.
pub proof fn lemma_largest_pow2_lt_split(p: int, r: int)
    requires
        is_pow2(p),
        1 <= r <= p,
    ensures
        largest_pow2_lt(p + r) == p,
    decreases p,
{
    if p == 1 {
        assert(largest_pow2_lt(2) == 1);
    } else {
        let n = p + r;
        assert(p % 2 == 0);
        assert(is_pow2(p / 2));
        assert(n - n / 2 == p / 2 + (r + 1) / 2);
        assert(1 <= (r + 1) / 2 <= p / 2);
        lemma_largest_pow2_lt_split(p / 2, (r + 1) / 2);
        assert(n > 2);
        assert(largest_pow2_lt(n) == 2 * largest_pow2_lt(n - n / 2));
    }
}

/// The 32-byte chaining value of the non-root subtree holding the byte
/// range `b`, whose first chunk has index `ci` in the whole input. A range
/// of at most one chunk is a leaf; a longer range splits after its largest
/// power-of-two number of complete chunks that leaves at least one byte on
/// the right.
pub open spec fn subtree_cv(kind: ModeKind, key: Seq<u8>, ci: int, b: Seq<u8>) -> Seq<u8>
    decreases b.len(),
    via subtree_cv_decreases
{
    if b.len() <= 1024 {
        chunk_output(kind, key, ci, b)
    } else {
        let lc = largest_pow2_lt(chunk_count(b.len() as int));
        let lb = lc * 1024;
        parent_output(
            kind,
            key,
            subtree_cv(kind, key, ci, b.take(lb)),
            subtree_cv(kind, key, ci + lc, b.skip(lb)),
        )
    }
}

#[via_fn]
proof fn subtree_cv_decreases(kind: ModeKind, key: Seq<u8>, ci: int, b: Seq<u8>) {
    if b.len() > 1024 {
        let n = chunk_count(b.len() as int);
        lemma_chunk_count_pos(b.len() as int - 1024);
        lemma_chunk_count_lower(b.len() as int);
        lemma_largest_pow2_lt_bounds(n);
        assert(largest_pow2_lt(n) * 1024 <= (n - 1) * 1024) by (nonlinear_arith)
            requires largest_pow2_lt(n) <= n - 1;
    }
}

/// Byte `pos` of the infinite output stream for the whole input `input`:
/// produced by the root chunk itself when the input is at most one chunk,
/// and by the root parent node over the two top-level subtrees otherwise.
pub open spec fn xof_byte(kind: ModeKind, key: Seq<u8>, input: Seq<u8>, pos: int) -> u8 {
    if input.len() <= 1024 {
        chunk_root_byte(kind, key, input, pos)
    } else {
        let lc = largest_pow2_lt(chunk_count(input.len() as int));
        let lb = lc * 1024;
        parent_root_byte(
            kind,
            key,
            subtree_cv(kind, key, 0, input.take(lb)),
            subtree_cv(kind, key, lc, input.skip(lb)),
            pos,
        )
    }
}

/// The `len` output-stream bytes starting at position `seek`.
pub open spec fn xof_bytes(
    kind: ModeKind,
    key: Seq<u8>,
    input: Seq<u8>,
    seek: int,
    len: int,
) -> Seq<u8> {
    Seq::new(len as nat, |i: int| xof_byte(kind, key, input, seek + i))
}

/// The chaining-value stack a hasher holds after `cc` complete chunks of
/// `input`: one entry per set bit of `cc`, each the chaining value of a
/// complete power-of-two subtree, largest at the bottom. Only the first
/// `cc * 1024` bytes of `input` are read.
pub open spec fn stack_model(kind: ModeKind, key: Seq<u8>, input: Seq<u8>, cc: int) -> Seq<Seq<u8>>
    decreases cc,
    via stack_model_decreases
{
    if cc <= 0 {
        Seq::empty()
    } else {
        let s = low_bit(cc);
        let base = cc - s;
        stack_model(kind, key, input, base).push(
            subtree_cv(kind, key, base, input.subrange(base * 1024, cc * 1024)),
        )
    }
}

#[via_fn]
proof fn stack_model_decreases(kind: ModeKind, key: Seq<u8>, input: Seq<u8>, cc: int) {
    if cc > 0 {
        lemma_low_bit_basics(cc);
    }
}

/// `low_bit(c)` is a power of two that divides `c` and lies between 1 and
/// `c`.
pub proof fn lemma_low_bit_basics(c: int)
    requires
        c >= 1,
    ensures
        1 <= low_bit(c) <= c,
        c % low_bit(c) == 0,
        is_pow2(low_bit(c)),
    decreases c,
{
    if c % 2 == 1 {
        assert(c % 1 == 0);
    } else {
        lemma_low_bit_basics(c / 2);
        let s = low_bit(c / 2);
        let k = (c / 2) / s;
        vstd::arithmetic::div_mod::lemma_fundamental_div_mod(c / 2, s);
        assert(c / 2 == s * k);
        assert(c == 2 * (c / 2));
        assert(k * (2 * s) == 2 * (s * k)) by (nonlinear_arith);
        vstd::arithmetic::div_mod::lemma_mod_multiples_basic(k, 2 * s);
        assert(c % (2 * s) == 0);
        assert(k >= 1) by (nonlinear_arith)
            requires
                c / 2 == s * k,
                c / 2 >= 1,
                s >= 1,
        ;
        assert(s * k >= s) by (nonlinear_arith)
            requires
                k >= 1,
                s >= 1,
        ;
        assert(2 * s <= c);
    }
}

/// For a power of two `s` dividing `a`, the quotient `a / s` is odd exactly
/// when `a` is nonzero and `s` is its lowest set bit.
pub proof fn lemma_low_bit_odd(s: int, a: int)
    requires
        is_pow2(s),
        a >= 0,
        a % s == 0,
    ensures
        ((a / s) % 2 == 1) <==> (a >= 1 && low_bit(a) == s),
    decreases s,
{
    vstd::arithmetic::div_mod::lemma_fundamental_div_mod(a, s);
    if s == 1 {
        assert(a / 1 == a);
        if a >= 1 && a % 2 == 0 {
            lemma_low_bit_basics(a / 2);
        }
    } else {
        let s2 = s / 2;
        let q = a / s;
        assert(s == 2 * s2);
        assert(a == s * q);
        assert(a == 2 * (s2 * q)) by (nonlinear_arith)
            requires
                a == s * q,
                s == 2 * s2,
        ;
        assert(a % 2 == 0) by (nonlinear_arith)
            requires
                a == 2 * (s2 * q),
        ;
        let a2 = a / 2;
        assert(a2 == s2 * q) by {
            vstd::arithmetic::div_mod::lemma_div_multiples_vanish(s2 * q, 2);
        }
        assert(a2 % s2 == 0) by {
            vstd::arithmetic::div_mod::lemma_mod_multiples_basic(q, s2);
            assert(s2 * q == q * s2) by (nonlinear_arith);
        }
        assert(a2 / s2 == q) by {
            vstd::arithmetic::div_mod::lemma_div_multiples_vanish(q, s2);
            assert(s2 * q == q * s2) by (nonlinear_arith);
        }
        lemma_low_bit_odd(s2, a2);
        if a >= 1 {
            assert(a >= 2);
            assert(low_bit(a) == 2 * low_bit(a2));
        }
    }
}

/// A power of two dividing a nonzero `a` is no larger than `a`'s lowest set
/// bit, and divides it.
pub proof fn lemma_low_bit_divisor(s: int, a: int)
    requires
        is_pow2(s),
        a >= 1,
        a % s == 0,
    ensures
        low_bit(a) % s == 0,
        low_bit(a) >= s,
    decreases s,
{
    lemma_low_bit_basics(a);
    if s == 1 {
        assert(low_bit(a) % 1 == 0);
    } else {
        let s2 = s / 2;
        let q = a / s;
        vstd::arithmetic::div_mod::lemma_fundamental_div_mod(a, s);
        assert(s == 2 * s2);
        assert(a == s * q);
        assert(a == 2 * (s2 * q)) by (nonlinear_arith)
            requires
                a == s * q,
                s == 2 * s2,
        ;
        assert(a % 2 == 0) by (nonlinear_arith)
            requires
                a == 2 * (s2 * q),
        ;
        assert(q >= 1) by (nonlinear_arith)
            requires
                a == s * q,
                a >= 1,
                s >= 1,
        ;
        assert(a >= 2);
        let a2 = a / 2;
        assert(a2 == s2 * q) by {
            vstd::arithmetic::div_mod::lemma_div_multiples_vanish(s2 * q, 2);
        }
        assert(a2 % s2 == 0) by {
            vstd::arithmetic::div_mod::lemma_mod_multiples_basic(q, s2);
            assert(s2 * q == q * s2) by (nonlinear_arith);
        }
        assert(a2 >= 1) by (nonlinear_arith)
            requires
                a2 == s2 * q,
                s2 >= 1,
                q >= 1,
        ;
        lemma_low_bit_divisor(s2, a2);
        assert(low_bit(a) == 2 * low_bit(a2));
        let lb2 = low_bit(a2);
        let k = lb2 / s2;
        vstd::arithmetic::div_mod::lemma_fundamental_div_mod(lb2, s2);
        assert(lb2 == s2 * k);
        vstd::arithmetic::div_mod::lemma_mod_multiples_basic(k, 2 * s2);
        assert(k * (2 * s2) == 2 * (s2 * k)) by (nonlinear_arith);
        assert((2 * lb2) % (2 * s2) == 0);
    }
}

/// Merging: a complete subtree of `p` chunks (a power of two) followed by a
/// right sibling of at most `p` chunks forms one subtree, whose chaining
/// value is the parent compression of the two children. This is the tree
/// rule the engine's chaining-value stack relies on.
pub proof fn lemma_subtree_merge(
    kind: ModeKind,
    key: Seq<u8>,
    ci: int,
    p: int,
    bl: Seq<u8>,
    br: Seq<u8>,
)
    requires
        is_pow2(p),
        bl.len() == p * 1024,
        br.len() >= 1,
        chunk_count(br.len() as int) <= p,
    ensures
        subtree_cv(kind, key, ci, bl + br) == parent_output(
            kind,
            key,
            subtree_cv(kind, key, ci, bl),
            subtree_cv(kind, key, ci + p, br),
        ),
{
    let b = bl + br;
    assert(p >= 1);
    lemma_chunk_count_pos(br.len() as int);
    lemma_chunk_count_add(p, br.len() as int);
    assert(chunk_count(b.len() as int) == p + chunk_count(br.len() as int));
    lemma_largest_pow2_lt_split(p, chunk_count(br.len() as int));
    assert(largest_pow2_lt(chunk_count(b.len() as int)) == p);
    assert(b.take(p * 1024) =~= bl);
    assert(b.skip(p * 1024) =~= br);
}

/// A hasher's chaining-value stack is empty exactly when no chunk has been
/// completed.
pub proof fn lemma_stack_model_empty(kind: ModeKind, key: Seq<u8>, input: Seq<u8>, cc: int)
    ensures
        (stack_model(kind, key, input, cc).len() == 0) <==> cc <= 0,
{
    if cc > 0 {
        lemma_low_bit_basics(cc);
    }
}

/// The stack after `cc` chunks reads only the first `cc * 1024` input
/// bytes: extending the input does not change it.
pub proof fn lemma_stack_model_prefix(
    kind: ModeKind,
    key: Seq<u8>,
    i1: Seq<u8>,
    i2: Seq<u8>,
    cc: int,
)
    requires
        cc >= 0,
        cc * 1024 <= i1.len(),
        i1.len() <= i2.len(),
        i2.take(i1.len() as int) == i1,
    ensures
        stack_model(kind, key, i1, cc) == stack_model(kind, key, i2, cc),
    decreases cc,
{
    if cc > 0 {
        lemma_low_bit_basics(cc);
        let s = low_bit(cc);
        let base = cc - s;
        lemma_stack_model_prefix(kind, key, i1, i2, base);
        assert(i1.subrange(base * 1024, cc * 1024) =~= i2.subrange(base * 1024, cc * 1024));
    }
}

} // verus!
