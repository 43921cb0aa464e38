//! The incremental hasher: mode selection, chunking, tree reduction and
//! extendable-output finalization.
//!
//! A `Hasher`'s abstract state is a `HasherModel`: its mode, its key
//! material, its thread policy and the concatenation of every byte fed so
//! far. `update` only ever appends to that byte sequence, and `digest` is a
//! pure function of it, so the digest can depend neither on how the input
//! was split across calls nor on the thread policy.

use vstd::prelude::*;

use crate::model::{
    chunk_count, chunk_output, context_key_bytes, is_pow2, largest_pow2_lt,
    lemma_chunk_count_add, lemma_largest_pow2_lt_split, lemma_low_bit_basics,
    lemma_low_bit_divisor, lemma_low_bit_odd, lemma_stack_model_empty,
    lemma_stack_model_prefix, lemma_subtree_merge, low_bit, mode_key_ok, stack_model, subtree_cv,
    xof_bytes, ModeKind,
};
use crate::dispatch::{chunk_cvs_ok, compress_chunks_par, compress_chunks_seq};
use crate::primitives::{build_pool, chunk_root_bytes, compress_chunk, hash_context_key,
    merge_parents, parent_root_bytes};
use crate::HashError;

verus! {

/// How chunk compression is scheduled: on the calling thread, on a
/// runtime-managed transient pool, or on a dedicated pool of a fixed number
/// of worker threads owned by the hasher.
#[derive(Clone, Copy, Debug, PartialEq, Eq, Structural)]
pub enum ThreadPolicy {
    Single,
    Auto,
    Fixed(usize),
}

/// The abstract state of a hasher: everything its observable behaviour
/// depends on. The digest is a function of `kind`, `key` and `input` alone.
pub ghost struct HasherModel {
    pub kind: ModeKind,
    pub key: Seq<u8>,
    pub policy: ThreadPolicy,
    pub input: Seq<u8>,
}

/// The model of a hasher after one further `update` with `data`.
pub open spec fn updated(m: HasherModel, data: Seq<u8>) -> HasherModel {
    HasherModel { input: m.input + data, ..m }
}

/// The model of a hasher after a `reset`: input discarded, everything else
/// kept.
pub open spec fn reset_model(m: HasherModel) -> HasherModel {
    HasherModel { input: Seq::empty(), ..m }
}

/// An incremental hasher. Construct it with [`Hasher::new`], feed it with
/// [`Hasher::update`], and read any part of its output stream with
/// [`Hasher::digest`], which does not consume or change the hasher.
pub struct Hasher {
    kind: ModeKind,
    key: Vec<u8>,
    policy: ThreadPolicy,
    pool: Option<rayon::ThreadPool>,
    /// Chunks completed and folded into `stack`.
    cc: u64,
    /// Chaining values of the complete subtrees so far, one per set bit of
    /// `cc`, largest subtree at the bottom.
    stack: Vec<Vec<u8>>,
    /// Bytes of the current final chunk; nonempty whenever `cc > 0`, so the
    /// final chunk is never empty.
    buf: Vec<u8>,
    /// All bytes ever fed since construction or the last reset.
    input: Ghost<Seq<u8>>,
}

impl View for Hasher {
    type V = HasherModel;

    closed spec fn view(&self) -> HasherModel {
        HasherModel {
            kind: self.kind,
            key: self.key@,
            policy: self.policy,
            input: self.input@,
        }
    }
}

impl Hasher {
    /// The stack's contents as byte sequences.
    pub closed spec fn stack_views(self) -> Seq<Seq<u8>> {
        self.stack@.map_values(|v: Vec<u8>| v@)
    }

    /// Well-formedness: the key material matches the mode, the counters and
    /// the final-chunk buffer partition the input, the chaining-value stack
    /// is exactly the tree state the input prescribes, and a fixed pool is
    /// held exactly under the fixed policy.
    pub closed spec fn wf(self) -> bool {
        &&& mode_key_ok(self.kind, self.key@)
        &&& self.input@.len() <= u64::MAX
        &&& self.input@.len() == self.cc as int * 1024 + self.buf@.len()
        &&& self.buf@.len() <= 1024
        &&& (self.cc > 0 ==> self.buf@.len() >= 1)
        &&& self.buf@ == self.input@.skip(self.cc as int * 1024)
        &&& self.stack_views() == stack_model(self.kind, self.key@, self.input@, self.cc as int)
        &&& forall|i: int| 0 <= i < self.stack@.len() ==> (#[trigger] self.stack@[i])@.len() == 32
        &&& (self.pool is Some <==> self.policy is Fixed)
        &&& match self.policy {
            ThreadPolicy::Fixed(n) => n >= 2,
            _ => true,
        }
    }
}

/// The error, if any, that the requested mode arguments produce: asking for
/// both a key and a derive-key context is a conflict, and a key of any
/// length other than 32 bytes is invalid.
pub open spec fn mode_error(key: Option<&[u8]>, context: Option<&str>) -> Option<HashError> {
    match (key, context) {
        (Option::Some(_), Option::Some(_)) => Some(HashError::ConflictingMode),
        (Option::Some(k), Option::None) => if k@.len() != 32 {
            Some(HashError::InvalidKey { expected: 32, actual: k@.len() as usize })
        } else {
            None
        },
        _ => None,
    }
}

/// The mode the arguments request, when they produce no error.
pub open spec fn requested_kind(key: Option<&[u8]>, context: Option<&str>) -> ModeKind {
    match (key, context) {
        (Option::Some(_), Option::None) => ModeKind::Keyed,
        (Option::None, Option::Some(_)) => ModeKind::DeriveKeyMaterial,
        _ => ModeKind::Default,
    }
}

/// The key material the arguments request: the key itself for the keyed
/// mode, the hashed context for the derive-key mode, nothing otherwise.
pub open spec fn requested_key(key: Option<&[u8]>, context: Option<&str>) -> Seq<u8> {
    match (key, context) {
        (Option::Some(k), Option::None) => k@,
        (Option::None, Option::Some(c)) => context_key_bytes(c@),
        _ => Seq::empty(),
    }
}

/// The thread policy a `max_threads` argument selects, if it is valid: `1`
/// is single-threaded, the `AUTO` sentinel is automatic, any larger count
/// pins a fixed pool of that many workers.
pub open spec fn policy_of(max_threads: isize) -> Option<ThreadPolicy> {
    if max_threads == 1 {
        Some(ThreadPolicy::Single)
    } else if max_threads == crate::AUTO {
        Some(ThreadPolicy::Auto)
    } else if max_threads > 1 {
        Some(ThreadPolicy::Fixed(max_threads as usize))
    } else {
        None
    }
}

impl Hasher {
    /// Create a hasher for the requested mode and thread policy, holding no
    /// input yet.
    ///
    /// Fails with `ConflictingMode` if both a key and a context are given,
    /// with `InvalidKey` if a key is given whose length is not exactly 32
    /// bytes, with `InvalidThreadCount` if `max_threads` is neither positive
    /// nor `AUTO`, and with `ThreadPoolInit` if a fixed worker pool was
    /// requested and could not be started — under every other policy a valid
    /// request is guaranteed to succeed.
    pub fn new(key: Option<&[u8]>, context: Option<&str>, max_threads: isize) -> (r: Result<
        Hasher,
        HashError,
    >)
        ensures
            match r {
                Ok(h) => {
                    &&& h.wf()
                    &&& mode_error(key, context) is None
                    &&& policy_of(max_threads) == Some(h@.policy)
                    &&& h@.kind == requested_kind(key, context)
                    &&& h@.key == requested_key(key, context)
                    &&& h@.input == Seq::<u8>::empty()
                },
                Err(e) => {
                    &&& (mode_error(key, context) == Some(e)) || (mode_error(key, context) is None
                        && ((policy_of(max_threads) is None && e == HashError::InvalidThreadCount)
                        || (policy_of(max_threads) matches Some(ThreadPolicy::Fixed(_)) && e
                            == HashError::ThreadPoolInit)))
                },
            },
            (mode_error(key, context) is None && (policy_of(max_threads) matches Some(p) && !(p
                is Fixed))) ==> r is Ok,
    {
        let kind: ModeKind;
        let key_material: Vec<u8>;
        match (key, context) {
            (Option::Some(_), Option::Some(_)) => {
                return Err(HashError::ConflictingMode);
            },
            (Option::Some(k), Option::None) => {
                if k.len() != 32 {
                    return Err(HashError::InvalidKey { expected: 32, actual: k.len() });
                }
                kind = ModeKind::Keyed;
                key_material = vstd::slice::slice_to_vec(k);
            },
            (Option::None, Option::Some(c)) => {
                kind = ModeKind::DeriveKeyMaterial;
                key_material = hash_context_key(c);
            },
            (Option::None, Option::None) => {
                kind = ModeKind::Default;
                key_material = Vec::new();
            },
        }
        let policy: ThreadPolicy;
        if max_threads == 1 {
            policy = ThreadPolicy::Single;
        } else if max_threads == crate::AUTO {
            policy = ThreadPolicy::Auto;
        } else if max_threads > 1 {
            policy = ThreadPolicy::Fixed(max_threads as usize);
        } else {
            return Err(HashError::InvalidThreadCount);
        }
        let pool: Option<rayon::ThreadPool> = match policy {
            ThreadPolicy::Fixed(n) => {
                match build_pool(n) {
                    Ok(p) => Some(p),
                    Err(_) => {
                        return Err(HashError::ThreadPoolInit);
                    },
                }
            },
            _ => None,
        };
        let h = Hasher {
            kind,
            key: key_material,
            policy,
            pool,
            cc: 0,
            stack: Vec::new(),
            buf: Vec::new(),
            input: Ghost(Seq::empty()),
        };
        proof {
            assert(h.input@.skip(0) =~= h.buf@);
            assert(h.stack_views() =~= stack_model(h.kind, h.key@, h.input@, 0));
        }
        Ok(h)
    }

    /// How many bytes have been fed since construction or the last reset.
    pub fn total_len(&self) -> (n: u64)
        requires
            self.wf(),
        ensures
            n == self@.input.len(),
    {
        self.cc * 1024 + self.buf.len() as u64
    }

    /// Discard all input fed so far, returning to the state of a fresh
    /// hasher of the same mode and policy; a fixed worker pool is kept for
    /// reuse.
    pub fn reset(&mut self)
        requires
            old(self).wf(),
        ensures
            final(self).wf(),
            final(self)@ == reset_model(old(self)@),
    {
        self.cc = 0;
        self.stack.clear();
        self.buf.clear();
        self.input = Ghost(Seq::empty());
        proof {
            assert(self.input@.skip(0) =~= self.buf@);
            assert(self.stack_views() =~= stack_model(self.kind, self.key@, self.input@, 0));
        }
    }
}

/// An owned copy of a byte vector.
fn clone_bytes(v: &Vec<u8>) -> (r: Vec<u8>)
    ensures
        r@ == v@,
{
    let mut r: Vec<u8> = Vec::new();
    let mut i: usize = 0;
    while i < v.len()
        invariant
            i <= v.len(),
            r@ == v@.take(i as int),
        decreases v.len() - i,
    {
        r.push(v[i]);
        i = i + 1;
        proof {
            assert(v@.take(i as int) =~= v@.take(i as int - 1).push(v@[i as int - 1]));
        }
    }
    proof {
        assert(v@.take(v@.len() as int) =~= v@);
    }
    r
}

/// Append `src[from..to]` to `dst`.
fn extend_bytes(dst: &mut Vec<u8>, src: &[u8], from: usize, to: usize)
    requires
        from <= to <= src@.len(),
    ensures
        final(dst)@ == old(dst)@ + src@.subrange(from as int, to as int),
{
    let mut j = from;
    proof {
        assert(dst@ =~= old(dst)@ + src@.subrange(from as int, from as int));
    }
    while j < to
        invariant
            from <= j <= to <= src@.len(),
            dst@ == old(dst)@ + src@.subrange(from as int, j as int),
        decreases to - j,
    {
        dst.push(src[j]);
        j = j + 1;
        proof {
            assert(old(dst)@ + src@.subrange(from as int, j as int) =~= (old(dst)@ + src@.subrange(
                from as int,
                j as int - 1,
            )).push(src@[j as int - 1]));
        }
    }
}

impl Hasher {
    /// Fold the chaining value of chunk `cc` — whose bytes are the input
    /// range `[cc * 1024, (cc + 1) * 1024)` — into the subtree stack and
    /// advance the chunk counter, merging equal-sized sibling subtrees while
    /// the new counter keeps trailing zero bits.
    fn push_cv(&mut self, cv: &Vec<u8>)
        requires
            mode_key_ok(old(self).kind, old(self).key@),
            old(self).stack_views() == stack_model(
                old(self).kind,
                old(self).key@,
                old(self).input@,
                old(self).cc as int,
            ),
            forall|i: int|
                0 <= i < old(self).stack@.len() ==> (#[trigger] old(self).stack@[i])@.len() == 32,
            cv@.len() == 32,
            (old(self).cc as int + 1) * 1024 <= old(self).input@.len() <= u64::MAX,
            cv@ == chunk_output(
                old(self).kind,
                old(self).key@,
                old(self).cc as int,
                old(self).input@.subrange(
                    old(self).cc as int * 1024,
                    (old(self).cc as int + 1) * 1024,
                ),
            ),
        ensures
            final(self).cc == old(self).cc + 1,
            final(self).stack_views() == stack_model(
                old(self).kind,
                old(self).key@,
                old(self).input@,
                old(self).cc as int + 1,
            ),
            forall|i: int|
                0 <= i < final(self).stack@.len() ==> (#[trigger] final(self).stack@[i])@.len()
                    == 32,
            final(self).kind == old(self).kind,
            final(self).key == old(self).key,
            final(self).policy == old(self).policy,
            final(self).pool == old(self).pool,
            final(self).buf == old(self).buf,
            final(self).input == old(self).input,
    {
        let ghost t: int = self.cc as int + 1;
        let ghost k0 = self.kind;
        let ghost key0 = self.key@;
        let ghost inp = self.input@;
        let mut cur: Vec<u8> = clone_bytes(cv);
        proof {
            assert(t <= t * 1024) by (nonlinear_arith)
                requires
                    t >= 1,
            ;
        }
        let mut total: u64 = self.cc + 1;
        let ghost mut a: int = self.cc as int;
        let ghost mut s: int = 1;
        proof {
            assert(t / 1 == t);
            assert(a % 1 == 0);
            assert(inp.subrange(a * 1024, t * 1024).len() == 1024);
            assert(cur@ == subtree_cv(k0, key0, a, inp.subrange(a * 1024, t * 1024)));
        }
        while total % 2 == 0
            invariant
                self.kind == k0,
                self.key@ == key0,
                self.input@ == inp,
                mode_key_ok(k0, key0),
                0 <= a,
                1 <= s,
                t == a + s,
                is_pow2(s),
                a % s == 0,
                total as int == t / s,
                t * 1024 <= inp.len() <= u64::MAX,
                self.stack_views() == stack_model(k0, key0, inp, a),
                forall|i: int|
                    0 <= i < self.stack@.len() ==> (#[trigger] self.stack@[i])@.len() == 32,
                cur@.len() == 32,
                cur@ == subtree_cv(k0, key0, a, inp.subrange(a * 1024, t * 1024)),
                self.cc == old(self).cc,
                self.key == old(self).key,
                self.policy == old(self).policy,
                self.pool == old(self).pool,
                self.buf == old(self).buf,
                self.input == old(self).input,
            decreases total,
        {
            proof {
                let q = a / s;
                vstd::arithmetic::div_mod::lemma_fundamental_div_mod(a, s);
                assert(a == s * q);
                assert(t == s * (q + 1)) by (nonlinear_arith)
                    requires
                        t == a + s,
                        a == s * q,
                ;
                assert(t / s == q + 1) by {
                    vstd::arithmetic::div_mod::lemma_div_multiples_vanish(q + 1, s);
                }
                lemma_low_bit_odd(s, a);
                assert(q % 2 == 1);
                assert(a >= 1 && low_bit(a) == s);
                lemma_low_bit_basics(a);
                assert(stack_model(k0, key0, inp, a) == stack_model(k0, key0, inp, a - s).push(
                    subtree_cv(k0, key0, a - s, inp.subrange((a - s) * 1024, a * 1024)),
                ));
                assert(self.stack@.len() == self.stack_views().len());
                lemma_stack_model_empty(k0, key0, inp, a);
                assert(self.stack@.len() >= 1);
            }
            let top = self.stack.pop().unwrap();
            proof {
                let pre = stack_model(k0, key0, inp, a);
                assert(top@ == self.stack_views().push(top@).last());
                assert(self.stack_views().push(top@) =~= pre);
                assert(top@ == subtree_cv(k0, key0, a - s, inp.subrange((a - s) * 1024, a * 1024)));
                assert(self.stack_views() =~= pre.drop_last());
                assert(pre.drop_last() == stack_model(k0, key0, inp, a - s));
            }
            let merged = merge_parents(self.kind, &self.key, &top, &cur);
            proof {
                let bl = inp.subrange((a - s) * 1024, a * 1024);
                let br = inp.subrange(a * 1024, t * 1024);
                assert(bl.len() == s * 1024) by (nonlinear_arith)
                    requires
                        bl.len() == a * 1024 - (a - s) * 1024,
                ;
                assert(br.len() == s * 1024) by (nonlinear_arith)
                    requires
                        br.len() == t * 1024 - a * 1024,
                        t == a + s,
                ;
                lemma_chunk_count_add(s - 1, 1024);
                assert((s - 1) * 1024 + 1024 == s * 1024) by (nonlinear_arith);
                assert(chunk_count(s * 1024) == s);
                lemma_subtree_merge(k0, key0, a - s, s, bl, br);
                assert(bl + br =~= inp.subrange((a - s) * 1024, t * 1024));
                assert(merged@ == subtree_cv(
                    k0,
                    key0,
                    a - s,
                    inp.subrange((a - s) * 1024, t * 1024),
                ));
            }
            cur = merged;
            total = total / 2;
            proof {
                let q = a / s;
                let h = (q - 1) / 2;
                assert(q - 1 == 2 * h);
                let a2 = a - s;
                assert(a2 == s * (q - 1)) by (nonlinear_arith)
                    requires
                        a == s * q,
                        a2 == a - s,
                ;
                assert(a2 == (2 * s) * h) by (nonlinear_arith)
                    requires
                        a2 == s * (q - 1),
                        q - 1 == 2 * h,
                ;
                assert(a2 % (2 * s) == 0) by {
                    vstd::arithmetic::div_mod::lemma_mod_multiples_basic(h, 2 * s);
                    assert(h * (2 * s) == (2 * s) * h) by (nonlinear_arith);
                }
                assert(t == (2 * s) * (h + 1)) by (nonlinear_arith)
                    requires
                        t == s * (q + 1),
                        q + 1 == 2 * h + 2,
                ;
                assert(t / (2 * s) == h + 1) by {
                    vstd::arithmetic::div_mod::lemma_div_multiples_vanish(h + 1, 2 * s);
                }
                assert(total as int == h + 1);
                a = a2;
                s = 2 * s;
            }
        }
        self.stack.push(cur);
        self.cc = self.cc + 1;
        proof {
            let q = a / s;
            vstd::arithmetic::div_mod::lemma_fundamental_div_mod(a, s);
            assert(a == s * q);
            assert(t == s * (q + 1)) by (nonlinear_arith)
                requires
                    t == a + s,
                    a == s * q,
            ;
            assert(t / s == q + 1) by {
                vstd::arithmetic::div_mod::lemma_div_multiples_vanish(q + 1, s);
            }
            assert((q + 1) % 2 == 1);
            assert(t % s == 0) by {
                vstd::arithmetic::div_mod::lemma_mod_multiples_basic(q + 1, s);
                assert((q + 1) * s == s * (q + 1)) by (nonlinear_arith);
            }
            lemma_low_bit_odd(s, t);
            assert(low_bit(t) == s);
            assert(stack_model(k0, key0, inp, t) == stack_model(k0, key0, inp, a).push(
                subtree_cv(k0, key0, a, inp.subrange(a * 1024, t * 1024)),
            ));
            assert(self.stack_views() =~= stack_model(k0, key0, inp, t));
        }
    }
}

impl Hasher {
    /// Compress the whole chunks of `data` — whose first chunk has global
    /// index `start` — under this hasher's thread policy: in order on the
    /// calling thread, on the shared runtime pool, or on the hasher's own
    /// fixed pool. The contract is the same for all three schedules.
    fn dispatch_compress(&self, start: u64, data: &[u8]) -> (r: Vec<Vec<u8>>)
        requires
            mode_key_ok(self.kind, self.key@),
            self.pool is Some <==> self.policy is Fixed,
            data@.len() % 1024 == 0,
            start as int * 1024 + data@.len() <= u64::MAX,
        ensures
            chunk_cvs_ok(self.kind, self.key@, start as int, data@, r@),
    {
        match self.policy {
            ThreadPolicy::Single => compress_chunks_seq(self.kind, &self.key, start, data),
            ThreadPolicy::Auto => compress_chunks_par(self.kind, &self.key, start, data),
            ThreadPolicy::Fixed(_) => {
                let kind = self.kind;
                let key = &self.key;
                let f = || -> (rv: Vec<Vec<u8>>)
                    requires
                        mode_key_ok(kind, key@),
                        data@.len() % 1024 == 0,
                        start as int * 1024 + data@.len() <= u64::MAX,
                    ensures
                        chunk_cvs_ok(kind, key@, start as int, data@, rv@),
                    { compress_chunks_par(kind, key, start, data) };
                let p = self.pool.as_ref().unwrap();
                p.install(f)
            },
        }
    }

    /// Feed `data` into the hasher. Appends to the input fed so far; the
    /// chunk boundaries of the tree are measured from the start of all input
    /// ever fed, so how the input is split across `update` calls cannot
    /// matter. An empty `data` changes nothing. The total input must fit the
    /// engine's 64-bit byte addressing.
    pub fn update(&mut self, data: &[u8])
        requires
            old(self).wf(),
            old(self)@.input.len() + data@.len() <= u64::MAX,
        ensures
            final(self).wf(),
            final(self)@ == updated(old(self)@, data@),
    {
        let ghost k0 = self.kind;
        let ghost key0 = self.key@;
        let mut i: usize = 0;
        proof {
            assert(self.input@ =~= old(self).input@ + data@.subrange(0, 0));
        }
        while i < data.len()
            invariant
                i <= data@.len(),
                self.kind == k0,
                self.key@ == key0,
                self.key == old(self).key,
                self.policy == old(self).policy,
                self.pool == old(self).pool,
                self.pool is Some <==> self.policy is Fixed,
                mode_key_ok(k0, key0),
                old(self)@.input.len() + data@.len() <= u64::MAX,
                self.input@ == old(self).input@ + data@.subrange(0, i as int),
                self.input@.len() == self.cc as int * 1024 + self.buf@.len(),
                self.buf@.len() <= 1024,
                (self.cc > 0 ==> self.buf@.len() >= 1 || i < data@.len()),
                self.buf@ == self.input@.skip(self.cc as int * 1024),
                self.stack_views() == stack_model(k0, key0, self.input@, self.cc as int),
                forall|t: int|
                    0 <= t < self.stack@.len() ==> (#[trigger] self.stack@[t])@.len() == 32,
            decreases data@.len() - i,
        {
            if self.buf.len() == 1024 {
                proof {
                    assert(self.buf@ =~= self.input@.subrange(
                        self.cc as int * 1024,
                        (self.cc as int + 1) * 1024,
                    ));
                }
                let cv = compress_chunk(self.kind, &self.key, self.cc, self.buf.as_slice());
                self.push_cv(&cv);
                self.buf.clear();
                proof {
                    assert(self.input@.skip(self.cc as int * 1024) =~= self.buf@);
                }
            }
            if self.buf.len() == 0 && data.len() - i > 1024 {
                // A run of whole chunks: compress it under the thread
                // policy, leaving at least one byte for the final chunk.
                let rem = data.len() - i;
                let nfull = (rem - 1) / 1024;
                proof {
                    vstd::arithmetic::div_mod::lemma_fundamental_div_mod(rem as int - 1, 1024);
                    assert(nfull >= 1);
                    assert(nfull * 1024 <= rem - 1) by (nonlinear_arith)
                        requires
                            rem as int - 1 == 1024 * (nfull as int) + (rem as int - 1) % 1024,
                            (rem as int - 1) % 1024 >= 0,
                    ;
                    assert((nfull * 1024) % 1024 == 0) by {
                        vstd::arithmetic::div_mod::lemma_mod_multiples_basic(nfull as int, 1024);
                    }
                }
                let batch_len = nfull * 1024;
                let batch: &[u8] = &data[i..i + batch_len];
                let ghost pre_input = self.input@;
                let ghost cc0: int = self.cc as int;
                self.input = Ghost(pre_input + batch@);
                proof {
                    assert(pre_input.len() == cc0 * 1024);
                    assert(self.input@.take(pre_input.len() as int) =~= pre_input);
                    lemma_stack_model_prefix(k0, key0, pre_input, self.input@, cc0);
                }
                let cvs = self.dispatch_compress(self.cc, batch);
                let ghost inp2 = self.input@;
                let mut t: usize = 0;
                while t < cvs.len()
                    invariant
                        0 <= t <= cvs@.len(),
                        self.kind == k0,
                        self.key@ == key0,
                        self.key == old(self).key,
                        self.policy == old(self).policy,
                        self.pool == old(self).pool,
                        mode_key_ok(k0, key0),
                        self.input@ == inp2,
                        inp2 == pre_input + batch@,
                        pre_input.len() == cc0 * 1024,
                        inp2.len() <= u64::MAX,
                        chunk_cvs_ok(k0, key0, cc0, batch@, cvs@),
                        cvs@.len() * 1024 == batch@.len(),
                        self.cc as int == cc0 + t,
                        self.buf@.len() == 0,
                        self.stack_views() == stack_model(k0, key0, inp2, cc0 + t),
                        forall|w: int|
                            0 <= w < self.stack@.len() ==> (#[trigger] self.stack@[w])@.len()
                                == 32,
                    decreases cvs@.len() - t,
                {
                    proof {
                        assert((cc0 + t + 1) * 1024 <= inp2.len()) by (nonlinear_arith)
                            requires
                                t + 1 <= cvs@.len(),
                                inp2.len() == cc0 * 1024 + cvs@.len() * 1024,
                        ;
                        assert(batch@.subrange(t as int * 1024, t as int * 1024 + 1024) =~= inp2
                            .subrange((cc0 + t) * 1024, (cc0 + t + 1) * 1024)) by {
                            assert((cc0 + t) * 1024 == cc0 * 1024 + t as int * 1024)
                                by (nonlinear_arith);
                        }
                    }
                    let cv = &cvs[t];
                    self.push_cv(cv);
                    t = t + 1;
                }
                i = i + batch_len;
                proof {
                    assert(self.input@ =~= old(self).input@ + data@.subrange(0, i as int));
                    assert(self.input@.len() == self.cc as int * 1024);
                    assert(self.input@.skip(self.cc as int * 1024) =~= self.buf@);
                }
                continue ;
            }
            let room = 1024 - self.buf.len();
            let rem = data.len() - i;
            let take = if room < rem {
                room
            } else {
                rem
            };
            let ghost pre_input = self.input@;
            let ghost pre_buf = self.buf@;
            extend_bytes(&mut self.buf, data, i, i + take);
            self.input = Ghost(pre_input + data@.subrange(i as int, (i + take) as int));
            i = i + take;
            proof {
                let d2 = data@.subrange(i as int - take as int, i as int);
                assert(self.input@ =~= old(self).input@ + data@.subrange(0, i as int));
                assert(self.input@.skip(self.cc as int * 1024) =~= pre_buf + d2);
                assert(self.input@.take(pre_input.len() as int) =~= pre_input);
                lemma_stack_model_prefix(k0, key0, pre_input, self.input@, self.cc as int);
            }
        }
        proof {
            assert(data@.subrange(0, data@.len() as int) =~= data@);
            assert(self@ == updated(old(self)@, data@));
        }
    }
}

/// Which shape the root of the finished tree has: a lone chunk holding the
/// whole input, or a parent node over the two top-level subtree chaining
/// values.
enum RootNode {
    Chunk(Vec<u8>),
    Parent(Vec<u8>, Vec<u8>),
}

/// The abstract state of an output reader: the mode, key material and
/// input it was finalized over, and its current read position.
pub ghost struct ReaderModel {
    pub kind: ModeKind,
    pub key: Seq<u8>,
    pub input: Seq<u8>,
    pub position: u64,
}

/// A seekable reader over the infinite output stream of a finished tree.
/// Obtained from [`Hasher::finalize_xof`]; independent of the hasher that
/// produced it, so later updates to that hasher cannot affect it.
pub struct OutputReader {
    kind: ModeKind,
    key: Vec<u8>,
    root: RootNode,
    position: u64,
    /// The input the tree was finalized over.
    input: Ghost<Seq<u8>>,
}

impl View for OutputReader {
    type V = ReaderModel;

    closed spec fn view(&self) -> ReaderModel {
        ReaderModel {
            kind: self.kind,
            key: self.key@,
            input: self.input@,
            position: self.position,
        }
    }
}

impl OutputReader {
    /// Well-formedness: the key material matches the mode and the stored
    /// root is exactly the root the input prescribes — the whole input as
    /// one chunk, or the chaining values of the two top-level subtrees.
    pub closed spec fn wf(self) -> bool {
        &&& mode_key_ok(self.kind, self.key@)
        &&& self.input@.len() <= u64::MAX
        &&& match self.root {
            RootNode::Chunk(b) => b@ == self.input@ && self.input@.len() <= 1024,
            RootNode::Parent(l, r) => {
                let lc = largest_pow2_lt(chunk_count(self.input@.len() as int));
                &&& self.input@.len() > 1024
                &&& l@.len() == 32
                &&& r@.len() == 32
                &&& l@ == subtree_cv(self.kind, self.key@, 0, self.input@.take(lc * 1024))
                &&& r@ == subtree_cv(self.kind, self.key@, lc, self.input@.skip(lc * 1024))
            },
        }
    }

    /// The current read position in the output stream.
    pub fn position(&self) -> (p: u64)
        ensures
            p == self@.position,
    {
        self.position
    }

    /// Move the read position to an absolute byte offset in the output
    /// stream.
    pub fn set_position(&mut self, position: u64)
        requires
            old(self).wf(),
        ensures
            final(self).wf(),
            final(self)@ == (ReaderModel { position, ..old(self)@ }),
    {
        self.position = position;
    }

    /// Read the next `count` bytes of the output stream and advance the
    /// position past them. Fails with `LengthOverflow` — and only with it,
    /// leaving the reader unchanged — exactly when `count` exceeds the
    /// platform's signed addressing limit or the read would run past the
    /// end of the 2^64 - 1 byte stream.
    pub fn fill(&mut self, count: usize) -> (r: Result<Vec<u8>, HashError>)
        requires
            old(self).wf(),
        ensures
            final(self).wf(),
            (r is Ok) <==> (count <= isize::MAX && old(self)@.position + count <= u64::MAX),
            r matches Err(e) ==> e == HashError::LengthOverflow && final(self)@ == old(self)@,
            r matches Ok(v) ==> {
                &&& v@ == xof_bytes(
                    old(self)@.kind,
                    old(self)@.key,
                    old(self)@.input,
                    old(self)@.position as int,
                    count as int,
                )
                &&& final(self)@ == (ReaderModel {
                    position: (old(self)@.position + count) as u64,
                    ..old(self)@
                })
            },
    {
        if count > isize::MAX as usize {
            return Err(HashError::LengthOverflow);
        }
        if (count as u64) > u64::MAX - self.position {
            return Err(HashError::LengthOverflow);
        }
        let out = match &self.root {
            RootNode::Chunk(b) => chunk_root_bytes(
                self.kind,
                &self.key,
                b.as_slice(),
                self.position,
                count,
            ),
            RootNode::Parent(l, r) => parent_root_bytes(
                self.kind,
                &self.key,
                l,
                r,
                self.position,
                count,
            ),
        };
        proof {
            assert(out@ =~= xof_bytes(
                self.kind,
                self.key@,
                self.input@,
                self.position as int,
                count as int,
            ));
        }
        self.position = self.position + count as u64;
        Ok(out)
    }
}

impl Hasher {
    /// Complete the tree over the input fed so far — folding the pending
    /// final chunk and the subtree stack up to the root — and return a
    /// reader over the resulting output stream, positioned at 0. Does not
    /// change the hasher, and the reader owns everything it needs: feeding
    /// the hasher afterwards cannot affect it.
    pub fn finalize_xof(&self) -> (r: OutputReader)
        requires
            self.wf(),
        ensures
            r.wf(),
            r@ == (ReaderModel {
                kind: self@.kind,
                key: self@.key,
                input: self@.input,
                position: 0,
            }),
    {
        let ghost k0 = self.kind;
        let ghost key0 = self.key@;
        let ghost inp = self.input@;
        if self.cc == 0 {
            proof {
                assert(self.buf@ =~= inp);
            }
            return OutputReader {
                kind: self.kind,
                key: clone_bytes(&self.key),
                root: RootNode::Chunk(clone_bytes(&self.buf)),
                position: 0,
                input: Ghost(inp),
            };
        }
        proof {
            assert(self.buf@ =~= inp.skip(self.cc as int * 1024));
            lemma_stack_model_empty(k0, key0, inp, self.cc as int);
            assert(self.stack@.len() == self.stack_views().len());
            lemma_low_bit_basics(self.cc as int);
        }
        let mut cur = compress_chunk(self.kind, &self.key, self.cc, self.buf.as_slice());
        let mut j = self.stack.len();
        let ghost mut a: int = self.cc as int;
        proof {
            assert(self.stack_views().take(j as int) =~= self.stack_views());
        }
        while j > 1
            invariant
                self.wf(),
                k0 == self.kind,
                key0 == self.key@,
                inp == self.input@,
                self.cc >= 1,
                1 <= j <= self.stack@.len(),
                1 <= a <= self.cc,
                self.stack_views().take(j as int) == stack_model(k0, key0, inp, a),
                cur@.len() == 32,
                cur@ == subtree_cv(k0, key0, a, inp.skip(a * 1024)),
                self.cc as int + 1 - a <= low_bit(a),
            decreases j,
        {
            j = j - 1;
            proof {
                lemma_low_bit_basics(a);
                let p = low_bit(a);
                assert(stack_model(k0, key0, inp, a) == stack_model(k0, key0, inp, a - p).push(
                    subtree_cv(k0, key0, a - p, inp.subrange((a - p) * 1024, a * 1024)),
                ));
                assert(self.stack_views().take(j as int + 1).last() == self.stack_views()[
                    j as int
                ]);
                assert(self.stack_views()[j as int] == subtree_cv(
                    k0,
                    key0,
                    a - p,
                    inp.subrange((a - p) * 1024, a * 1024),
                ));
                assert(self.stack_views().take(j as int) =~= self.stack_views().take(
                    j as int + 1,
                ).drop_last());
                assert(self.stack_views().take(j as int) == stack_model(k0, key0, inp, a - p));
            }
            let e = &self.stack[j];
            let merged = merge_parents(self.kind, &self.key, e, &cur);
            proof {
                let p = low_bit(a);
                let bl = inp.subrange((a - p) * 1024, a * 1024);
                let br = inp.skip(a * 1024);
                assert(bl.len() == p * 1024) by (nonlinear_arith)
                    requires
                        bl.len() == a * 1024 - (a - p) * 1024,
                ;
                assert(br.len() == (self.cc as int - a) * 1024 + self.buf@.len()) by (nonlinear_arith)
                    requires
                        br.len() == inp.len() - a * 1024,
                        inp.len() == self.cc as int * 1024 + self.buf@.len(),
                ;
                assert(br.len() >= 1);
                lemma_chunk_count_add(self.cc as int - a, self.buf@.len() as int);
                assert(chunk_count(br.len() as int) == self.cc as int - a + 1);
                lemma_subtree_merge(k0, key0, a - p, p, bl, br);
                assert(bl + br =~= inp.skip((a - p) * 1024));
                assert(merged@ == subtree_cv(k0, key0, a - p, inp.skip((a - p) * 1024)));
                // The remaining bound: everything to the right of the next
                // stack entry still fits under its subtree size.
                lemma_low_bit_odd(p, a);
                let q = a / p;
                vstd::arithmetic::div_mod::lemma_fundamental_div_mod(a, p);
                assert(a == p * q);
                assert(q % 2 == 1);
                let h = (q - 1) / 2;
                assert(q - 1 == 2 * h);
                assert(a - p == (2 * p) * h) by (nonlinear_arith)
                    requires
                        a == p * q,
                        q - 1 == 2 * h,
                ;
                assert((a - p) % (2 * p) == 0) by {
                    vstd::arithmetic::div_mod::lemma_mod_multiples_basic(h, 2 * p);
                    assert(h * (2 * p) == (2 * p) * h) by (nonlinear_arith);
                }
                lemma_stack_model_empty(k0, key0, inp, a - p);
                assert(a - p >= 1);
                lemma_low_bit_divisor(2 * p, a - p);
                assert(low_bit(a - p) >= 2 * p);
                a = a - p;
            }
            cur = merged;
        }
        proof {
            lemma_low_bit_basics(a);
            let p = low_bit(a);
            assert(stack_model(k0, key0, inp, a) == stack_model(k0, key0, inp, a - p).push(
                subtree_cv(k0, key0, a - p, inp.subrange((a - p) * 1024, a * 1024)),
            ));
            lemma_stack_model_empty(k0, key0, inp, a - p);
            assert(stack_model(k0, key0, inp, a).len() == 1);
            assert(a - p == 0);
            assert(is_pow2(a));
            assert(self.stack_views().take(1).last() == self.stack_views()[0]);
            assert(self.stack_views()[0] == subtree_cv(k0, key0, 0, inp.subrange(0, a * 1024)));
            lemma_chunk_count_add(self.cc as int, self.buf@.len() as int);
            assert(chunk_count(inp.len() as int) == self.cc as int + 1);
            lemma_largest_pow2_lt_split(a, self.cc as int + 1 - a);
            assert(largest_pow2_lt(chunk_count(inp.len() as int)) == a);
            assert(inp.len() > 1024) by (nonlinear_arith)
                requires
                    inp.len() == self.cc as int * 1024 + self.buf@.len(),
                    self.cc >= 1,
                    self.buf@.len() >= 1,
            ;
            assert(inp.take(a * 1024) =~= inp.subrange(0, a * 1024));
        }
        let left = clone_bytes(&self.stack[0]);
        OutputReader {
            kind: self.kind,
            key: clone_bytes(&self.key),
            root: RootNode::Parent(left, cur),
            position: 0,
            input: Ghost(inp),
        }
    }

    /// Read `length` bytes of the output stream, starting at absolute
    /// position `seek`. Does not change the hasher: it may be called again,
    /// and interleaved with further updates, each call reflecting exactly
    /// the input fed so far. Fails with `LengthOverflow` — and only with it —
    /// exactly when `length` exceeds the platform's signed addressing limit
    /// or the requested range runs past the end of the 2^64 - 1 byte output
    /// stream.
    pub fn digest(&self, length: usize, seek: u64) -> (r: Result<Vec<u8>, HashError>)
        requires
            self.wf(),
        ensures
            (r is Ok) <==> (length <= isize::MAX && seek + length <= u64::MAX),
            r matches Err(e) ==> e == HashError::LengthOverflow,
            r matches Ok(v) ==> v@ == xof_bytes(
                self@.kind,
                self@.key,
                self@.input,
                seek as int,
                length as int,
            ),
    {
        let mut reader = self.finalize_xof();
        reader.set_position(seek);
        match reader.fill(length) {
            Ok(v) => Ok(v),
            Err(e) => Err(e),
        }
    }
}

impl Hasher {
    /// Feed a caller-owned byte range that arrived through the host's
    /// buffer protocol: the handle's shape is admitted first, and only an
    /// admissible one-byte-wide contiguous view is fed. Fails exactly as
    /// the admission rule prescribes, leaving the hasher unchanged; on an
    /// admitted buffer it behaves exactly like [`Hasher::update`].
    pub fn update_buffer(&mut self, shape: &crate::buffer::BufferShape, data: &[u8]) -> (r:
        Result<(), HashError>)
        requires
            old(self).wf(),
            old(self)@.input.len() + data@.len() <= u64::MAX,
        ensures
            final(self).wf(),
            r == crate::buffer::admission(*shape),
            r is Ok ==> final(self)@ == updated(old(self)@, data@),
            r is Err ==> final(self)@ == old(self)@,
    {
        match crate::buffer::admit_buffer(shape) {
            Ok(()) => {
                self.update(data);
                Ok(())
            },
            Err(e) => Err(e),
        }
    }
}

impl Hasher {
    /// Read `length` output-stream bytes starting at position `seek`, as a
    /// lowercase hexadecimal string of `2 * length` characters. Does not
    /// change the hasher. Fails with `LengthOverflow` — and only with it —
    /// exactly when the doubled length exceeds the platform's signed
    /// addressing limit or the byte range runs past the end of the output
    /// stream.
    pub fn hexdigest(&self, length: usize, seek: u64) -> (r: Result<String, HashError>)
        requires
            self.wf(),
        ensures
            (r is Ok) <==> (length <= isize::MAX / 2 && seek + length <= u64::MAX),
            r matches Err(e) ==> e == HashError::LengthOverflow,
            r matches Ok(s) ==> s@ == crate::hexcode::hex_of(
                xof_bytes(self@.kind, self@.key, self@.input, seek as int, length as int),
            ),
    {
        if length > (isize::MAX / 2) as usize {
            return Err(HashError::LengthOverflow);
        }
        if (length as u64) > u64::MAX - seek {
            return Err(HashError::LengthOverflow);
        }
        match self.digest(length, seek) {
            Ok(bytes) => Ok(crate::hexcode::bytes_to_hex(&bytes)),
            Err(e) => Err(e),
        }
    }
}

/// An owned copy of a stack of byte vectors.
fn clone_stack(v: &Vec<Vec<u8>>) -> (r: Vec<Vec<u8>>)
    ensures
        r@.len() == v@.len(),
        forall|i: int| 0 <= i < v@.len() ==> (#[trigger] r@[i])@ == v@[i]@,
{
    let mut r: Vec<Vec<u8>> = Vec::new();
    let mut i: usize = 0;
    while i < v.len()
        invariant
            i <= v@.len(),
            r@.len() == i,
            forall|t: int| 0 <= t < i ==> (#[trigger] r@[t])@ == v@[t]@,
        decreases v@.len() - i,
    {
        r.push(clone_bytes(&v[i]));
        i = i + 1;
    }
    r
}

impl Hasher {
    /// An independent duplicate of the hasher: same mode, same input so
    /// far, same thread policy, but no shared mutable state — under the
    /// fixed policy a fresh worker pool of the same size is built, which is
    /// the one way copying can fail (`ThreadPoolInit`); under every other
    /// policy copying is guaranteed to succeed.
    pub fn copy(&self) -> (r: Result<Hasher, HashError>)
        requires
            self.wf(),
        ensures
            r matches Ok(h) ==> h.wf() && h@ == self@,
            r matches Err(e) ==> e == HashError::ThreadPoolInit && self@.policy is Fixed,
            !(self@.policy is Fixed) ==> r is Ok,
    {
        let pool: Option<rayon::ThreadPool> = match self.policy {
            ThreadPolicy::Fixed(n) => {
                match build_pool(n) {
                    Ok(p) => Some(p),
                    Err(_) => {
                        return Err(HashError::ThreadPoolInit);
                    },
                }
            },
            _ => None,
        };
        let h = Hasher {
            kind: self.kind,
            key: clone_bytes(&self.key),
            policy: self.policy,
            pool,
            cc: self.cc,
            stack: clone_stack(&self.stack),
            buf: clone_bytes(&self.buf),
            input: Ghost(self.input@),
        };
        proof {
            assert(h.stack_views() =~= self.stack_views());
        }
        Ok(h)
    }
}

} // verus!
