//! Tests of the hash engine against the reference implementation and the
//! published known-answer vectors.

use b3engine::engine::Hasher;
use b3engine::HashError;

/// A deterministic input pattern, the same one the reference test vectors
/// use: byte `i` is `i % 251`.
fn pattern(len: usize) -> Vec<u8> {
    let mut v = Vec::with_capacity(len);
    for i in 0..len {
        v.push((i % 251) as u8);
    }
    v
}

fn reference_digest(input: &[u8], length: usize, seek: u64) -> Vec<u8> {
    let mut hasher = blake3::Hasher::new();
    hasher.update(input);
    let mut reader = hasher.finalize_xof();
    reader.set_position(seek);
    let mut out = vec![0u8; length];
    reader.fill(&mut out);
    out
}

#[test]
fn empty_input_known_answer() {
    let h = Hasher::new(None, None, 1).unwrap();
    let d = h.digest(32, 0).unwrap();
    assert_eq!(
        hex::encode(&d),
        "af1349b9f5f9a1a6a0404dea36dcc9499bcb25c9adc112b7cc9a93cae41f3262"
    );
    assert_eq!(d.as_slice(), blake3::hash(b"").as_bytes());
}

#[test]
fn abc_known_answer() {
    let mut h = Hasher::new(None, None, 1).unwrap();
    h.update(b"abc");
    let d = h.digest(32, 0).unwrap();
    assert_eq!(d.as_slice(), blake3::hash(b"abc").as_bytes());
    assert_eq!(
        hex::encode(&d),
        "6437b3ac38465133ffb63b75273a8db548c558465d79db03fd359c6cd5bd9d85"
    );
}

#[test]
fn matches_reference_across_lengths() {
    for &len in &[
        0usize, 1, 63, 64, 65, 1023, 1024, 1025, 2047, 2048, 2049, 3072, 3073, 4096, 5000, 8192,
        10000, 31744, 65536, 66601,
    ] {
        let input = pattern(len);
        let mut h = Hasher::new(None, None, 1).unwrap();
        h.update(&input);
        let d = h.digest(32, 0).unwrap();
        assert_eq!(d.as_slice(), blake3::hash(&input).as_bytes(), "length {}", len);
    }
}

#[test]
fn xof_matches_reference() {
    let input = pattern(70000);
    let mut h = Hasher::new(None, None, 1).unwrap();
    h.update(&input);
    assert_eq!(h.digest(1000, 0).unwrap(), reference_digest(&input, 1000, 0));
    assert_eq!(h.digest(100, 12345).unwrap(), reference_digest(&input, 100, 12345));
    assert_eq!(h.digest(1, 0).unwrap(), reference_digest(&input, 1, 0));
    assert_eq!(h.digest(0, 77).unwrap(), reference_digest(&input, 0, 77));
}

#[test]
fn keyed_mode_matches_reference() {
    let key = [42u8; 32];
    let input = pattern(5000);
    let mut h = Hasher::new(Some(&key[..]), None, 1).unwrap();
    h.update(&input);
    let d = h.digest(32, 0).unwrap();
    assert_eq!(d.as_slice(), blake3::keyed_hash(&key, &input).as_bytes());

    let mut reference = blake3::Hasher::new_keyed(&key);
    reference.update(&input);
    let mut reader = reference.finalize_xof();
    reader.set_position(9);
    let mut expected = vec![0u8; 200];
    reader.fill(&mut expected);
    assert_eq!(h.digest(200, 9).unwrap(), expected);
}

#[test]
fn derive_key_mode_matches_reference() {
    let context = "b3engine 2026 test context";
    let input = pattern(3000);
    let mut h = Hasher::new(None, Some(context), 1).unwrap();
    h.update(&input);
    let d = h.digest(32, 0).unwrap();
    assert_eq!(d.as_slice(), &blake3::derive_key(context, &input));
}

#[test]
fn fragmentation_is_invisible() {
    let input = pattern(10000);
    let mut whole = Hasher::new(None, None, 1).unwrap();
    whole.update(&input);
    let expected = whole.digest(32, 0).unwrap();

    for &splits in &[
        &[1usize, 9999][..],
        &[1023, 1, 8976][..],
        &[1024, 1024, 7952][..],
        &[5000, 5000][..],
        &[0, 10000, 0][..],
        &[2500, 2500, 2500, 2500][..],
    ] {
        let mut h = Hasher::new(None, None, 1).unwrap();
        let mut at = 0;
        for &n in splits {
            h.update(&input[at..at + n]);
            at += n;
        }
        assert_eq!(at, input.len());
        assert_eq!(h.digest(32, 0).unwrap(), expected, "splits {:?}", splits);
    }
}

#[test]
fn thread_policy_is_invisible() {
    let input = pattern(100 * 1024 + 17);
    let mut expected = None;
    for &threads in &[1isize, b3engine::AUTO, 2, 8] {
        let mut h = Hasher::new(None, None, threads).unwrap();
        h.update(&input);
        let d = h.digest(64, 0).unwrap();
        assert_eq!(d.as_slice(), reference_digest(&input, 64, 0).as_slice());
        match &expected {
            None => expected = Some(d),
            Some(e) => assert_eq!(&d, e, "threads {}", threads),
        }
    }
}

#[test]
fn output_stream_is_consistent() {
    let input = pattern(2048);
    let mut h = Hasher::new(None, None, 1).unwrap();
    h.update(&input);
    let l1 = 100usize;
    let l2 = 37usize;
    let s = 5u64;
    let first = h.digest(l1, s).unwrap();
    let second = h.digest(l2, s + l1 as u64).unwrap();
    let joined = h.digest(l1 + l2, s).unwrap();
    let mut glued = first.clone();
    glued.extend_from_slice(&second);
    assert_eq!(glued, joined);
}

#[test]
fn short_digest_is_a_prefix() {
    let mut h = Hasher::new(None, None, 1).unwrap();
    h.update(b"prefix property");
    let short = h.digest(32, 0).unwrap();
    let long = h.digest(64, 0).unwrap();
    assert_eq!(&long[..32], short.as_slice());
}

#[test]
fn key_length_is_validated() {
    let short = [7u8; 31];
    let long = [7u8; 33];
    let exact = [7u8; 32];
    assert_eq!(
        Hasher::new(Some(&short[..]), None, 1).err().unwrap(),
        HashError::InvalidKey { expected: 32, actual: 31 }
    );
    assert_eq!(
        Hasher::new(Some(&long[..]), None, 1).err().unwrap(),
        HashError::InvalidKey { expected: 32, actual: 33 }
    );
    assert!(Hasher::new(Some(&exact[..]), None, 1).is_ok());
}

#[test]
fn key_and_context_conflict() {
    let key = [1u8; 32];
    assert_eq!(
        Hasher::new(Some(&key[..]), Some("ctx"), 1).err().unwrap(),
        HashError::ConflictingMode
    );
}

#[test]
fn thread_count_is_validated() {
    assert_eq!(Hasher::new(None, None, 0).err().unwrap(), HashError::InvalidThreadCount);
    assert_eq!(Hasher::new(None, None, -2).err().unwrap(), HashError::InvalidThreadCount);
    assert!(Hasher::new(None, None, b3engine::AUTO).is_ok());
    assert!(Hasher::new(None, None, 2).is_ok());
}

#[test]
fn reset_discards_input() {
    let x = pattern(4000);
    let y = pattern(1234);
    let mut h = Hasher::new(None, None, 1).unwrap();
    h.update(&x);
    h.reset();
    h.update(&y);
    let mut fresh = Hasher::new(None, None, 1).unwrap();
    fresh.update(&y);
    assert_eq!(h.digest(32, 0).unwrap(), fresh.digest(32, 0).unwrap());
}

#[test]
fn copy_is_independent() {
    let mut h1 = Hasher::new(None, None, 1).unwrap();
    h1.update(b"shared prefix");
    let before = h1.digest(32, 0).unwrap();
    let mut h2 = h1.copy().unwrap();
    h2.update(b" and a suffix only the copy sees");
    assert_eq!(h1.digest(32, 0).unwrap(), before);
    assert_ne!(h2.digest(32, 0).unwrap(), before);
}

#[test]
fn copy_with_fixed_pool_is_independent() {
    let input = pattern(8000);
    let mut h1 = Hasher::new(None, None, 4).unwrap();
    h1.update(&input);
    let mut h2 = h1.copy().unwrap();
    h2.update(&input);
    assert_eq!(h1.digest(32, 0).unwrap().as_slice(), blake3::hash(&input).as_bytes());
    let mut doubled = input.clone();
    doubled.extend_from_slice(&input);
    assert_eq!(h2.digest(32, 0).unwrap().as_slice(), blake3::hash(&doubled).as_bytes());
}

#[test]
fn length_overflow_is_reported() {
    let h = Hasher::new(None, None, 1).unwrap();
    assert_eq!(h.digest(usize::MAX, 0).err().unwrap(), HashError::LengthOverflow);
    assert_eq!(h.digest(32, u64::MAX).err().unwrap(), HashError::LengthOverflow);
    assert_eq!(h.hexdigest(usize::MAX / 2, 0).err().unwrap(), HashError::LengthOverflow);
    // The very end of the output stream is still addressable.
    assert!(h.digest(32, u64::MAX - 32).is_ok());
}

#[test]
fn hexdigest_matches_hex_encoding() {
    let mut h = Hasher::new(None, None, 1).unwrap();
    h.update(b"hex me");
    let bytes = h.digest(48, 3).unwrap();
    let hexed = h.hexdigest(48, 3).unwrap();
    assert_eq!(hexed, hex::encode(&bytes));
    assert_eq!(hexed.len(), 96);
}

#[test]
fn digest_does_not_consume_the_hasher() {
    let mut h = Hasher::new(None, None, 1).unwrap();
    h.update(b"first");
    let d1 = h.digest(32, 0).unwrap();
    assert_eq!(h.digest(32, 0).unwrap(), d1);
    h.update(b"second");
    let mut reference = Hasher::new(None, None, 1).unwrap();
    reference.update(b"firstsecond");
    assert_eq!(h.digest(32, 0).unwrap(), reference.digest(32, 0).unwrap());
}

#[test]
fn reader_advances_and_seeks() {
    let input = pattern(3000);
    let mut h = Hasher::new(None, None, 1).unwrap();
    h.update(&input);
    let mut r = h.finalize_xof();
    assert_eq!(r.position(), 0);
    let a = r.fill(100).unwrap();
    assert_eq!(r.position(), 100);
    let b = r.fill(50).unwrap();
    assert_eq!(r.position(), 150);
    let mut glued = a.clone();
    glued.extend_from_slice(&b);
    assert_eq!(glued, h.digest(150, 0).unwrap());
    assert_eq!(glued, reference_digest(&input, 150, 0));
    r.set_position(0);
    assert_eq!(r.fill(100).unwrap(), a);
}

#[test]
fn reader_is_independent_of_the_hasher() {
    let mut h = Hasher::new(None, None, 1).unwrap();
    h.update(b"fixed at finalize time");
    let snapshot = h.digest(32, 0).unwrap();
    let mut r = h.finalize_xof();
    h.update(b"fed only after the reader was taken");
    assert_eq!(r.fill(32).unwrap(), snapshot);
    assert_ne!(h.digest(32, 0).unwrap(), snapshot);
}

#[test]
fn reader_reports_overflow_and_keeps_its_position() {
    let h = Hasher::new(None, None, 1).unwrap();
    let mut r = h.finalize_xof();
    r.set_position(u64::MAX - 10);
    assert_eq!(r.fill(11).err().unwrap(), HashError::LengthOverflow);
    assert_eq!(r.position(), u64::MAX - 10);
    assert_eq!(r.fill(10).unwrap().len(), 10);
    assert_eq!(r.position(), u64::MAX);
}

#[test]
fn constants_are_published() {
    assert_eq!(b3engine::DIGEST_SIZE, 32);
    assert_eq!(b3engine::BLOCK_SIZE, 64);
    assert_eq!(b3engine::KEY_SIZE, 32);
    assert_eq!(b3engine::CHUNK_SIZE, 1024);
    assert_eq!(b3engine::AUTO, -1);
}
