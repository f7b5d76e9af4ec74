use vole::error::VoleError;
use vole::rans::{
    check_block, decode_block, decode_with, encode_block, encode_with, encoded_len_bound,
    ByteModel, KIND_RANS, KIND_RAW, MODEL_SERIALIZED,
};

fn det(seed: u64, n: usize) -> Vec<u8> {
    let mut s = seed.max(1);
    let mut out = Vec::with_capacity(n);
    for _ in 0..n {
        s ^= s >> 12;
        s ^= s << 25;
        s ^= s >> 27;
        out.push(((s.wrapping_mul(0x2545F4914F6CDD1D)) >> 56) as u8);
    }
    out
}

#[test]
fn model_total_is_exact_and_used_symbols_nonzero() {
    for seed in 1..40u64 {
        let d = det(seed, 2000);
        let m = ByteModel::from_data(&d);
        assert_eq!(m.validate(), Ok(()));
        for b in &d {
            assert!(m.freq(*b as usize) > 0);
        }
    }
}

#[test]
fn roundtrip_deterministic_lengths_and_distributions() {
    let cases: Vec<(u64, usize)> = vec![
        (1, 0),
        (2, 1),
        (3, 2),
        (4, 3),
        (5, 4),
        (6, 7),
        (7, 16),
        (8, 63),
        (9, 128),
        (10, 511),
        (11, 1024),
        (12, 4096),
    ];
    for (seed, n) in cases {
        let d = det(seed, n);
        let block = encode_block(&d);
        assert_eq!(
            decode_block(&block, 1 << 20).unwrap(),
            d,
            "roundtrip failed for seed={} n={}",
            seed,
            n
        );
    }
}

#[test]
fn roundtrip_skewed_and_uniform() {
    let mut skewed = vec![b'A'; 20000];
    for i in (0..skewed.len()).step_by(97) {
        skewed[i] = b'B';
    }
    for i in (3..skewed.len()).step_by(251) {
        skewed[i] = b'C';
    }
    let sb = encode_block(&skewed);
    assert_eq!(sb[0], KIND_RANS, "skewed payload should choose rANS");
    assert!(sb.len() + 9 < skewed.len(), "rANS should compress skew");
    assert_eq!(decode_block(&sb, 1 << 20).unwrap(), skewed);

    let uniform = det(0xABCDEF, 5000);
    let ub = encode_block(&uniform);
    assert_eq!(ub[0], KIND_RAW, "uniform payload should choose RAW");
    assert_eq!(decode_block(&ub, 1 << 20).unwrap(), uniform);
}

#[test]
fn empty_is_raw_and_roundtrips() {
    let b = encode_block(&[]);
    assert_eq!(b[0], KIND_RAW);
    assert_eq!(decode_block(&b, 16).unwrap(), Vec::<u8>::new());
}

#[test]
fn hostile_truncation_is_typed() {
    let d = det(7, 2048);
    let block = encode_block(&d);
    for cut in (0..block.len()).step_by(3) {
        let r = decode_block(&block[..cut], 1 << 20);
        assert!(r.is_err(), "truncation at {} must error", cut);
    }
}

#[test]
fn hostile_length_and_corruption_are_typed() {
    let d = det(9, 3000);
    let block = encode_block(&d);
    let mut big = block.clone();
    big[1] = 0xFF;
    big[2] = 0xFF;
    big[3] = 0xFF;
    big[4] = 0xFF;
    assert!(matches!(
        decode_block(&big, 1 << 20),
        Err(VoleError::DimensionTooLarge)
    ));
    let mut prev_err: Option<VoleError> = None;
    for i in 9..block.len() {
        let mut c = block.clone();
        c[i] ^= 0x55;
        let r = decode_block(&c, 1 << 20);
        if let Err(e) = r {
            let mut c2 = block.clone();
            c2[i] ^= 0x55;
            assert_eq!(decode_block(&c2, 1 << 20).unwrap_err(), e);
            prev_err = Some(e);
        } else {
            assert!(r.is_ok());
        }
    }
    let _ = prev_err;
}

#[test]
fn model_bytes_roundtrip_and_length_is_checked() {
    let m = ByteModel::from_data(b"hello hello hello world");
    let bytes = m.to_bytes();
    assert_eq!(bytes.len(), MODEL_SERIALIZED);
    let back = ByteModel::from_bytes(&bytes).unwrap();
    assert_eq!(back.to_bytes(), bytes);
    assert_eq!(
        ByteModel::from_bytes(&bytes[..511]).unwrap_err(),
        VoleError::LengthMismatch
    );
}

#[test]
fn explicit_model_coding_and_errors() {
    let mut f = [0u16; 256];
    f[b'a' as usize] = 8192;
    f[b'b' as usize] = 8192;
    let m = ByteModel::from_freqs(f);
    assert_eq!(m.validate(), Ok(()));
    assert_eq!(m.start(b'b' as usize), 8192);
    let data = b"abbaab".to_vec();
    let p = encode_with(&data, &m).unwrap();
    assert_eq!(decode_with(&p, &m, data.len()).unwrap(), data);
    // A symbol outside the model is corrupt.
    assert_eq!(encode_with(b"c", &m).unwrap_err(), VoleError::EntropyCorrupt);
    // An invalid model is refused.
    let mut g = [0u16; 256];
    g[0] = 1;
    let bad = ByteModel::from_freqs(g);
    assert_eq!(bad.validate(), Err(VoleError::EntropyCorrupt));
    // Zero symbols: the canonical payload is the 4-byte initial state.
    assert_eq!(encode_with(&[], &bad).unwrap(), vec![0, 0, 0x80, 0]);
    assert_eq!(decode_with(&[0, 0, 0x80, 0], &bad, 0).unwrap(), Vec::<u8>::new());
    assert_eq!(
        decode_with(&[0, 0, 0x80], &bad, 0).unwrap_err(),
        VoleError::NonCanonicalEncoding
    );
    // Trailing bytes are non-canonical.
    let mut q = p.clone();
    q.push(0);
    assert_eq!(
        decode_with(&q, &m, data.len()).unwrap_err(),
        VoleError::NonCanonicalEncoding
    );
    assert_eq!(encoded_len_bound(10), 25);
}

#[test]
fn check_block_mirrors_structure() {
    let d = det(3, 4000);
    let b = encode_block(&d);
    assert_eq!(check_block(&b, 1 << 20), Ok(()));
    assert_eq!(check_block(&b[..5], 1 << 20), Err(VoleError::Truncated));
    let mut k = b.clone();
    k[0] = 7;
    assert_eq!(check_block(&k, 1 << 20), Err(VoleError::NonCanonicalEncoding));
    assert_eq!(check_block(&b, 10), Err(VoleError::DimensionTooLarge));
    let raw = encode_block(&[1, 2, 3]);
    assert_eq!(raw[0], KIND_RAW);
    let mut longer = raw.clone();
    longer.push(9);
    assert_eq!(check_block(&longer, 100), Err(VoleError::NonCanonicalEncoding));
}

#[test]
fn from_counts_normalizes_exactly() {
    let mut counts = [0u64; 256];
    counts[1] = 3;
    counts[2] = 1;
    let m = ByteModel::from_counts(&counts);
    // used = 2, extras = 16382: shares 12286 (rem 2) and 4095 (rem 2); one
    // leftover unit goes to the lower symbol on the remainder tie.
    assert_eq!(m.freq(1), 12288);
    assert_eq!(m.freq(2), 4096);
    assert_eq!(m.validate(), Ok(()));
    let z = ByteModel::from_counts(&[0u64; 256]);
    assert_eq!(z.freq(0), 0);
    assert_eq!(z.validate(), Err(VoleError::EntropyCorrupt));
}

#[test]
fn normalized_counts_sum_to_the_model_total_and_keep_support() {
    let mut counts = [0u64; 256];
    counts[0] = 1;
    counts[7] = 1_000_000_000;
    counts[200] = 3;
    counts[255] = u64::MAX / 4;
    let m = ByteModel::from_counts(&counts);
    let total: u32 = (0..256).map(|s| m.freq(s)).sum();
    assert_eq!(total, 16384);
    for s in 0..256 {
        assert_eq!(m.freq(s) > 0, counts[s] > 0);
    }
    assert!(m.validate().is_ok());
    let empty = ByteModel::from_counts(&[0u64; 256]);
    assert!((0..256).all(|s| empty.freq(s) == 0));
}
