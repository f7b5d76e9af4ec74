use sha2::Digest;
use vole::error::VoleError;
use vole::media::bridge::crc::packet_crc_bytes;
use vole::media::bridge::framehash::{FramehashRecord, FramehashResult};
use vole::media::bridge::import::{
    canonical_record, check_oracle, import_decoded, import_parsed, plan_import, verify_frames,
};
use vole::media::bridge::nut::{parse_nut, MAIN_STARTCODE, STREAM_STARTCODE};
use vole::media::bridge::probe::{FormatInfo, ProbeManifest, StreamInfo};
use vole::media::layout::PixelLayout;

fn var(v: u64) -> Vec<u8> {
    let mut groups = vec![(v & 0x7f) as u8];
    let mut v = v >> 7;
    while v > 0 {
        groups.push(0x80 | (v & 0x7f) as u8);
        v >>= 7;
    }
    groups.reverse();
    groups
}

fn packet(code: u64, body: &[u8]) -> Vec<u8> {
    let mut out = code.to_be_bytes().to_vec();
    out.extend(var(body.len() as u64 + 4));
    out.extend_from_slice(body);
    out.extend_from_slice(&packet_crc_bytes(body));
    out
}

/// A 2x2 single-stream NUT pipe at time base 1/25 with the given frames.
fn nut_file(frames: &[(u64, [u8; 4])]) -> Vec<u8> {
    let mut f = b"nut/multimedia container\0".to_vec();
    let mut b = Vec::new();
    for v in [3u64, 1, 0, 1, 1, 25] {
        b.extend(var(v));
    }
    for v in [8u64 | 32, 6, 0, 1, 0, 0, 0, 255] {
        b.extend(var(v));
    }
    f.extend(packet(MAIN_STARTCODE, &b));
    let mut s = Vec::new();
    s.extend(var(0));
    s.extend(var(0));
    s.extend(var(4));
    s.extend_from_slice(b"Y1\0\x08");
    for v in [0u64, 8, 0, 0, 0, 0, 2, 2, 1, 1, 0] {
        s.extend(var(v));
    }
    f.extend(packet(STREAM_STARTCODE, &s));
    for (pts, payload) in frames {
        f.push(0);
        f.extend(var(*pts));
        f.extend(var(4));
        f.extend_from_slice(payload);
    }
    f
}

fn manifest() -> ProbeManifest {
    ProbeManifest {
        format: FormatInfo::default(),
        streams: vec![
            StreamInfo {
                index: 1,
                codec_type: Some("audio".to_string()),
                ..Default::default()
            },
            StreamInfo {
                index: 0,
                codec_type: Some("video".to_string()),
                width: Some(2),
                height: Some(2),
                pix_fmt: Some("gray".to_string()),
                ..Default::default()
            },
        ],
        chosen: 0,
    }
}

fn oracle(frames: &[(i64, [u8; 4])]) -> FramehashResult {
    FramehashResult {
        time_base: (1, 25),
        records: frames
            .iter()
            .enumerate()
            .map(|(i, (pts, payload))| {
                let d = sha2::Sha256::digest(payload);
                let mut sha = [0u8; 32];
                sha.copy_from_slice(&d);
                FramehashRecord {
                    frame: i as u64,
                    dts: Some(*pts),
                    pts: Some(*pts),
                    duration: Some(1),
                    size: 4,
                    sha256: sha,
                }
            })
            .collect(),
    }
}

#[test]
fn plan_follows_the_chosen_stream() {
    let plan = plan_import(&manifest()).unwrap();
    assert_eq!(plan.position, 1);
    assert_eq!((plan.width, plan.height), (2, 2));
    assert_eq!(plan.layout, PixelLayout::Gray);
    assert_eq!(plan.depth, 8);
    assert_eq!(plan.source_bytes, 4);
    let mut m = manifest();
    m.chosen = 7;
    assert_eq!(plan_import(&m).unwrap_err(), VoleError::BridgeProbeFailed);
    let mut m = manifest();
    m.streams[1].pix_fmt = Some("not-a-format".to_string());
    assert_eq!(plan_import(&m).unwrap_err(), VoleError::UnsupportedPixelLayout);
    let mut m = manifest();
    m.streams[1].width = Some(0);
    assert_eq!(plan_import(&m).unwrap_err(), VoleError::DimensionTooLarge);
}

#[test]
fn oracle_bounds_are_typed() {
    let o = oracle(&[(5, [1, 2, 3, 4])]);
    assert!(check_oracle(&o, 1).is_ok());
    assert_eq!(check_oracle(&o, 0).unwrap_err(), VoleError::BridgeOutputLimit);
    assert_eq!(
        check_oracle(&oracle(&[]), 4).unwrap_err(),
        VoleError::BridgeDecodeFailed
    );
}

#[test]
fn frames_verify_against_the_oracle() {
    let frames = [(5u64, [1u8, 2, 3, 4]), (6, [5, 6, 7, 8])];
    let nut = parse_nut(&nut_file(&frames)).unwrap();
    let good = oracle(&[(5, [1, 2, 3, 4]), (6, [5, 6, 7, 8])]);
    let checks = verify_frames("gray", 2, 2, &good, &nut).unwrap();
    assert_eq!(checks.verified_frames, 2);
    assert_eq!(checks.oracle_frames, 2);
    assert_eq!(checks.sample_bytes, 8);
    assert!(checks.pts_matched);
    // A digest of different content is a mismatch.
    let bad = oracle(&[(5, [1, 2, 3, 4]), (6, [5, 6, 7, 9])]);
    assert_eq!(
        verify_frames("gray", 2, 2, &bad, &nut).unwrap_err(),
        VoleError::CanonicalHashMismatch
    );
    // A disagreeing timestamp is a mismatch.
    let late = oracle(&[(5, [1, 2, 3, 4]), (7, [5, 6, 7, 8])]);
    assert_eq!(
        verify_frames("gray", 2, 2, &late, &nut).unwrap_err(),
        VoleError::CanonicalHashMismatch
    );
    // A frame count that disagrees is a mismatch.
    let short = oracle(&[(5, [1, 2, 3, 4])]);
    assert_eq!(
        verify_frames("gray", 2, 2, &short, &nut).unwrap_err(),
        VoleError::CanonicalHashMismatch
    );
}

#[test]
fn import_builds_the_canonical_video_and_digests() {
    let frames = [(5u64, [1u8, 2, 3, 4]), (7, [5, 6, 7, 8])];
    let bytes = nut_file(&frames);
    let m = manifest();
    let plan = plan_import(&m).unwrap();
    let v = import_decoded(
        &plan,
        &m.streams[plan.position],
        oracle(&[(5, [1, 2, 3, 4]), (7, [5, 6, 7, 8])]),
        &bytes,
    )
    .unwrap();
    assert_eq!(v.video.observation_count(), 2);
    let obs = v.video.observations();
    assert_eq!(obs[0].pts().value(), 5);
    assert_eq!(obs[0].duration().unwrap().value(), 2);
    assert!(obs[1].duration().is_none());
    assert_eq!(obs[1].planes()[0].sample(3), 8);
    let record = canonical_record(&v.epoch, obs);
    assert_eq!(&record[..18], b"VOLE-CANONICAL-v1\0");
    assert_eq!(v.sequence_blake3, *blake3::hash(&record).as_bytes());
    let sha = sha2::Sha256::digest(&record);
    assert_eq!(&v.sequence_sha256[..], &sha[..]);
    // A pipe whose geometry disagrees with the plan is refused.
    let mut wide = m.clone();
    wide.streams[1].width = Some(4);
    let plan4 = plan_import(&wide).unwrap();
    assert_eq!(
        import_decoded(&plan4, &wide.streams[1], oracle(&[]), &bytes).unwrap_err(),
        VoleError::GeometryMismatch
    );
}

#[test]
fn parsed_frames_import_in_order() {
    let frames = [(5u64, [1u8, 2, 3, 4]), (7, [5, 6, 7, 8])];
    let nut = parse_nut(&nut_file(&frames)).unwrap();
    let m = manifest();
    let plan = plan_import(&m).unwrap();
    let v = import_parsed(
        &plan,
        &m.streams[plan.position],
        oracle(&[(5, [1, 2, 3, 4]), (7, [5, 6, 7, 8])]),
        nut,
    )
    .unwrap();
    assert_eq!(v.video.observation_count(), 2);
    assert_eq!(v.nut.frames.len(), 2);
}

#[test]
fn a_fault_in_the_nut_bytes_is_the_import_error() {
    let frames = [(5u64, [1u8, 2, 3, 4]), (7, [5, 6, 7, 8])];
    let m = manifest();
    let plan = plan_import(&m).unwrap();
    let good = || oracle(&[(5, [1, 2, 3, 4]), (7, [5, 6, 7, 8])]);
    let mut bytes = nut_file(&frames);
    bytes[0] ^= 0xff;
    assert_eq!(
        import_decoded(&plan, &m.streams[plan.position], good(), &bytes).unwrap_err(),
        VoleError::BadMagic
    );
    let whole = nut_file(&frames);
    let cut = &whole[..whole.len() - 1];
    assert_eq!(
        import_decoded(&plan, &m.streams[plan.position], good(), cut).unwrap_err(),
        parse_nut(cut).unwrap_err()
    );
}
