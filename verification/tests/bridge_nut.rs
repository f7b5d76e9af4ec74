use vole::error::VoleError;
use vole::media::bridge::crc::packet_crc_bytes;
use vole::media::bridge::nut::{parse_nut, MAIN_STARTCODE, STREAM_STARTCODE, SYNCPOINT_STARTCODE};

fn var(v: u64) -> Vec<u8> {
    let mut groups = vec![(v & 0x7f) as u8];
    let mut v = v >> 7;
    while v > 0 {
        groups.push(0x80 | (v & 0x7f) as u8);
        v >>= 7;
    }
    groups.reverse();
    groups
}

fn packet(code: u64, body: &[u8]) -> Vec<u8> {
    let mut out = code.to_be_bytes().to_vec();
    out.extend(var(body.len() as u64 + 4));
    out.extend_from_slice(body);
    out.extend_from_slice(&packet_crc_bytes(body));
    out
}

fn main_header() -> Vec<u8> {
    let mut b = Vec::new();
    for v in [3u64, 1, 0, 1, 1, 25] {
        b.extend(var(v)); // version, streams, max distance, one time base 1/25
    }
    // One frame-code run over the whole table: coded PTS + size MSB.
    for v in [8u64 | 32, 6, 0, 1, 0, 0, 0, 255] {
        b.extend(var(v));
    }
    packet(MAIN_STARTCODE, &b)
}

fn stream_header() -> Vec<u8> {
    let mut b = Vec::new();
    b.extend(var(0)); // index
    b.extend(var(0)); // class: video
    b.extend(var(4));
    b.extend_from_slice(b"RGB\x18");
    for v in [0u64, 8, 0, 0, 0, 0, 2, 2, 1, 1, 0] {
        b.extend(var(v)); // tb index, msb shift, 3 skipped, ext len, w, h, sar, csp
    }
    packet(STREAM_STARTCODE, &b)
}

fn file(frames: &[u8]) -> Vec<u8> {
    let mut f = b"nut/multimedia container\0".to_vec();
    f.extend(main_header());
    f.extend(stream_header());
    f.extend_from_slice(frames);
    f
}

#[test]
fn hostile_inputs_are_typed() {
    assert_eq!(parse_nut(b"").unwrap_err(), VoleError::BadMagic);
    assert_eq!(
        parse_nut(b"nut/multimedia container\x00").unwrap_err(),
        VoleError::Truncated
    );
    let mut junk = vec![0x42u8; 4096];
    junk[0] = b'N';
    assert!(parse_nut(&junk).is_err());
}

#[test]
fn minimal_file_parses_frames_and_headers() {
    // Frame code 0, coded PTS 5, size MSB 4, then four payload bytes.
    let frames = [0u8, 5, 4, 1, 2, 3, 4, 0, 6, 2, 9, 9];
    let s = parse_nut(&file(&frames)).unwrap();
    assert_eq!(s.version, 3);
    assert_eq!(s.time_bases, vec![(1, 25)]);
    assert_eq!(s.streams.len(), 1);
    let st = s.streams[0];
    assert_eq!((st.width, st.height, st.sar), (2, 2, Some((1, 1))));
    assert_eq!(st.codec_tag, u32::from_le_bytes(*b"RGB\x18"));
    assert_eq!(st.time_base, (1, 25));
    assert_eq!(s.frames.len(), 2);
    assert_eq!(s.frames[0].pts, 5);
    assert_eq!(s.frames[0].payload, vec![1, 2, 3, 4]);
    assert!(!s.frames[0].key);
    assert_eq!(s.frames[1].pts, 6);
    assert_eq!(s.frames[1].payload, vec![9, 9]);
}

#[test]
fn syncpoints_reset_the_last_pts() {
    // Syncpoint at ts 40 in time base 0 (the stream's own): last_pts = 40,
    // then a coded PTS of 42 (low 8 bits) recovers 42.
    let mut frames = packet(SYNCPOINT_STARTCODE, &var(40));
    frames.extend_from_slice(&[0u8, 42, 1, 7]);
    let s = parse_nut(&file(&frames)).unwrap();
    assert_eq!(s.frames.len(), 1);
    assert_eq!(s.frames[0].pts, 42);
    assert_eq!(s.frames[0].payload, vec![7]);
}

#[test]
fn corrupted_packets_are_typed() {
    let mut f = file(&[]);
    // Flip a byte inside the stream header body: checksum mismatch.
    let at = 25 + main_header().len() + 10;
    f[at] ^= 0x01;
    assert_eq!(parse_nut(&f).unwrap_err(), VoleError::IntegrityMismatch);
    // A frame announcing more payload than the file holds.
    assert_eq!(
        parse_nut(&file(&[0u8, 5, 9, 1, 2])).unwrap_err(),
        VoleError::Truncated
    );
    // Frame code 'N' is always invalid.
    assert_eq!(
        parse_nut(&file(&[b'N', 0, 0])).unwrap_err(),
        VoleError::NonCanonicalEncoding
    );
    // No stream header at all.
    let mut g = b"nut/multimedia container\0".to_vec();
    g.extend(main_header());
    assert_eq!(parse_nut(&g).unwrap_err(), VoleError::Truncated);
}
