use vole::media::bridge::crc::{crc32_msb, packet_crc_bytes, verify_packet_crc};

#[test]
fn known_vectors() {
    assert_eq!(crc32_msb(b""), 0);
    let body: &[u8] = &[0x01, 0x02, 0x03, 0x04];
    let _ = body;
}

#[test]
fn fixture_main_header_crc_matches_stored_bytes() {
    let body: &[u8] = &[
        0x03, 0x01, 0x81, 0xff, 0x7f, 0x01, 0x01, 0x83, 0x90, 0x00, 0xc0, 0x00, 0x06, 0x00,
        0x00, 0x00, 0x00, 0x00, 0x01, 0xa0, 0x00, 0x02, 0x01, 0x01, 0x28, 0x01, 0x00, 0x29,
        0x00, 0x21, 0x01, 0x9f, 0x7f, 0x20, 0x02, 0x9f, 0x7f, 0x81, 0x79, 0xc0, 0x00, 0x06,
        0x00, 0x00, 0x00, 0x00, 0x00, 0x01, 0x06, 0x03, 0x00, 0x00, 0x01, 0x04, 0x00, 0x00,
        0x01, 0xb6, 0x02, 0xff, 0xfa, 0x02, 0xff, 0xfb, 0x02, 0xff, 0xfc, 0x02, 0xff, 0xfd,
    ];
    let stored: [u8; 4] = [0x10, 0xfb, 0x95, 0xf3];
    assert!(verify_packet_crc(body, &stored));
}

#[test]
fn crc_of_one_byte_is_the_shifted_polynomial_register() {
    // 0x80 << 24 shifts out after one step: register = poly, then 7 more steps.
    assert_eq!(crc32_msb(&[0x00]), 0);
    assert_eq!(packet_crc_bytes(&[]), [0, 0, 0, 0]);
    assert_eq!(crc32_msb(&[0x01]), 0x04C1_1DB7);
    assert!(!verify_packet_crc(&[0x01], &[0x04, 0xC1, 0x1D]));
    assert!(verify_packet_crc(&[0x01], &[0x04, 0xC1, 0x1D, 0xB7]));
}
