use vole::error::VoleError;
use vole::media::bridge::framehash::{parse_framehash, parse_i64_opt, parse_rational};

#[test]
fn parses_records_and_header() {
    let text = "\
#format: frame checksums
#version: 2
#hash: SHA256
#tb 0: 1/25
#media_type 0: video
0,          0,          0,        1,    86400, 78422a4f0ef0ac0789fef8205b4346d51a8193516e09809d6ee0320d1139e79a
1,          1,          1,        1,    86400, adbf495c8245f798d9fa14eb2047cb4f0503d2261955626defd34b6c42edd1aa
";
    let r = parse_framehash(text.as_bytes()).expect("parse");
    assert_eq!(r.time_base, (1, 25));
    assert_eq!(r.records.len(), 2);
    assert_eq!(r.records[0].pts, Some(0));
    assert_eq!(r.records[1].size, 86400);
    assert_eq!(r.records[0].sha256[0], 0x78);
}

#[test]
fn malformed_records_are_typed() {
    assert!(parse_framehash(b"0, 1, x, 1, 2, deadbeef\n").is_err());
    assert!(parse_framehash(b"#tb 0: 1/25\n0,0,0,1,4,abcd\n").is_err());
}

#[test]
fn optional_columns_and_missing_time_base() {
    let line = "#tb 0: 1001/30000\r\n3, N/A, -2, , 10, ".to_string() + &"0F".repeat(32) + "\r\n";
    let r = parse_framehash(line.as_bytes()).unwrap();
    assert_eq!(r.time_base, (1001, 30000));
    assert_eq!(r.records[0].frame, 3);
    assert_eq!(r.records[0].dts, None);
    assert_eq!(r.records[0].pts, Some(-2));
    assert_eq!(r.records[0].duration, None);
    assert_eq!(r.records[0].sha256, [0x0f; 32]);
    assert_eq!(
        parse_framehash(b"").unwrap_err(),
        VoleError::BridgeProbeFailed
    );
    assert_eq!(
        parse_framehash(b"#tb 0: 1/25\n1,2,3\n").unwrap_err(),
        VoleError::BridgeProbeFailed
    );
}

#[test]
fn numbers_follow_the_decimal_rules() {
    assert_eq!(parse_i64_opt(b"N/A"), None);
    assert_eq!(parse_i64_opt(b""), None);
    assert_eq!(parse_i64_opt(b"+7"), Some(7));
    assert_eq!(parse_i64_opt(b"-9223372036854775808"), Some(i64::MIN));
    assert_eq!(parse_i64_opt(b"9223372036854775808"), None);
    assert_eq!(parse_rational(b" 1 / 25 "), Some((1, 25)));
    assert_eq!(parse_rational(b"0/25"), None);
    assert_eq!(parse_rational(b"1/2147483648"), None);
    assert_eq!(parse_rational(b"125"), None);
}

#[test]
fn a_multibyte_hash_column_is_refused() {
    let text = format!("#tb 0: 1/25\n0,0,0,1,4,0\u{e9}{}\n", "0".repeat(61));
    assert_eq!(text.len() - "#tb 0: 1/25\n0,0,0,1,4,".len() - 1, 64);
    assert!(matches!(
        parse_framehash(text.as_bytes()),
        Err(VoleError::BridgeProbeFailed)
    ));
}

#[test]
fn records_keep_their_order_and_columns() {
    let text = "#tb 0: 1/30\n\
                7, N/A, -3, , 12, 00ff00ff00ff00ff00ff00ff00ff00ff00ff00ff00ff00ff00ff00ff00ff00ff\n\
                8, 2, 4, 1, 13, FF00ff00ff00ff00ff00ff00ff00ff00ff00ff00ff00ff00ff00ff00ff00ff00\n";
    let r = parse_framehash(text.as_bytes()).expect("parse");
    assert_eq!(r.time_base, (1, 30));
    assert_eq!(r.records.len(), 2);
    assert_eq!(r.records[0].frame, 7);
    assert_eq!(r.records[0].dts, None);
    assert_eq!(r.records[0].pts, Some(-3));
    assert_eq!(r.records[0].duration, None);
    assert_eq!(r.records[0].size, 12);
    assert_eq!(r.records[0].sha256[1], 0xff);
    assert_eq!(r.records[1].frame, 8);
    assert_eq!(r.records[1].sha256[0], 0xff);
    assert_eq!(r.records[1].sha256[1], 0x00);
    assert!(matches!(
        parse_framehash(b"0,0,0,1,4,00\n"),
        Err(VoleError::BridgeProbeFailed)
    ));
}
