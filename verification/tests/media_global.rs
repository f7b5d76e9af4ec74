use vole::error::VoleError;
use vole::media::global::{match_tolerance, GlobalMap, MapShift, MAX_AFFINE_COEFF};
use vole::media::plane::BitDepth;

#[test]
fn map_shift_registry_and_identity() {
    assert_eq!(MapShift::ALL().len(), 3);
    for s in MapShift::ALL() {
        assert_eq!(MapShift::from_code(s.code()), Some(s));
        assert_eq!(s.scale(), 1i64 << s.shift());
    }
    assert_eq!(MapShift::from_code(7), None);
    assert_eq!(MapShift::from_code(9), None);
    for s in MapShift::ALL() {
        let id = GlobalMap::identity(s);
        assert!(id.is_identity());
        assert!(id.check().is_ok());
        for (x, y) in [(0i64, 0i64), (5, -3), (100, 200)] {
            assert_eq!(id.source(x, y), Some((x, y)));
        }
    }
}

#[test]
fn as_translation_requires_integral_pure_translation() {
    let m = GlobalMap { shift: MapShift::Q8, a: 256, b: 0, c: -512, d: 0, e: 256, f: 256 };
    assert_eq!(m.as_translation(), Some((-2, 1)));
    let r = GlobalMap { shift: MapShift::Q8, a: 256, b: 1, ..GlobalMap::identity(MapShift::Q8) };
    assert_eq!(r.as_translation(), None);
    let h = GlobalMap { shift: MapShift::Q8, c: -128, ..GlobalMap::identity(MapShift::Q8) };
    assert_eq!(h.as_translation(), None);
}

#[test]
fn source_mapping_never_wraps_on_overflow() {
    let m = GlobalMap { shift: MapShift::Q8, a: 1 << 40, ..GlobalMap::identity(MapShift::Q8) };
    assert!(m.source(1 << 40, 0).is_none());
}

#[test]
fn check_rejects_out_of_domain_coefficients() {
    let bad = GlobalMap { shift: MapShift::Q8, a: (1 << 24) + 1, ..GlobalMap::identity(MapShift::Q8) };
    assert_eq!(bad.check().unwrap_err(), VoleError::NonCanonicalEncoding);
    let ok = GlobalMap { shift: MapShift::Q8, a: 1 << 24, ..GlobalMap::identity(MapShift::Q8) };
    assert!(ok.check().is_ok());
    assert_eq!(MAX_AFFINE_COEFF, 1 << 24);
}

#[test]
fn source_floors_negative_numerators_and_tolerance_scales() {
    let m = GlobalMap { shift: MapShift::Q8, a: 251, b: 7, c: -500, d: -3, e: 260, f: 900 };
    // (251·1 + 7·1 − 500) = −242 → floor(−242/256) = −1; (−3 + 260 + 900) = 1157 → 4.
    assert_eq!(m.source(1, 1), Some((-1, 4)));
    assert_eq!(GlobalMap::wire_bytes(), 26);
    assert_eq!(match_tolerance(BitDepth::new(8).unwrap()), 2);
    assert_eq!(match_tolerance(BitDepth::new(4).unwrap()), 1);
    assert_eq!(match_tolerance(BitDepth::new(16).unwrap()), 8);
    assert_eq!(MapShift::Q12.label(), "Q12");
}
