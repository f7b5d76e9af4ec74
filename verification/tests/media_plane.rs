use vole::error::VoleError;
use vole::media::layout::Component;
use vole::media::plane::{BitDepth, Plane, PlaneData, PlaneStorage};

#[test]
fn storage_width_follows_depth() {
    for bits in 1..=16u8 {
        let d = BitDepth::new(bits).unwrap();
        assert_eq!(d.is_byte_depth(), bits <= 8);
        assert_eq!(
            d.storage(),
            if bits <= 8 {
                PlaneStorage::U8
            } else {
                PlaneStorage::U16
            }
        );
        assert_eq!(d.max_sample(), (1u32 << bits) - 1);
    }
    assert!(BitDepth::new(0).is_err());
    assert!(BitDepth::new(17).is_err());
}

#[test]
fn plane_validation_is_typed() {
    let d8 = BitDepth::new(8).unwrap();
    let d10 = BitDepth::new(10).unwrap();
    let p = Plane::new(Component::Gray, 2, 2, d8, 0, 0, PlaneData::U8(vec![0, 1, 2, 3])).unwrap();
    assert_eq!(p.canonical_bytes(), vec![0, 1, 2, 3]);
    assert_eq!(
        Plane::new(Component::Gray, 2, 2, d8, 0, 0, PlaneData::U8(vec![0, 1, 2])).unwrap_err(),
        VoleError::InvalidSamples
    );
    assert_eq!(
        Plane::new(Component::Gray, 1, 1, d8, 0, 0, PlaneData::U16(vec![1])).unwrap_err(),
        VoleError::InvalidSamples
    );
    assert_eq!(
        Plane::new(Component::Gray, 1, 1, d10, 0, 0, PlaneData::U8(vec![1])).unwrap_err(),
        VoleError::InvalidSamples
    );
    assert_eq!(
        Plane::new(Component::Gray, 1, 1, d10, 0, 0, PlaneData::U16(vec![1 << 10])).unwrap_err(),
        VoleError::InvalidSamples
    );
    assert_eq!(
        Plane::new(Component::Gray, 0, 1, d8, 0, 0, PlaneData::U8(vec![])).unwrap_err(),
        VoleError::GeometryMismatch
    );
}

#[test]
fn canonical_bytes_roundtrip_exactly() {
    for bits in [8u8, 9, 10, 12, 14, 16] {
        let d = BitDepth::new(bits).unwrap();
        let max = d.max_sample();
        let values: Vec<u32> = (0..16u32).map(|i| i * max / 15).collect();
        let p = if bits <= 8 {
            let data: Vec<u8> = values.iter().map(|v| *v as u8).collect();
            Plane::new(Component::Cb, 4, 4, d, 1, 1, PlaneData::U8(data)).unwrap()
        } else {
            let words: Vec<u16> = values.iter().map(|v| *v as u16).collect();
            Plane::new(Component::Cb, 4, 4, d, 1, 1, PlaneData::U16(words)).unwrap()
        };
        let bytes = p.canonical_bytes();
        let per = d.storage().bytes_per_sample() as usize;
        assert_eq!(bytes.len(), 16 * per);
        let back = Plane::from_canonical_bytes(Component::Cb, 4, 4, d, 1, 1, &bytes).unwrap();
        assert_eq!(back.canonical_bytes(), bytes);
        assert_eq!(back.sample_count(), 16);
        assert_eq!(back.storage(), d.storage());
    }
    let d10 = BitDepth::new(10).unwrap();
    assert_eq!(
        Plane::from_canonical_bytes(Component::Y, 2, 2, d10, 0, 0, &[0; 7]).unwrap_err(),
        VoleError::InvalidSamples
    );
    assert_eq!(
        Plane::from_canonical_bytes(Component::Y, 1, 1, d10, 0, 0, &(1u16 << 10).to_le_bytes())
            .unwrap_err(),
        VoleError::InvalidSamples
    );
}

#[test]
fn plane_accessors_report_parts() {
    let d12 = BitDepth::new(12).unwrap();
    let p = Plane::new(Component::Cr, 3, 1, d12, 1, 0, PlaneData::U16(vec![1, 0x0fff, 0x0100])).unwrap();
    assert_eq!(p.canonical_bytes(), vec![1, 0, 0xff, 0x0f, 0x00, 0x01]);
    assert_eq!((p.width(), p.height(), p.subsample_x(), p.subsample_y()), (3, 1, 1, 0));
    assert_eq!(p.component(), Component::Cr);
    assert_eq!(p.bit_depth().bits(), 12);
    assert!(d12.contains(4095) && !d12.contains(4096));
    assert_eq!(p.data().len(), 3);
    assert!(!p.data().is_empty());
    let (w, h, d, data) = p.into_parts();
    assert_eq!((w, h, d.bits()), (3, 1, 12));
    assert_eq!(data, PlaneData::U16(vec![1, 0x0fff, 0x0100]));
    assert_eq!(
        Plane::new(Component::Y, 1, 1, BitDepth::new(8).unwrap(), 4, 0, PlaneData::U8(vec![1])).unwrap_err(),
        VoleError::GeometryMismatch
    );
}
