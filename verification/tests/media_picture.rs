use vole::error::VoleError;
use vole::media::color::ColorDescription;
use vole::media::epoch::{EpochId, VideoEpoch};
use vole::media::layout::PixelLayout;
use vole::media::meta::{FieldStructure, Orientation, SampleAspectRatio};
use vole::media::picture::Picture;
use vole::media::plane::BitDepth;

fn epoch(layout: PixelLayout, depth: u8) -> VideoEpoch {
    VideoEpoch::new_uniform(
        EpochId(0),
        6,
        4,
        layout,
        BitDepth::new(depth).unwrap(),
        ColorDescription::unspecified(),
        SampleAspectRatio::square(),
        Orientation::Normal,
        FieldStructure::Progressive,
    )
    .unwrap()
}

#[test]
fn picture_sample_domain_is_depth_exact() {
    let e = epoch(PixelLayout::Yuv420, 10);
    let mut pic = Picture::from_epoch(&e, &[0, 512, 512]).unwrap();
    assert_eq!(pic.plane_count(), 3);
    assert_eq!(pic.plane(0).unwrap().width(), 6);
    assert_eq!(pic.plane(1).unwrap().width(), 3);
    pic.put(0, 1, 1, 1023).unwrap();
    assert_eq!(pic.get(0, 1, 1), Some(1023));
    assert_eq!(pic.put(0, 0, 0, 1024).unwrap_err(), VoleError::InvalidSamples);
    assert_eq!(pic.put(0, 6, 0, 0).unwrap_err(), VoleError::OutOfBounds);
    pic.fill_rect_clipped(0, 100, -2, -2, 100, 100).unwrap();
    for y in 0..4u32 {
        for x in 0..6u32 {
            assert_eq!(pic.get(0, x, y), Some(100));
        }
    }
    let src: Vec<u32> = (0..24u32).collect();
    pic.blit(0, &src, 6, 4, -1, 0).unwrap();
    for x in 0..6u32 {
        let expect = if x + 1 < 6 { x + 1 } else { 100 };
        assert_eq!(pic.get(0, x, 0), Some(expect));
    }
    let e8 = epoch(PixelLayout::Gray, 8);
    let mut p8 = Picture::from_epoch(&e8, &[7]).unwrap();
    assert_eq!(p8.put(0, 0, 0, 255).unwrap(), ());
    assert_eq!(p8.put(0, 0, 0, 256).unwrap_err(), VoleError::InvalidSamples);
    assert_eq!(p8.get(0, 0, 0), Some(255));
    let mut p = Picture::from_epoch(&e, &[0, 0, 0]).unwrap();
    assert_eq!(p.blit(0, &[1024], 1, 1, 0, 0).unwrap_err(), VoleError::InvalidSamples);
}

#[test]
fn picture_validates_against_epoch() {
    let e = epoch(PixelLayout::Yuv444, 8);
    let pic = Picture::from_epoch(&e, &[0, 0, 0]).unwrap();
    let bad = epoch(PixelLayout::Yuv420, 8);
    assert!(pic.validate_against(&bad).is_err());
    assert!(pic.validate_against(&e).is_ok());
    let e10 = epoch(PixelLayout::Yuv420, 10);
    assert!(Picture::from_epoch(&e10, &[0, 1023, 0]).is_ok());
    assert!(Picture::from_epoch(&e10, &[0, 1024, 0]).is_err());
    let planes = pic.into_planes();
    assert!(Picture::from_planes(&e, planes).is_ok());
}

#[test]
fn picture_counts_bytes_and_refuses_bad_backgrounds() {
    let e = epoch(PixelLayout::Yuv420, 10);
    let pic = Picture::from_epoch(&e, &[1, 2, 3]).unwrap();
    assert_eq!(pic.total_bytes(), (24 + 6 + 6) * 2);
    assert_eq!(pic.get(2, 2, 1), Some(3));
    assert_eq!(pic.get(3, 0, 0), None);
    assert_eq!(Picture::from_epoch(&e, &[1, 2]).err(), Some(VoleError::GeometryMismatch));
    let mut p = Picture::from_epoch(&e, &[0, 0, 0]).unwrap();
    assert_eq!(p.fill_rect_clipped(5, 1, 0, 0, 1, 1).err(), Some(VoleError::OutOfBounds));
    assert_eq!(p.blit(0, &[1, 2, 3], 2, 2, 0, 0).err(), Some(VoleError::InvalidSamples));
    assert_eq!(p.blit(9, &[1], 1, 1, 0, 0).err(), Some(VoleError::OutOfBounds));
}
