use vole::error::VoleError;
use vole::media::layout::{Component, PackedSourceLayout, PixelLayout};

#[test]
fn plane_geometry_is_the_normative_ceil_rule() {
    let l = PixelLayout::Yuv420;
    assert_eq!(l.plane_count(), 3);
    assert_eq!(l.plane_dimensions(0, 1920, 1080).unwrap(), (1920, 1080));
    assert_eq!(l.plane_dimensions(1, 1920, 1080).unwrap(), (960, 540));
    assert_eq!(l.plane_dimensions(2, 1920, 1080).unwrap(), (960, 540));
    for (w, h) in [(1u32, 1u32), (3, 3), (1919, 1079), (1921, 1081)] {
        let (cw, ch) = l.plane_dimensions(1, w, h).unwrap();
        assert_eq!(cw, w.div_ceil(2), "chroma width ceil at {w}x{h}");
        assert_eq!(ch, h.div_ceil(2), "chroma height ceil at {w}x{h}");
    }
    let l = PixelLayout::Yuv422;
    assert_eq!(l.plane_dimensions(1, 1919, 1079).unwrap(), (960, 1079));
    for l in [
        PixelLayout::Yuv444,
        PixelLayout::Gbr,
        PixelLayout::Rgb,
        PixelLayout::Gray,
    ] {
        for i in 0..l.plane_count() {
            assert_eq!(l.plane_dimensions(i, 1919, 1079).unwrap(), (1919, 1079));
        }
    }
    assert_eq!(
        PixelLayout::Yuva420.total_sample_count(3, 3).unwrap(),
        9 + 4 + 4 + 9
    );
}

#[test]
fn packed_layouts_have_total_canonical_targets() {
    for p in [
        PackedSourceLayout::Nv12,
        PackedSourceLayout::Nv21,
        PackedSourceLayout::P010,
        PackedSourceLayout::P016,
    ] {
        assert_eq!(p.canonical_target(), PixelLayout::Yuv420);
    }
    assert_eq!(
        PackedSourceLayout::Yuyv422.canonical_target(),
        PixelLayout::Yuv422
    );
    assert_eq!(
        PackedSourceLayout::Uyvy422.canonical_target(),
        PixelLayout::Yuv422
    );
    assert_eq!(
        PackedSourceLayout::Pal8.canonical_target(),
        PixelLayout::Indexed
    );
    assert_eq!(PixelLayout::Bgr.planes()[0].component, Component::B);
    assert_eq!(PixelLayout::Argb.planes()[0].component, Component::A);
    assert_eq!(PixelLayout::Indexed.planes()[0].component, Component::Index);
}

#[test]
fn component_labels_are_stable() {
    assert_eq!(Component::Y.label(), "Y");
    assert!(Component::Y.is_luma());
    assert!(Component::Gray.is_luma());
    assert!(Component::Cb.is_chroma());
    assert!(Component::A.is_alpha());
    assert_eq!(PixelLayout::Yuv420.label(), "yuv420");
}

#[test]
fn geometry_errors_are_typed() {
    assert_eq!(
        PixelLayout::Yuv420.plane_dimensions(3, 4, 4).unwrap_err(),
        VoleError::GeometryMismatch
    );
    assert_eq!(
        PixelLayout::Gray.plane_dimensions(0, 0, 4).unwrap_err(),
        VoleError::GeometryMismatch
    );
    assert_eq!(
        PixelLayout::Gray.total_sample_count(0, 4).unwrap_err(),
        VoleError::GeometryMismatch
    );
    assert_eq!(PixelLayout::Yuv420.plane_sample_count(1, 5, 5).unwrap(), 9);
    assert_eq!(PackedSourceLayout::Uyvy422.label(), "uyvy422");
    assert_eq!(Component::Other(7).label(), "Other");
}

#[test]
fn ceil_rule_holds_at_the_widest_axis() {
    assert_eq!(
        PixelLayout::Yuv420.plane_dimensions(1, u32::MAX, 1).unwrap(),
        (2_147_483_648, 1)
    );
    assert_eq!(
        PixelLayout::Yuv420.plane_dimensions(0, u32::MAX, 1).unwrap(),
        (u32::MAX, 1)
    );
}
