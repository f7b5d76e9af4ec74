use vole::error::VoleError;
use vole::media::color::{
    ColorDescription, ColorPrimaries, ColorRange, ContentLightLevel, HdrMetadata,
    MasteringDisplay, MatrixCoefficients, TransferCharacteristic, MAX_LUMINANCE_UNITS,
};
use vole::media::meta::{
    FieldStructure, Orientation, SampleAspectRatio, SideDataClass, VisualSideData,
    VisualSideDataKind, MAX_OPAQUE_SIDE_DATA,
};

#[test]
fn standard_descriptions_are_exact_signaling_sets() {
    let pq = ColorDescription::bt2020_pq();
    assert_eq!(pq.primaries(), ColorPrimaries::Bt2020);
    assert_eq!(pq.transfer(), TransferCharacteristic::Smpte2084);
    assert_eq!(pq.matrix(), MatrixCoefficients::Bt2020Ncl);
    assert_eq!(pq.range(), ColorRange::Limited);
    assert!(!pq.has_unspecified());
    assert_eq!(pq.describe(), "bt2020/pq/bt2020ncl/limited/center");
    assert!(ColorDescription::unspecified().has_unspecified());
    assert!(ColorDescription::bt601_sd().primaries() == ColorPrimaries::Smpte170M);
    assert!(ColorDescription::rgb_full().matrix().is_identity());
    assert_eq!(
        ColorDescription::bt2020_hlg().transfer(),
        TransferCharacteristic::AribStdB67
    );
}

#[test]
fn hdr_metadata_is_bounded_and_typed() {
    let ok = MasteringDisplay::new(
        [(0, 0), (50000, 0), (0, 50000)],
        (15635, 16450),
        10_000_000,
        50,
    )
    .unwrap();
    assert_eq!(ok.max_luminance, 10_000_000);
    assert!(MasteringDisplay::new([(50001, 0), (0, 0), (0, 0)], (0, 0), 1, 0).is_err());
    assert!(MasteringDisplay::new([(0, 0), (0, 0), (0, 0)], (0, 0), 1, 2).is_err());
    assert!(MasteringDisplay::new(
        [(0, 0), (0, 0), (0, 0)],
        (0, 0),
        MAX_LUMINANCE_UNITS + 1,
        0
    )
    .is_err());
    let m = HdrMetadata {
        mastering_display: Some(ok),
        content_light_level: Some(ContentLightLevel {
            max_cll: 1000,
            max_fall: 400,
        }),
    };
    assert_eq!(m.mastering_display.unwrap().white_point, (15635, 16450));
    assert_eq!(m.content_light_level.unwrap().max_cll, 1000);
}

#[test]
fn sar_and_display_aspect_are_exact() {
    let sar = SampleAspectRatio::new(4, 3).unwrap();
    assert!(!sar.is_square());
    assert_eq!(sar.display_aspect(1920, 1080).unwrap(), (64, 27));
    assert!(SampleAspectRatio::new(0, 1).is_err());
    assert!(SampleAspectRatio::new(1, 0).is_err());
    assert!(SampleAspectRatio::square().is_square());
}

#[test]
fn orientation_and_field_structure_are_interpretation_only() {
    assert!(Orientation::Normal.is_identity());
    assert!(!Orientation::Rotate90.is_identity());
    assert!(!FieldStructure::Progressive.is_interlaced());
    assert!(FieldStructure::InterlacedTopFieldFirst.is_interlaced());
    assert_eq!(
        FieldStructure::InterlacedTopFieldFirst.label(),
        "interlaced-tff"
    );
}

#[test]
fn side_data_registry_is_bounded_and_classified() {
    let md = VisualSideData::MasteringDisplay(
        MasteringDisplay::new(
            [(0, 0), (50000, 0), (0, 50000)],
            (15635, 16450),
            10_000_000,
            50,
        )
        .unwrap(),
    );
    let cll = VisualSideData::ContentLightLevel(ContentLightLevel {
        max_cll: 1000,
        max_fall: 400,
    });
    assert!(md.is_typed());
    assert_eq!(md.kind(), VisualSideDataKind::MasteringDisplay);
    assert_eq!(md.classification(), SideDataClass::KnownTyped);
    assert_eq!(cll.kind(), VisualSideDataKind::ContentLightLevel);
    assert!(VisualSideData::opaque(0xABCD, vec![0; 5]).is_ok());
    assert!(VisualSideData::opaque(0xABCD, vec![0; MAX_OPAQUE_SIDE_DATA + 1]).is_err());
    let op = VisualSideData::opaque(0xABCD, vec![1, 2, 3]).unwrap();
    assert_eq!(op.kind(), VisualSideDataKind::Other(0xABCD));
    assert_eq!(op.classification(), SideDataClass::Unsupported);
    assert!(!op.is_typed());
}

#[test]
fn labels_are_stable() {
    assert_eq!(ColorPrimaries::Bt709.label(), "bt709");
    assert_eq!(TransferCharacteristic::Bt2020_10.label(), "bt2020-10");
    assert_eq!(ColorRange::Full.label(), "full");
    assert_eq!(Orientation::FlipHorizontal.label(), "flip-horizontal");
    assert_eq!(VisualSideDataKind::Timecode.label(), "timecode");
    assert_eq!(
        ColorDescription::bt709_sdr().describe(),
        "bt709/bt709/bt709/limited/center"
    );
    let sar = SampleAspectRatio::new(1, 1).unwrap();
    assert_eq!(sar.display_aspect(1280, 720).unwrap(), (16, 9));
    assert!(sar.display_aspect(0, 720).is_err());
}

#[test]
fn display_aspect_refuses_ratios_beyond_u32() {
    let sar = SampleAspectRatio::new(2, 1).unwrap();
    assert_eq!(
        sar.display_aspect(u32::MAX, 1).unwrap_err(),
        VoleError::ArithmeticOverflow
    );
    assert_eq!(sar.display_aspect(u32::MAX, 2).unwrap(), (u32::MAX, 1));
}
