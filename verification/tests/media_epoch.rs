use vole::error::VoleError;
use vole::media::color::{
    ColorDescription, ColorPrimaries, ColorRange, MatrixCoefficients, TransferCharacteristic,
};
use vole::media::epoch::{CanonicalVideo, CanonicalVideoObservation, EpochId, VideoEpoch};
use vole::media::layout::{Component, PixelLayout};
use vole::media::meta::{FieldStructure, Orientation, SampleAspectRatio};
use vole::media::plane::{BitDepth, Plane, PlaneData};
use vole::media::time::{Duration, Pts, TimeBase};

fn hdr_epoch(id: u64, w: u32, h: u32, layout: PixelLayout, depth: u8) -> VideoEpoch {
    VideoEpoch::new_uniform(
        EpochId(id),
        w,
        h,
        layout,
        BitDepth::new(depth).unwrap(),
        ColorDescription::bt2020_pq(),
        SampleAspectRatio::square(),
        Orientation::Normal,
        FieldStructure::Progressive,
    )
    .unwrap()
}

fn synthetic_planes(epoch: &VideoEpoch) -> Vec<Plane> {
    (0..epoch.plane_count())
        .map(|i| epoch.synthetic_plane(i).unwrap())
        .collect()
}

fn obs_of(epoch: &VideoEpoch, pts: Pts) -> CanonicalVideoObservation {
    CanonicalVideoObservation::new(
        epoch,
        pts,
        Some(Duration::new(1, pts.time_base()).unwrap()),
        synthetic_planes(epoch),
    )
    .unwrap()
}

#[test]
fn epoch_derives_exact_plane_tables() {
    let e = hdr_epoch(0, 1920, 1080, PixelLayout::Yuv420, 10);
    assert_eq!(e.plane_count(), 3);
    assert_eq!(e.plane_dimensions(0).unwrap(), (1920, 1080));
    assert_eq!(e.plane_dimensions(1).unwrap(), (960, 540));
    assert_eq!(e.plane_sample_count(0).unwrap(), 1920 * 1080);
    assert_eq!(e.total_sample_count().unwrap(), 1920 * 1080 + 2 * 960 * 540);
    assert_eq!(
        e.observation_bytes().unwrap(),
        (1920 * 1080 + 2 * 960 * 540) * 2,
        "10-bit storage is u16"
    );
    assert_eq!(e.planes()[0].component, Component::Y);
    assert_eq!(e.color(), ColorDescription::bt2020_pq());
    assert_eq!(e.color().primaries(), ColorPrimaries::Bt2020);
    assert_eq!(e.color().transfer(), TransferCharacteristic::Smpte2084);
    assert_eq!(e.color().matrix(), MatrixCoefficients::Bt2020Ncl);
    assert_eq!(e.color().range(), ColorRange::Limited);
}

#[test]
fn observation_validation_is_exact_and_typed() {
    let e = hdr_epoch(0, 4, 4, PixelLayout::Yuv420, 10);
    let tb = TimeBase::for_frame_rate(24000, 1001).unwrap();
    let pts = Pts::new(0, tb);
    let good = obs_of(&e, pts);
    assert_eq!(good.epoch(), EpochId(0));
    assert_eq!(good.planes().len(), 3);
    assert_eq!(e.check_observation(&good), Ok(()));
    // A wrong epoch binding is an epoch violation.
    let other = hdr_epoch(7, 4, 4, PixelLayout::Yuv420, 10);
    let forged = obs_of(&other, pts);
    assert_eq!(e.check_observation(&forged).unwrap_err(), VoleError::EpochViolation);
    // Too few planes is a geometry mismatch.
    let mut short = synthetic_planes(&e);
    short.pop();
    assert!(matches!(
        CanonicalVideoObservation::new(&e, pts, None, short).unwrap_err(),
        VoleError::GeometryMismatch
    ));
    // A luma-sized plane in the chroma slot is a geometry mismatch.
    let mut wrong_geo = synthetic_planes(&e);
    let bad = Plane::new(
        Component::Cb,
        4,
        4,
        BitDepth::new(10).unwrap(),
        0,
        0,
        PlaneData::U16(vec![0; 16]),
    )
    .unwrap();
    wrong_geo[1] = bad;
    assert!(matches!(
        CanonicalVideoObservation::new(&e, pts, None, wrong_geo).unwrap_err(),
        VoleError::GeometryMismatch
    ));
    // A depth-8 plane in a 10-bit slot is refused.
    let mut wrong_depth = synthetic_planes(&e);
    let d8 = BitDepth::new(8).unwrap();
    let (pw, ph) = e.plane_dimensions(2).unwrap();
    wrong_depth[2] = Plane::new(
        Component::Cr,
        pw,
        ph,
        d8,
        1,
        1,
        PlaneData::U8(vec![0; (pw * ph) as usize]),
    )
    .unwrap();
    assert!(matches!(
        CanonicalVideoObservation::new(&e, pts, None, wrong_depth).unwrap_err(),
        VoleError::GeometryMismatch | VoleError::InvalidSamples
    ));
}

#[test]
fn sequence_validates_presentation_order_and_epoch_changes() {
    let a = hdr_epoch(0, 4, 4, PixelLayout::Yuv420, 10);
    let b = hdr_epoch(1, 6, 6, PixelLayout::Yuv444, 12);
    let tb = TimeBase::for_frame_rate(30000, 1001).unwrap();
    let one = Duration::new(1, tb).unwrap();
    let mut stamps = Vec::new();
    let mut pts = Pts::new(-1001, tb);
    for _ in 0..4 {
        stamps.push(pts);
        pts = pts.checked_add(one).unwrap();
    }
    let build = |order: [usize; 4], bad_epoch: bool| {
        let mut observations = Vec::new();
        for (k, &slot) in order.iter().enumerate() {
            let e = if k < 2 { &a } else { &b };
            if bad_epoch && k == 0 {
                observations.push(obs_of(&hdr_epoch(9, 4, 4, PixelLayout::Yuv420, 10), stamps[slot]));
            } else {
                observations.push(obs_of(e, stamps[slot]));
            }
        }
        CanonicalVideo::new(vec![a.clone(), b.clone()], observations)
    };
    let v = build([0, 1, 2, 3], false).unwrap();
    assert_eq!(v.epochs().len(), 2);
    assert_eq!(v.observation_count(), 4);
    assert_eq!(v.epoch_of(2).unwrap().layout(), PixelLayout::Yuv444);
    assert_eq!(v.epoch_of(2).unwrap().plane_count(), 3);
    // A reordered (non-increasing PTS) sequence fails typed.
    assert!(matches!(build([0, 2, 1, 3], false).unwrap_err(), VoleError::EpochViolation));
    // Unknown epoch id in the observation list fails typed.
    assert!(matches!(build([0, 1, 2, 3], true).unwrap_err(), VoleError::EpochViolation));
    // Span is exact: 4 observations of 1 tick at 30000/1001 -> 4 ticks.
    let span = v.total_span(tb).unwrap().unwrap();
    assert_eq!(span.value(), 4);
    assert_eq!(span.time_base(), tb);
    // End PTS: start −1001 + 4 ticks = −997.
    assert_eq!(v.end_pts().unwrap().value(), -997);
}

#[test]
fn epoch_ids_must_be_dense() {
    let a = hdr_epoch(5, 4, 4, PixelLayout::Yuv420, 10);
    let tb = TimeBase::ticks_per_second(25).unwrap();
    let obs = obs_of(&a, Pts::new(0, tb));
    assert!(matches!(
        CanonicalVideo::new(vec![a], vec![obs]).unwrap_err(),
        VoleError::EpochViolation
    ));
    // Missing durations make the span undefined, never guessed.
    let e = hdr_epoch(0, 4, 4, PixelLayout::Gray, 8);
    let p = Pts::new(0, tb);
    let o = CanonicalVideoObservation::new(&e, p, None, synthetic_planes(&e)).unwrap();
    let v = CanonicalVideo::new(vec![e], vec![o]).unwrap();
    assert_eq!(v.total_span(tb).unwrap(), None);
    assert!(v.end_pts().is_none());
}

#[test]
fn epochs_validate_geometry_and_carry_side_data() {
    let bad = VideoEpoch::new_uniform(
        EpochId(0),
        0,
        4,
        PixelLayout::Gray,
        BitDepth::new(8).unwrap(),
        ColorDescription::unspecified(),
        SampleAspectRatio::square(),
        Orientation::Normal,
        FieldStructure::Progressive,
    );
    assert_eq!(bad.err().map(|_| ()), Some(()));
    let depths = [BitDepth::new(8).unwrap(), BitDepth::new(10).unwrap()];
    let short = VideoEpoch::new_per_plane(
        EpochId(0),
        4,
        4,
        PixelLayout::Yuv420,
        &depths,
        ColorDescription::unspecified(),
        SampleAspectRatio::square(),
        Orientation::Normal,
        FieldStructure::Progressive,
    );
    assert!(matches!(short.err(), Some(VoleError::GeometryMismatch)));
    let e = hdr_epoch(0, 3, 3, PixelLayout::Yuv420, 8);
    assert_eq!(e.plane_dimensions(1).unwrap(), (2, 2));
    assert_eq!(e.observation_bytes().unwrap(), 9 + 4 + 4);
    assert_eq!(e.synthetic_plane(0).unwrap().canonical_bytes(), vec![0x80; 9]);
    assert!(matches!(e.synthetic_plane(3).err(), Some(VoleError::GeometryMismatch)));
}
