use vole::error::VoleError;
use vole::media::color::ColorDescription;
use vole::media::epoch::{EpochId, VideoEpoch};
use vole::media::ingest::{encode_pictures_exact, ramp_picture, uniform_picture};
use vole::media::layout::PixelLayout;
use vole::media::meta::{FieldStructure, Orientation, SampleAspectRatio};
use vole::media::picture::Picture;
use vole::media::plane::BitDepth;

fn epoch(w: u32, h: u32, layout: PixelLayout, depth: u8) -> VideoEpoch {
    VideoEpoch::new_uniform(
        EpochId(0),
        w,
        h,
        layout,
        BitDepth::new(depth).unwrap(),
        ColorDescription::unspecified(),
        SampleAspectRatio::square(),
        Orientation::Normal,
        FieldStructure::Progressive,
    )
    .unwrap()
}

fn roundtrip(ep: &VideoEpoch, pics: &[Picture]) {
    let prog = encode_pictures_exact(ep, pics).unwrap();
    assert_eq!(prog.observation_count(), pics.len() as u64);
    for (i, want) in pics.iter().enumerate() {
        let got = prog.materialize_observation(i as u64).unwrap();
        assert_eq!(got.plane_count(), want.plane_count());
        for p in 0..want.plane_count() {
            let (pw, ph) = ep.plane_dimensions(p).unwrap();
            for y in 0..ph {
                for x in 0..pw {
                    assert_eq!(got.get(p, x, y), want.get(p, x, y));
                }
            }
        }
    }
}

#[test]
fn empty_sequence_is_an_api_constraint() {
    let ep = epoch(4, 2, PixelLayout::Yuv420, 8);
    assert_eq!(encode_pictures_exact(&ep, &[]).unwrap_err(), VoleError::ApiConstraint);
}

#[test]
fn uniform_sequence_roundtrips_exactly() {
    let ep = epoch(4, 2, PixelLayout::Yuv420, 8);
    let a = uniform_picture(&ep, &[16, 128, 128]).unwrap();
    let b = uniform_picture(&ep, &[17, 128, 130]).unwrap();
    roundtrip(&ep, &[a.clone(), a.clone(), b.clone(), b, a]);
}

#[test]
fn ramps_roundtrip_exactly_at_high_depth() {
    let ep = epoch(6, 4, PixelLayout::Yuv444, 10);
    let pics: Vec<Picture> = (0..4u64).map(|s| ramp_picture(&ep, s / 2).unwrap()).collect();
    roundtrip(&ep, &pics);
}

#[test]
fn ramp_and_uniform_mix_roundtrips() {
    let ep = epoch(5, 3, PixelLayout::Yuv420, 8);
    let u = uniform_picture(&ep, &[0, 255, 7]).unwrap();
    let r1 = ramp_picture(&ep, 1).unwrap();
    let r2 = ramp_picture(&ep, 2).unwrap();
    roundtrip(&ep, &[r1.clone(), u.clone(), r2, r1, u]);
}

#[test]
fn ramp_stays_in_the_sample_domain_and_spans_it() {
    let ep = epoch(9, 1, PixelLayout::Gray, 8);
    let p = ramp_picture(&ep, 3).unwrap();
    assert!(p.validate_against(&ep).is_ok());
    // The first column starts from zero plus a dither below five; the last
    // column saturates to the depth maximum.
    assert!(p.get(0, 0, 0).unwrap() < 5);
    assert_eq!(p.get(0, 8, 0), Some(255));
    // Deterministic per seed.
    let q = ramp_picture(&ep, 3).unwrap();
    for x in 0..9 {
        assert_eq!(p.get(0, x, 0), q.get(0, x, 0));
    }
}

#[test]
fn uniform_picture_rejects_wrong_value_count_and_range() {
    let ep = epoch(4, 2, PixelLayout::Yuv420, 8);
    assert!(uniform_picture(&ep, &[1, 2]).is_err());
    assert!(uniform_picture(&ep, &[1, 2, 256]).is_err());
    let p = uniform_picture(&ep, &[1, 2, 3]).unwrap();
    assert_eq!(p.get(2, 1, 0), Some(3));
}

#[test]
fn mismatched_observation_is_refused() {
    let ep = epoch(4, 2, PixelLayout::Yuv420, 8);
    let other = epoch(6, 2, PixelLayout::Yuv420, 8);
    let good = uniform_picture(&ep, &[1, 2, 3]).unwrap();
    let bad = uniform_picture(&other, &[1, 2, 3]).unwrap();
    assert!(encode_pictures_exact(&ep, &[good, bad]).is_err());
}
