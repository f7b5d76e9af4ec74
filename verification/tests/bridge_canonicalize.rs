use vole::error::VoleError;
use vole::media::bridge::canonicalize::{
    expected_canonical_bytes, layout_and_depth, layout_kind, plane_dims, repack_frame, supported,
    unpack_frame, CarrierKind,
};
use vole::media::color::ColorDescription;
use vole::media::epoch::{EpochId, VideoEpoch};
use vole::media::layout::{Component, PixelLayout};
use vole::media::meta::{FieldStructure, Orientation, SampleAspectRatio};
use vole::media::picture::Picture;
use vole::media::plane::{BitDepth, Plane, PlaneData, PlaneStorage};

fn epoch_for(layout: PixelLayout, depth: u8, w: u64, h: u64) -> VideoEpoch {
    VideoEpoch::new_uniform(
        EpochId(0),
        w as u32,
        h as u32,
        layout,
        BitDepth::new(depth).unwrap(),
        ColorDescription::unspecified(),
        SampleAspectRatio::square(),
        Orientation::Normal,
        FieldStructure::Progressive,
    )
    .unwrap()
}

fn check_roundtrip(name: &str, w: u64, h: u64) {
    let (layout, depth) = layout_and_depth(name).unwrap();
    let epoch = epoch_for(layout, depth, w, h);
    let want = expected_canonical_bytes(name, w, h).unwrap();
    let zero_packed = ["rgb0", "bgr0", "0rgb", "0bgr"];
    if !zero_packed.contains(&name) {
        assert_eq!(
            epoch.observation_bytes().unwrap(),
            want,
            "{name}: canonical size matches the source payload size"
        );
    }
    let max = BitDepth::new(depth).unwrap().max_sample();
    let mut seed = 0x243F_6A88_85A3_08D3u64;
    let mut next = move || {
        seed ^= seed << 13;
        seed ^= seed >> 7;
        seed ^= seed << 17;
        (seed >> 33) as u32 % (max + 1)
    };
    let mut planes = Vec::new();
    for p in 0..epoch.plane_count() {
        let (pw, ph) = epoch.plane_dimensions(p).unwrap();
        let tmpl = &epoch.planes()[p];
        let n = (pw * ph) as usize;
        let values: Vec<u32> = (0..n).map(|_| next()).collect();
        let data = match tmpl.bit_depth.storage() {
            PlaneStorage::U8 => PlaneData::U8(values.iter().map(|v| *v as u8).collect()),
            PlaneStorage::U16 => PlaneData::U16(values.iter().map(|v| *v as u16).collect()),
        };
        planes.push(
            Plane::new(
                tmpl.component,
                pw,
                ph,
                tmpl.bit_depth,
                tmpl.subsample_x,
                tmpl.subsample_y,
                data,
            )
            .unwrap(),
        );
    }
    let pic = Picture::from_planes(&epoch, planes.clone()).unwrap();
    if !zero_packed.contains(&name) {
        assert_eq!(pic.total_bytes(), want);
    }
    let payload = repack_frame(name, w, h, &planes).unwrap();
    assert_eq!(payload.len() as u64, want);
    let round = unpack_frame(name, w, h, &payload).unwrap();
    for (a, b) in planes.iter().zip(round.iter()) {
        assert_eq!(a.canonical_bytes(), b.canonical_bytes());
    }
    let again = repack_frame(name, w, h, &round).unwrap();
    assert_eq!(again, payload, "{name}: pack then unpack is the identity at {w}x{h}");
}

#[test]
fn unpack_repack_roundtrips_odd_and_even() {
    for name in supported() {
        for (w, h) in [(16u64, 16u64), (18, 12), (3, 3)] {
            let even_only = name == "yuyv422" || name == "uyvy422";
            if even_only && (w % 2 != 0) {
                continue;
            }
            check_roundtrip(name, w, h);
        }
    }
}

#[test]
fn padding_bits_beyond_active_depth_are_refused() {
    let (layout, depth) = layout_and_depth("yuv420p10le").unwrap();
    let epoch = epoch_for(layout, depth, 16, 16);
    let want = expected_canonical_bytes("yuv420p10le", 16, 16).unwrap();
    assert_eq!(epoch.observation_bytes().unwrap(), want);
    let mut payload = vec![0xFFu8; want as usize];
    payload[0] = 0x00;
    payload[1] = 0x04;
    assert_eq!(
        unpack_frame("yuv420p10le", 16, 16, &payload).unwrap_err(),
        VoleError::InvalidSamples
    );
    assert_eq!(
        unpack_frame("yuv420p10le", 16, 16, &payload[..want as usize - 1]).unwrap_err(),
        VoleError::InvalidSamples
    );
}

#[test]
fn unsupported_formats_fail_closed() {
    assert_eq!(
        layout_and_depth("yuv420p10be").unwrap_err(),
        VoleError::UnsupportedPixelLayout
    );
    assert_eq!(
        layout_and_depth("pal8").unwrap_err(),
        VoleError::UnsupportedPixelLayout
    );
    assert_eq!(
        layout_and_depth("not-a-format").unwrap_err(),
        VoleError::UnsupportedPixelLayout
    );
}

#[test]
fn supported_table_has_every_family() {
    let names = supported();
    assert_eq!(names.len(), 42);
    for name in &names {
        assert!(layout_and_depth(name).is_ok(), "{name}");
        assert!(expected_canonical_bytes(name, 4, 4).is_ok(), "{name}");
    }
    assert_eq!(layout_and_depth("nv12").unwrap(), (PixelLayout::Yuv420, 8));
    assert_eq!(layout_and_depth("gray16le").unwrap(), (PixelLayout::Gray, 16));
}

#[test]
fn carrier_kind_separates_tight_from_repacked() {
    assert_eq!(layout_kind("yuv420p").unwrap(), CarrierKind::Canonical);
    assert_eq!(layout_kind("nv12").unwrap(), CarrierKind::SourceRepacked);
    assert_eq!(layout_kind("rgb24").unwrap(), CarrierKind::SourceRepacked);
    assert_eq!(
        layout_kind("pal8").unwrap_err(),
        VoleError::UnsupportedPixelLayout
    );
}

#[test]
fn expected_bytes_exact_values() {
    // 4:2:0 at 3x3: luma 9, each chroma ceil(3/2)^2 = 4.
    assert_eq!(expected_canonical_bytes("yuv420p", 3, 3).unwrap(), 9 + 4 + 4);
    assert_eq!(expected_canonical_bytes("yuv420p10le", 3, 3).unwrap(), 2 * (9 + 4 + 4));
    assert_eq!(expected_canonical_bytes("nv12", 4, 2).unwrap(), 8 + 2 * 2);
    assert_eq!(expected_canonical_bytes("rgb0", 2, 2).unwrap(), 16);
    assert_eq!(expected_canonical_bytes("yuyv422", 4, 1).unwrap(), 8);
    assert_eq!(
        expected_canonical_bytes("gray16le", u64::MAX, 2).unwrap_err(),
        VoleError::ArithmeticOverflow
    );
}

#[test]
fn plane_dims_round_up() {
    assert_eq!(plane_dims(PixelLayout::Yuv420, 5, 3, 0).unwrap(), (5, 3));
    assert_eq!(plane_dims(PixelLayout::Yuv420, 5, 3, 1).unwrap(), (3, 2));
    assert_eq!(plane_dims(PixelLayout::Yuv422, 5, 3, 2).unwrap(), (3, 3));
    assert!(plane_dims(PixelLayout::Yuv420, 5, 3, 3).is_err());
}

#[test]
fn nv12_interleaves_chroma_in_source_order() {
    // 2x2 nv12: Y0..Y3, then one Cb, Cr pair.
    let payload = vec![10u8, 11, 12, 13, 200, 100];
    let planes = unpack_frame("nv12", 2, 2, &payload).unwrap();
    assert_eq!(planes.len(), 3);
    assert_eq!(planes[0].canonical_bytes(), vec![10, 11, 12, 13]);
    assert_eq!(planes[1].component(), Component::Cb);
    assert_eq!(planes[1].canonical_bytes(), vec![200]);
    assert_eq!(planes[2].canonical_bytes(), vec![100]);
    let nv21 = repack_frame("nv21", 2, 2, &planes).unwrap();
    assert_eq!(nv21, vec![10, 11, 12, 13, 100, 200]);
}

#[test]
fn zero_channel_padding_is_written_as_zero() {
    // rgb0 at 1x1: R, G, B, pad.
    let planes = unpack_frame("rgb0", 1, 1, &[1, 2, 3, 99]).unwrap();
    assert_eq!(planes.len(), 3);
    assert_eq!(planes[0].canonical_bytes(), vec![1]);
    // The pad byte is not canonical content: repacking writes it as zero.
    assert_eq!(repack_frame("rgb0", 1, 1, &planes).unwrap(), vec![1, 2, 3, 0]);
}

#[test]
fn packed_422_needs_even_width() {
    assert_eq!(
        unpack_frame("yuyv422", 3, 1, &[0u8; 6]).unwrap_err(),
        VoleError::UnsupportedPixelLayout
    );
    let planes = unpack_frame("yuyv422", 2, 1, &[1, 2, 3, 4]).unwrap();
    assert_eq!(planes[0].canonical_bytes(), vec![1, 3]);
    assert_eq!(planes[1].canonical_bytes(), vec![2]);
    assert_eq!(planes[2].canonical_bytes(), vec![4]);
    assert_eq!(
        repack_frame("uyvy422", 2, 1, &planes).unwrap(),
        vec![2, 1, 4, 3]
    );
}

#[test]
fn repack_needs_every_component() {
    let planes = unpack_frame("gray", 2, 2, &[1, 2, 3, 4]).unwrap();
    assert_eq!(
        repack_frame("yuv420p", 2, 2, &planes).unwrap_err(),
        VoleError::GeometryMismatch
    );
    assert_eq!(
        repack_frame("pal8", 2, 2, &planes).unwrap_err(),
        VoleError::UnsupportedPixelLayout
    );
    assert_eq!(
        unpack_frame("gray", 0, 2, &[]).unwrap_err(),
        VoleError::GeometryMismatch
    );
}
