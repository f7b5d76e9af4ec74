use vole::error::VoleError;
use vole::media::color::ColorDescription;
use vole::media::epoch::{EpochId, VideoEpoch};
use vole::media::layout::PixelLayout;
use vole::media::meta::{FieldStructure, Orientation, SampleAspectRatio, VisualSideData};
use vole::media::plane::BitDepth;
use vole::media::procedural::{
    MultiPlaneProgram, PlaneInstance, PlaneInstanceId, PlaneObject, PlaneObjectId, PlaneOp,
    PlaneProgram,
};
use vole::media::wire::{parse_multiplane, write_multiplane, MAX_COORD};

fn epoch(layout: PixelLayout, depth: u8) -> VideoEpoch {
    VideoEpoch::new_uniform(
        EpochId(0),
        8,
        4,
        layout,
        BitDepth::new(depth).unwrap(),
        ColorDescription::unspecified(),
        SampleAspectRatio::new(4, 3).unwrap(),
        Orientation::Rotate90,
        FieldStructure::Progressive,
    )
    .unwrap()
}

fn gray_program(depth: u8) -> MultiPlaneProgram {
    let d = BitDepth::new(depth).unwrap();
    let mut p = PlaneProgram::new(3);
    p.objects.insert(9, PlaneObject::fill(2, 2, 7));
    p.objects
        .insert(2, PlaneObject::raster(2, 1, d, &[1, 200]).unwrap());
    p.instances.push(PlaneInstance {
        id: PlaneInstanceId(1),
        object: PlaneObjectId(2),
        x: -1,
        y: 2,
    });
    p.overlay.push((0, 0, 5));
    p.overlay.push((1, 0, 6));
    p.intervals.push((
        1,
        vec![
            PlaneOp::SetPosition {
                id: PlaneInstanceId(1),
                x: 3,
                y: -4,
            },
            PlaneOp::PatchOverlay {
                points: vec![(2, 2, 9), (2, 3, 10)],
            },
            PlaneOp::CopyRect {
                src_x: 0,
                src_y: 0,
                width: 2,
                height: 2,
                dst_x: 4,
                dst_y: 1,
            },
        ],
    ));
    p.intervals.push((
        3,
        vec![
            PlaneOp::DeclareObject {
                id: PlaneObjectId(11),
                object: PlaneObject::fill(1, 1, 4),
            },
            PlaneOp::ClearInstances,
            PlaneOp::CreateInstance {
                id: PlaneInstanceId(2),
                object: PlaneObjectId(11),
                x: 0,
                y: 0,
            },
            PlaneOp::ClearOverlay,
            PlaneOp::Residual { block: vec![0, 0] },
        ],
    ));
    MultiPlaneProgram::new(epoch(PixelLayout::Gray, depth), vec![p]).unwrap()
}

#[test]
fn container_roundtrips_byte_exactly() {
    for depth in [8u8, 10] {
        let prog = gray_program(depth);
        let bytes = write_multiplane(&prog).unwrap();
        assert_eq!(&bytes[0..4], b"VOLE");
        let back = parse_multiplane(&bytes).unwrap();
        assert_eq!(back.epoch.width(), 8);
        assert_eq!(back.epoch.height(), 4);
        assert_eq!(back.epoch.orientation(), Orientation::Rotate90);
        assert_eq!(back.planes.len(), 1);
        assert_eq!(back.planes[0].objects.len(), 2);
        assert_eq!(back.planes[0].intervals.len(), 2);
        assert_eq!(write_multiplane(&back).unwrap(), bytes);
    }
}

#[test]
fn multiplane_layouts_roundtrip() {
    let ep = epoch(PixelLayout::Yuv420, 8);
    let prog = MultiPlaneProgram::new(
        ep,
        vec![PlaneProgram::new(16), PlaneProgram::new(128), PlaneProgram::new(128)],
    )
    .unwrap();
    let bytes = write_multiplane(&prog).unwrap();
    let back = parse_multiplane(&bytes).unwrap();
    assert_eq!(back.planes.len(), 3);
    assert_eq!(back.planes[0].background, 16);
    assert_eq!(write_multiplane(&back).unwrap(), bytes);
}

#[test]
fn hostile_containers_are_typed() {
    let bytes = write_multiplane(&gray_program(8)).unwrap();
    // A flipped content byte fails the integrity trailer.
    let mut flipped = bytes.clone();
    let at = flipped.len() - 40;
    flipped[at] ^= 1;
    assert!(parse_multiplane(&flipped).is_err());
    // A flipped trailer byte is exactly an integrity mismatch.
    let mut trailer = bytes.clone();
    let last = trailer.len() - 1;
    trailer[last] ^= 0x80;
    assert_eq!(parse_multiplane(&trailer).unwrap_err(), VoleError::IntegrityMismatch);
    // Bad magic, short input, truncation.
    let mut magic = bytes.clone();
    magic[0] = b'X';
    assert_eq!(parse_multiplane(&magic).unwrap_err(), VoleError::BadMagic);
    assert_eq!(parse_multiplane(&bytes[..20]).unwrap_err(), VoleError::Truncated);
    assert!(parse_multiplane(&bytes[..bytes.len() - 1]).is_err());
    // Unsupported version.
    let mut version = bytes.clone();
    version[5] = 3;
    assert_eq!(parse_multiplane(&version).unwrap_err(), VoleError::UnsupportedFeature);
}

#[test]
fn writer_refuses_unwritable_programs() {
    // Side data is a reserved extension.
    let ep = epoch(PixelLayout::Gray, 8).with_side_data(VisualSideData::Opaque {
        kind: 7,
        payload: vec![1, 2],
    });
    let prog = MultiPlaneProgram::new(ep, vec![PlaneProgram::new(0)]).unwrap();
    assert_eq!(write_multiplane(&prog).unwrap_err(), VoleError::ApiConstraint);
    // A coordinate past the canonical bound.
    let mut p = PlaneProgram::new(0);
    p.objects.insert(1, PlaneObject::fill(1, 1, 1));
    p.instances.push(PlaneInstance {
        id: PlaneInstanceId(1),
        object: PlaneObjectId(1),
        x: MAX_COORD + 1,
        y: 0,
    });
    let prog = MultiPlaneProgram::new(epoch(PixelLayout::Gray, 8), vec![p]).unwrap();
    assert_eq!(
        write_multiplane(&prog).unwrap_err(),
        VoleError::NonCanonicalEncoding
    );
}
