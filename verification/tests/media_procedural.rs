use vole::error::VoleError;
use vole::limits::Limits;
use vole::media::color::ColorDescription;
use vole::media::epoch::{EpochId, VideoEpoch};
use vole::media::layout::PixelLayout;
use vole::media::meta::{FieldStructure, Orientation, SampleAspectRatio};
use vole::media::plane::{BitDepth, Plane};
use vole::media::procedural::{
    check_object_depth, check_program_depth, encode_plane_residual, materialize_all_observations,
    materialize_plane, MultiPlaneProgram, PlaneInstance, PlaneInstanceId, PlaneObject,
    PlaneObjectId, PlaneOp, PlaneProgram,
};

fn d8() -> BitDepth {
    BitDepth::new(8).unwrap()
}

fn samples(p: &Plane) -> Vec<u32> {
    (0..p.sample_len()).map(|i| p.sample(i)).collect()
}

fn inst(id: u32, obj: u32, x: i64, y: i64) -> PlaneInstance {
    PlaneInstance {
        id: PlaneInstanceId(id),
        object: PlaneObjectId(obj),
        x,
        y,
    }
}

#[test]
fn background_only_renders_uniform() {
    let prog = PlaneProgram::new(7);
    let p = materialize_plane(&prog, 4, 3, d8(), 0, &Limits::default()).unwrap();
    assert_eq!(p.width(), 4);
    assert_eq!(p.height(), 3);
    assert_eq!(samples(&p), vec![7; 12]);
}

#[test]
fn instances_paint_in_order_and_overlay_wins() {
    let mut prog = PlaneProgram::new(0);
    prog.objects.insert(1, PlaneObject::fill(2, 2, 200));
    let raster = PlaneObject::raster(2, 1, d8(), &[11, 12]).unwrap();
    prog.objects.insert(2, raster);
    prog.instances.push(inst(1, 1, 1, 1));
    // Partly off the left edge: only its second sample lands.
    prog.instances.push(inst(2, 2, -1, 1));
    prog.overlay.push((0, 0, 9));
    prog.overlay.push((3, 2, 5));
    // Out-of-canvas overlay points are dropped.
    prog.overlay.push((10, 10, 1));
    check_program_depth(&prog, d8(), &Limits::default()).unwrap();
    let p = materialize_plane(&prog, 4, 3, d8(), 0, &Limits::default()).unwrap();
    assert_eq!(
        samples(&p),
        vec![
            9, 0, 0, 0, //
            12, 200, 200, 0, //
            0, 200, 200, 5,
        ]
    );
}

#[test]
fn intervals_move_instances_and_copy_the_previous_observation() {
    let mut prog = PlaneProgram::new(0);
    prog.objects.insert(1, PlaneObject::fill(1, 1, 50));
    prog.instances.push(inst(1, 1, 0, 0));
    prog.intervals.push((
        1,
        vec![PlaneOp::SetPosition {
            id: PlaneInstanceId(1),
            x: 2,
            y: 0,
        }],
    ));
    prog.intervals.push((
        2,
        vec![PlaneOp::CopyRect {
            src_x: 2,
            src_y: 0,
            width: 1,
            height: 1,
            dst_x: 0,
            dst_y: 1,
        }],
    ));
    let lim = Limits::default();
    let o0 = materialize_plane(&prog, 3, 2, d8(), 0, &lim).unwrap();
    assert_eq!(samples(&o0), vec![50, 0, 0, 0, 0, 0]);
    let o1 = materialize_plane(&prog, 3, 2, d8(), 1, &lim).unwrap();
    assert_eq!(samples(&o1), vec![0, 0, 50, 0, 0, 0]);
    let o2 = materialize_plane(&prog, 3, 2, d8(), 2, &lim).unwrap();
    assert_eq!(samples(&o2), vec![0, 0, 50, 50, 0, 0]);
    // Observations past the last interval replay every interval.
    let o9 = materialize_plane(&prog, 3, 2, d8(), 9, &lim).unwrap();
    assert_eq!(samples(&o9), samples(&o2));
}

#[test]
fn residual_blocks_overwrite_points() {
    let block = encode_plane_residual(&[(0, 0, 5), (2, 1, 600)]).unwrap();
    let mut prog = PlaneProgram::new(1);
    prog.intervals.push((1, vec![PlaneOp::Residual { block }]));
    let d10 = BitDepth::new(10).unwrap();
    let p = materialize_plane(&prog, 3, 2, d10, 1, &Limits::default()).unwrap();
    assert_eq!(samples(&p), vec![5, 1, 1, 1, 1, 600]);
    // The same value is out of range at depth 8.
    assert_eq!(
        materialize_plane(&prog, 3, 2, d8(), 1, &Limits::default()).unwrap_err(),
        VoleError::InvalidSamples
    );
    // A point off the plane is refused.
    let off = encode_plane_residual(&[(3, 0, 1)]).unwrap();
    let mut prog2 = PlaneProgram::new(0);
    prog2.intervals.push((1, vec![PlaneOp::Residual { block: off }]));
    assert_eq!(
        materialize_plane(&prog2, 3, 2, d8(), 1, &Limits::default()).unwrap_err(),
        VoleError::NonCanonicalEncoding
    );
}

#[test]
fn residual_points_must_ascend() {
    assert_eq!(
        encode_plane_residual(&[(1, 0, 5), (0, 0, 6)]).unwrap_err(),
        VoleError::NonCanonicalEncoding
    );
    assert_eq!(
        encode_plane_residual(&[(1, 0, 5), (1, 0, 6)]).unwrap_err(),
        VoleError::NonCanonicalEncoding
    );
    assert!(encode_plane_residual(&[]).is_ok());
}

#[test]
fn program_checks_are_typed_in_order() {
    let lim = Limits::default();
    assert_eq!(
        check_program_depth(&PlaneProgram::new(256), d8(), &lim).unwrap_err(),
        VoleError::InvalidSamples
    );
    let mut p = PlaneProgram::new(0);
    p.intervals.push((0, vec![]));
    assert_eq!(
        check_program_depth(&p, d8(), &lim).unwrap_err(),
        VoleError::NonConsecutiveInterval
    );
    let mut p = PlaneProgram::new(0);
    p.intervals.push((2, vec![]));
    p.intervals.push((2, vec![]));
    assert_eq!(
        check_program_depth(&p, d8(), &lim).unwrap_err(),
        VoleError::NonConsecutiveInterval
    );
    let mut p = PlaneProgram::new(0);
    p.instances.push(inst(1, 4, 0, 0));
    assert_eq!(
        check_program_depth(&p, d8(), &lim).unwrap_err(),
        VoleError::UnknownObject
    );
    let mut p = PlaneProgram::new(0);
    p.objects.insert(4, PlaneObject::fill(1, 1, 3));
    p.instances.push(inst(1, 4, 0, 0));
    p.instances.push(inst(1, 4, 1, 0));
    assert_eq!(
        check_program_depth(&p, d8(), &lim).unwrap_err(),
        VoleError::DuplicateId
    );
    let mut p = PlaneProgram::new(0);
    p.overlay.push((1, 0, 3));
    p.overlay.push((0, 5, 3));
    assert_eq!(
        check_program_depth(&p, d8(), &lim).unwrap_err(),
        VoleError::NonCanonicalEncoding
    );
    let mut p = PlaneProgram::new(0);
    p.objects.insert(1, PlaneObject::fill(0, 1, 3));
    assert_eq!(
        check_program_depth(&p, d8(), &lim).unwrap_err(),
        VoleError::InvalidSamples
    );
}

#[test]
fn objects_are_checked_against_the_depth() {
    let d10 = BitDepth::new(10).unwrap();
    assert_eq!(
        PlaneObject::raster(2, 1, d10, &[1, 1024]).unwrap_err(),
        VoleError::InvalidSamples
    );
    assert_eq!(
        PlaneObject::raster(2, 2, d10, &[1, 2]).unwrap_err(),
        VoleError::InvalidSamples
    );
    let ok = PlaneObject::raster(2, 1, d10, &[1, 1023]).unwrap();
    assert!(check_object_depth(&ok, d10).is_ok());
    // Raster storage must match the depth's storage width.
    assert_eq!(
        check_object_depth(&ok, d8()).unwrap_err(),
        VoleError::InvalidSamples
    );
    assert_eq!(
        check_object_depth(&PlaneObject::fill(1, 1, 1024), d10).unwrap_err(),
        VoleError::InvalidSamples
    );
}

#[test]
fn state_transitions_are_typed() {
    let lim = Limits::default();
    let mut p = PlaneProgram::new(0);
    p.intervals.push((
        1,
        vec![PlaneOp::CreateInstance {
            id: PlaneInstanceId(1),
            object: PlaneObjectId(9),
            x: 0,
            y: 0,
        }],
    ));
    assert_eq!(
        materialize_plane(&p, 2, 2, d8(), 1, &lim).unwrap_err(),
        VoleError::UnknownObject
    );
    let mut p = PlaneProgram::new(0);
    p.intervals.push((
        1,
        vec![PlaneOp::SetPosition {
            id: PlaneInstanceId(3),
            x: 0,
            y: 0,
        }],
    ));
    assert_eq!(
        materialize_plane(&p, 2, 2, d8(), 1, &lim).unwrap_err(),
        VoleError::UnknownInstance
    );
    // Observation 0 does not replay interval 1.
    assert!(materialize_plane(&p, 2, 2, d8(), 0, &lim).is_ok());
    let mut p = PlaneProgram::new(0);
    p.objects.insert(1, PlaneObject::fill(1, 1, 3));
    p.intervals.push((
        1,
        vec![PlaneOp::DeclareObject {
            id: PlaneObjectId(1),
            object: PlaneObject::fill(1, 1, 4),
        }],
    ));
    assert_eq!(
        materialize_plane(&p, 2, 2, d8(), 1, &lim).unwrap_err(),
        VoleError::DuplicateId
    );
    let mut p = PlaneProgram::new(0);
    p.intervals.push((
        1,
        vec![
            PlaneOp::PatchOverlay {
                points: vec![(0, 0, 1), (1, 1, 2)],
            },
            PlaneOp::PatchOverlay {
                points: vec![(0, 0, 7)],
            },
        ],
    ));
    // A later patch at a held position overwrites its value.
    let o = materialize_plane(&p, 2, 2, d8(), 1, &lim).unwrap();
    assert_eq!(samples(&o), vec![7, 0, 0, 2]);
}

#[test]
fn instance_budget_is_enforced() {
    let lim = Limits {
        max_instances: 1,
        ..Limits::default()
    };
    let mut p = PlaneProgram::new(0);
    p.objects.insert(1, PlaneObject::fill(1, 1, 3));
    p.instances.push(inst(1, 1, 0, 0));
    p.instances.push(inst(2, 1, 1, 0));
    assert_eq!(
        materialize_plane(&p, 2, 2, d8(), 0, &lim).unwrap_err(),
        VoleError::MaterializationBudgetExceeded
    );
    assert_eq!(
        materialize_plane(&PlaneProgram::new(0), 0, 2, d8(), 0, &lim).unwrap_err(),
        VoleError::DimensionTooLarge
    );
}

#[test]
fn multi_plane_programs_follow_the_epoch() {
    let epoch = VideoEpoch::new_uniform(
        EpochId(0),
        4,
        2,
        PixelLayout::Yuv420,
        d8(),
        ColorDescription::unspecified(),
        SampleAspectRatio::square(),
        Orientation::Normal,
        FieldStructure::Progressive,
    )
    .unwrap();
    assert_eq!(
        MultiPlaneProgram::new(epoch.clone(), vec![PlaneProgram::new(0)]).unwrap_err(),
        VoleError::GeometryMismatch
    );
    let mut luma = PlaneProgram::new(16);
    luma.intervals.push((3, vec![PlaneOp::ClearOverlay]));
    let prog = MultiPlaneProgram::new(
        epoch.clone(),
        vec![luma, PlaneProgram::new(128), PlaneProgram::new(129)],
    )
    .unwrap();
    assert_eq!(prog.observation_count(), 4);
    let pic = prog.materialize_observation(0).unwrap();
    assert!(pic.validate_against(&epoch).is_ok());
    assert_eq!(pic.get(0, 3, 1), Some(16));
    assert_eq!(pic.get(1, 1, 0), Some(128));
    assert_eq!(pic.get(2, 0, 0), Some(129));
    let all = materialize_all_observations(&prog).unwrap();
    assert_eq!(all.len(), 4);
}

#[test]
fn patched_overlay_points_overwrite_their_value() {
    let mut prog = PlaneProgram::new(0);
    prog.overlay.push((0, 0, 5));
    prog.intervals.push((
        1,
        vec![PlaneOp::PatchOverlay {
            points: vec![(0, 0, 9)],
        }],
    ));
    let lim = Limits::default();
    let p0 = materialize_plane(&prog, 1, 1, d8(), 0, &lim).unwrap();
    assert_eq!(p0.canonical_bytes(), vec![5]);
    let p1 = materialize_plane(&prog, 1, 1, d8(), 1, &lim).unwrap();
    assert_eq!(p1.canonical_bytes(), vec![9]);
}
