use vole::error::VoleError;
use vole::object::{Object, ObjectId, ObjectKindKind};
use vole::state::{InstanceId, PaletteId, State};
use vole::time::Interval;
use vole::trajectory::{position_after, TrajectorySegment};

fn one_object_state() -> State {
    let mut s = State::new(Interval(3));
    s.declare_object(ObjectId(1), Object::fill(2, 2, 9).unwrap()).unwrap();
    s
}

#[test]
fn declare_and_create_follow_identity_rules() {
    let mut s = one_object_state();
    assert_eq!(s.interval(), Interval(3));
    assert_eq!(s.object_count(), 1);
    assert!(s.has_object(ObjectId(1)));
    assert_eq!(
        s.declare_object(ObjectId(1), Object::fill(1, 1, 0).unwrap()),
        Err(VoleError::DuplicateId)
    );
    assert_eq!(s.object(ObjectId(1)).unwrap().fill_value(), Some(9));
    s.create_instance(InstanceId(7), ObjectId(1), 4, 5).unwrap();
    assert_eq!(
        s.create_instance(InstanceId(7), ObjectId(1), 0, 0),
        Err(VoleError::DuplicateId)
    );
    assert_eq!(
        s.create_instance(InstanceId(8), ObjectId(2), 0, 0),
        Err(VoleError::UnknownObject)
    );
    let inst = s.instance(InstanceId(7)).unwrap();
    assert_eq!((inst.x, inst.y), (4, 5));
    assert_eq!(s.instance(InstanceId(9)).err(), Some(VoleError::UnknownInstance));
    s.set_position(InstanceId(7), -1, 2).unwrap();
    assert_eq!(s.instances()[0].x, -1);
    assert_eq!(s.set_position(InstanceId(1), 0, 0), Err(VoleError::UnknownInstance));
    assert_eq!(s.objects(), vec![ObjectId(1)]);
}

#[test]
fn translations_advance_once_and_overflow_is_typed() {
    let mut s = one_object_state();
    s.create_instance(InstanceId(1), ObjectId(1), 10, 10).unwrap();
    s.create_instance(InstanceId(2), ObjectId(1), 0, 0).unwrap();
    s.set_velocity(InstanceId(1), 3, -2).unwrap();
    assert_eq!(s.velocity(InstanceId(1)), (3, -2));
    assert_eq!(s.velocity(InstanceId(2)), (0, 0));
    assert_eq!(s.moving_count(), 1);
    s.advance_translations().unwrap();
    s.advance_translations().unwrap();
    assert_eq!((s.instances()[0].x, s.instances()[0].y), (16, 6));
    assert_eq!((s.instances()[1].x, s.instances()[1].y), (0, 0));
    s.set_velocity(InstanceId(1), 0, 0).unwrap();
    assert_eq!(s.moving_count(), 0);
    s.set_position(InstanceId(2), 5, i64::MAX).unwrap();
    s.set_velocity(InstanceId(2), 1, 1).unwrap();
    assert_eq!(s.advance_translations(), Err(VoleError::ArithmeticOverflow));
    // The column step fit and stays; the row step did not.
    assert_eq!((s.instances()[1].x, s.instances()[1].y), (6, i64::MAX));
}

#[test]
fn trajectories_step_hand_over_and_deactivate() {
    let mut s = one_object_state();
    s.create_instance(InstanceId(1), ObjectId(1), 0, 0).unwrap();
    s.set_velocity(InstanceId(1), 1, 1).unwrap();
    let program = vec![
        TrajectorySegment::Linear { vx: 2, vy: 0, steps: 1 },
        TrajectorySegment::Accel { vx0: 0, vy0: 1, ax: 1, ay: 0, steps: 2 },
    ];
    s.set_trajectory(InstanceId(1), program).unwrap();
    assert_eq!(s.moving_count(), 0);
    assert!(s.has_trajectory(InstanceId(1)));
    s.advance_trajectories().unwrap();
    assert_eq!((s.instances()[0].x, s.instances()[0].y), (2, 0));
    let t = s.trajectory(InstanceId(1)).unwrap();
    assert_eq!(t.segment_index(), 1);
    assert_eq!(t.remaining_steps(), 2);
    assert_eq!(t.velocity(), (0, 1));
    s.advance_trajectories().unwrap();
    assert_eq!((s.instances()[0].x, s.instances()[0].y), (2, 1));
    assert_eq!(s.trajectory(InstanceId(1)).unwrap().velocity(), (1, 1));
    s.advance_trajectories().unwrap();
    assert_eq!((s.instances()[0].x, s.instances()[0].y), (3, 2));
    assert!(!s.has_trajectory(InstanceId(1)));
    assert_eq!(s.trajectory_count(), 0);
    let bad = vec![TrajectorySegment::Linear { vx: 1, vy: 0, steps: 0 }];
    assert_eq!(
        s.set_trajectory(InstanceId(1), bad),
        Err(VoleError::NonCanonicalEncoding)
    );
    assert_eq!(
        s.set_trajectory(InstanceId(9), Vec::new()),
        Err(VoleError::UnknownInstance)
    );
}

#[test]
fn palettes_patch_atomically_and_bind() {
    let mut s = one_object_state();
    s.create_instance(InstanceId(1), ObjectId(1), 0, 0).unwrap();
    assert_eq!(s.set_palette(PaletteId(0), vec![1]), Err(VoleError::NonCanonicalEncoding));
    assert_eq!(s.set_palette(PaletteId(2), Vec::new()), Err(VoleError::NonCanonicalEncoding));
    s.set_palette(PaletteId(2), vec![10, 20, 30]).unwrap();
    s.patch_palette(PaletteId(2), &[(0, 11), (2, 33)]).unwrap();
    assert_eq!(s.palette(PaletteId(2)).unwrap(), &[11, 20, 33]);
    assert_eq!(
        s.patch_palette(PaletteId(2), &[(1, 99), (1, 98)]),
        Err(VoleError::NonCanonicalEncoding)
    );
    assert_eq!(
        s.patch_palette(PaletteId(2), &[(0, 1), (3, 2)]),
        Err(VoleError::OutOfBounds)
    );
    assert_eq!(s.palette(PaletteId(2)).unwrap(), &[11, 20, 33]);
    assert_eq!(s.patch_palette(PaletteId(5), &[]), Err(VoleError::UnknownPalette));
    assert_eq!(s.bind_palette(InstanceId(1), PaletteId(5)), Err(VoleError::UnknownPalette));
    assert_eq!(s.bind_palette(InstanceId(4), PaletteId(2)), Err(VoleError::UnknownInstance));
    s.bind_palette(InstanceId(1), PaletteId(2)).unwrap();
    assert_eq!(s.binding(InstanceId(1)), Some(PaletteId(2)));
    s.bind_palette(InstanceId(1), PaletteId::NONE()).unwrap();
    assert_eq!(s.binding(InstanceId(1)), None);
    assert_eq!(s.palette_count(), 1);
    assert!(s.has_palette(PaletteId(2)));
}

#[test]
fn overlay_batches_are_canonical_and_clearing_is_scoped() {
    let mut s = one_object_state();
    s.set_overlay(5, 5, 1);
    s.overlay_batch(&[(0, 1, 7), (0, 2, 8), (1, 0, 9)]).unwrap();
    assert_eq!(s.overlay_len(), 4);
    assert_eq!(s.overlay_pixel(0, 2), Some(8));
    assert_eq!(s.overlay_pixel(9, 9), None);
    assert_eq!(
        s.overlay_batch(&[(3, 3, 1), (3, 3, 2)]),
        Err(VoleError::NonCanonicalEncoding)
    );
    assert_eq!(s.overlay_pixel(3, 3), None);
    assert_eq!(s.overlay_iter(), vec![(0, 1, 7), (0, 2, 8), (1, 0, 9), (5, 5, 1)]);
    s.create_instance(InstanceId(1), ObjectId(1), 0, 0).unwrap();
    s.set_velocity(InstanceId(1), 1, 0).unwrap();
    s.clear_instances();
    assert_eq!(s.instance_count(), 0);
    assert_eq!(s.moving_count(), 0);
    assert_eq!(s.overlay_len(), 4);
    assert_eq!(s.object_count(), 1);
    s.clear_overlay();
    assert_eq!(s.overlay_len(), 0);
    s.set_background(200);
    assert_eq!(s.background(), 200);
    let d = State::default();
    assert_eq!(d.interval(), Interval::ZERO());
}

#[test]
fn objects_validate_geometry_and_round_trip_records() {
    assert_eq!(Object::fill(0, 1, 3).err(), Some(VoleError::DimensionTooLarge));
    assert_eq!(Object::raster(2, 2, vec![1, 2, 3]).err(), Some(VoleError::LengthMismatch));
    let r = Object::raster(2, 1, vec![4, 5]).unwrap();
    assert_eq!(r.kind(), ObjectKindKind::RawRaster);
    assert_eq!(r.samples(), Some(&[4u8, 5][..]));
    assert_eq!(r.indices(), None);
    let f = Object::fill(3, 2, 7).unwrap();
    assert_eq!(f.sample_count(), 6);
    assert_eq!(f.expand(), vec![7; 6]);
    let limits = vole::limits::Limits::default();
    let rec = [0x05u8, 2, 0, 0, 0, 1, 0, 0, 0, 9, 8];
    let o = Object::from_canonical_record(&rec, &limits).unwrap();
    assert_eq!(o.kind(), ObjectKindKind::IndexRaster);
    assert_eq!(o.indices(), Some(&[9u8, 8][..]));
    assert_eq!(
        Object::from_canonical_record(&rec[..10], &limits).err(),
        Some(VoleError::Truncated)
    );
    let fill = [0x02u8, 1, 0, 0, 0, 1, 0, 0, 0, 42];
    assert_eq!(Object::from_canonical_record(&fill, &limits).unwrap().fill_value(), Some(42));
    let unknown = [0x09u8, 1, 0, 0, 0, 1, 0, 0, 0, 42];
    assert_eq!(
        Object::from_canonical_record(&unknown, &limits).err(),
        Some(VoleError::NonCanonicalEncoding)
    );
}

#[test]
fn stepped_trajectories_follow_the_closed_form() {
    let program = vec![
        TrajectorySegment::Accel { vx0: -3, vy0: 2, ax: 1, ay: -1, steps: 4 },
        TrajectorySegment::Linear { vx: 5, vy: 0, steps: 2 },
        TrajectorySegment::Accel { vx0: 0, vy0: 0, ax: 2, ay: 3, steps: 3 },
    ];
    let mut s = one_object_state();
    s.create_instance(InstanceId(1), ObjectId(1), 7, -4).unwrap();
    s.set_trajectory(InstanceId(1), program.clone()).unwrap();
    for k in 1..=9u64 {
        s.advance_trajectories().unwrap();
        let inst = s.instance(InstanceId(1)).unwrap();
        assert_eq!(Some((inst.x, inst.y)), position_after(&program, 7, -4, k));
        assert_eq!(s.has_trajectory(InstanceId(1)), k < 9);
    }
}
