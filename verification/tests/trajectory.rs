use vole::error::VoleError;
use vole::limits::Limits;
use vole::trajectory::{
    check_program, fit_accel, fit_linear, fit_piecewise, position_after, program_wire_bytes, segment_delta,
    simulate_positions, TrajectorySegment,
};

#[test]
fn wire_bytes_are_fixed() {
    assert_eq!(
        TrajectorySegment::Linear { vx: 1, vy: 0, steps: 5 }.wire_bytes(),
        17
    );
    assert_eq!(
        TrajectorySegment::Accel { vx0: 1, vy0: 0, ax: 1, ay: 0, steps: 5 }.wire_bytes(),
        25
    );
    assert_eq!(program_wire_bytes(&[]), 9);
}

#[test]
fn displacement_matches_the_discrete_recurrence() {
    let seg = TrajectorySegment::Accel { vx0: 2, vy0: 1, ax: 1, ay: 0, steps: 10 };
    let (mut x, mut y, mut vx, vy) = (100i64, 60i64, 2i64, 1i64);
    for n in 1..=10u64 {
        x += vx;
        y += vy;
        vx += 1;
        let (ex, ey) = segment_delta(&seg, n).expect("closed form");
        assert_eq!((x - 100, y - 60), (ex, ey), "advance {n}");
    }
}

#[test]
fn position_after_handles_segment_boundaries_and_deactivation() {
    let program = vec![
        TrajectorySegment::Linear { vx: 2, vy: 0, steps: 3 },
        TrajectorySegment::Linear { vx: 0, vy: 0, steps: 2 },
        TrajectorySegment::Linear { vx: -1, vy: 0, steps: 4 },
    ];
    assert_eq!(position_after(&program, 0, 0, 0), Some((0, 0)));
    assert_eq!(position_after(&program, 0, 0, 3), Some((6, 0)));
    assert_eq!(position_after(&program, 0, 0, 5), Some((6, 0)));
    assert_eq!(position_after(&program, 0, 0, 9), Some((2, 0)));
    assert_eq!(position_after(&program, 0, 0, 10), None);
}

#[test]
fn fits_are_exact_and_mutually_exclusive() {
    let linear: Vec<(i64, i64)> = (0..20).map(|k| (100 + 2 * k, 60 + k)).collect();
    let f = fit_linear(&linear).expect("linear fits");
    assert_eq!(f.steps(), 19);
    assert!(fit_accel(&linear).is_none(), "linear must not fit accel");
    assert!(fit_piecewise(&linear).is_none(), "single run is not piecewise");

    let mut accel = vec![(100i64, 60i64)];
    let (mut x, mut vx) = (100i64, 2i64);
    for _ in 0..12 {
        x += vx;
        vx += 1;
        accel.push((x, 60));
    }
    assert!(fit_linear(&accel).is_none(), "accel must not fit linear");
    let a = fit_accel(&accel).expect("accel fits");
    assert_eq!(a.steps(), 12);
    assert!(fit_piecewise(&accel).is_none() || fit_piecewise(&accel).unwrap().len() >= 12);

    let mut walk = vec![(0i64, 0i64)];
    let mut seed = 0x1234_5678_9ABC_DEF0u64;
    for _ in 0..30 {
        seed ^= seed >> 12;
        seed ^= seed << 25;
        seed ^= seed >> 27;
        seed = seed.wrapping_mul(0x2545_F491_4F6C_DD1D);
        let dx = (seed >> 60) as i64 % 3 - 1;
        let dy = ((seed >> 40) as i64) % 3 - 1;
        let last = *walk.last().unwrap();
        walk.push((last.0 + dx, last.1 + dy));
    }
    if let Some(f) = fit_linear(&walk) {
        let got = simulate_positions(&[f], 0, 0, walk.len() as u64 - 1).unwrap();
        assert_eq!(got, walk);
    }
    if let Some(f) = fit_accel(&walk) {
        let got = simulate_positions(&[f], 0, 0, walk.len() as u64 - 1).unwrap();
        assert_eq!(got, walk);
    }
    if let Some(p) = fit_piecewise(&walk) {
        let got = simulate_positions(&p, 0, 0, walk.len() as u64 - 1).unwrap();
        assert_eq!(got, walk);
    }
}

#[test]
fn canonical_checks_reject_hostile_segments() {
    let ok_limits = Limits::default();
    assert_eq!(
        TrajectorySegment::Linear { vx: 1, vy: 0, steps: 0 }.check().unwrap_err(),
        VoleError::NonCanonicalEncoding
    );
    assert_eq!(
        TrajectorySegment::Accel { vx0: 1, vy0: 0, ax: 0, ay: 0, steps: 3 }
            .check()
            .unwrap_err(),
        VoleError::NonCanonicalEncoding
    );
    assert_eq!(
        TrajectorySegment::Linear { vx: (1 << 24) + 1, vy: 0, steps: 3 }
            .check()
            .unwrap_err(),
        VoleError::NonCanonicalEncoding
    );
    let merged = vec![
        TrajectorySegment::Linear { vx: 2, vy: 0, steps: 3 },
        TrajectorySegment::Linear { vx: 2, vy: 0, steps: 4 },
    ];
    assert_eq!(
        check_program(&merged, &ok_limits).unwrap_err(),
        VoleError::NonCanonicalEncoding
    );
    let mut too_many = Vec::new();
    for k in 0..=ok_limits.max_trajectory_segments {
        too_many.push(TrajectorySegment::Linear { vx: 1, vy: 0, steps: u64::from(k % 3) + 1 });
    }
    assert_eq!(
        check_program(&too_many, &ok_limits).unwrap_err(),
        VoleError::MaterializationBudgetExceeded
    );
}

#[test]
fn piecewise_runs_and_simulation() {
    let pts = vec![(0i64, 0i64), (2, 0), (4, 0), (4, 1), (4, 2), (3, 2)];
    let p = fit_piecewise(&pts).unwrap();
    assert_eq!(
        p,
        vec![
            TrajectorySegment::Linear { vx: 2, vy: 0, steps: 2 },
            TrajectorySegment::Linear { vx: 0, vy: 1, steps: 2 },
            TrajectorySegment::Linear { vx: -1, vy: 0, steps: 1 },
        ]
    );
    assert_eq!(check_program(&p, &Limits::default()), Ok(()));
    assert_eq!(simulate_positions(&p, 0, 0, 5).unwrap(), pts);
    assert_eq!(simulate_positions(&p, 0, 0, 6), None);
    assert_eq!(program_wire_bytes(&p), 9 + 3 * 17);
    assert_eq!(position_after(&[], 0, 0, 0), None);
    assert_eq!(fit_linear(&[(1, 1)]), None);
}
