use vole::error::VoleError;
use vole::media::encode::{
    changed_boxes, distinct_values, fit_checker, fit_gradient, index_map, interval_bytes, is_uniform,
    ops_wire_bytes, sample_bytes, sample_vec, sim_copy, vec_to_data,
};
use vole::media::gen::Gen;
use vole::media::plane::{BitDepth, PlaneData};
use vole::media::procedural::{
    PlaneContent, PlaneInstanceId, PlaneObject, PlaneObjectId, PlaneOp,
};

#[test]
fn gradient_fit_is_exact_in_the_sample_domain() {
    let mut v = Vec::new();
    for y in 0..8u32 {
        for x in 0..16u32 {
            let val = (1000 + 3 * i64::from(x) - 5 * i64::from(y)).rem_euclid(1024) as u32;
            v.push(val);
        }
    }
    let d = vec_to_data(&v, BitDepth::new(10).unwrap()).unwrap();
    let g = fit_gradient(&d, 16, 8, 1023).expect("fits");
    assert_eq!(
        g,
        Gen::Gradient {
            base: 1000,
            sx: 3,
            sy: -5,
        }
    );
    // A one-sample perturbation breaks the exact fit.
    let mut v2 = v.clone();
    v2[5] ^= 7;
    let d2 = vec_to_data(&v2, BitDepth::new(10).unwrap()).unwrap();
    assert!(fit_gradient(&d2, 16, 8, 1023).is_none());
    // A constant field is FILL territory, not a generator.
    let d3 = vec_to_data(&vec![77; 16 * 8], BitDepth::new(8).unwrap()).unwrap();
    assert!(fit_gradient(&d3, 16, 8, 255).is_none());
}

#[test]
fn checker_fit_recovers_cell_and_colors() {
    let gen = Gen::Checker {
        a: 500,
        b: 4000,
        cell: 8,
    };
    let mut v = Vec::new();
    for y in 0..24u32 {
        for x in 0..32u32 {
            v.push(gen.sample(i64::from(x), i64::from(y), 4095));
        }
    }
    let d = vec_to_data(&v, BitDepth::new(12).unwrap()).unwrap();
    let got = fit_checker(&d, 32, 24, 4095).expect("fits");
    assert_eq!(got, gen);
}

#[test]
fn sim_copy_mirrors_the_core_clip_rule() {
    let mut dst = vec![0u32; 32 * 24];
    let mut src = vec![0u32; 32 * 24];
    for y in 0..4u32 {
        for x in 0..4u32 {
            src[(y * 32 + x) as usize] = 100 + y * 4 + x;
        }
    }
    sim_copy(&mut dst, &src, 32, 24, 0, 0, 4, 4, 6, 4);
    for y in 0..4u32 {
        for x in 0..4u32 {
            assert_eq!(dst[((y + 4) * 32 + (x + 6)) as usize], 100 + y * 4 + x);
        }
    }
    // A second copy whose source rows start at 22: only source rows
    // 22..23 are inside the canvas, and those source rows hold zeros (the
    // patch lives in rows 0..3), so the copied columns become zero there.
    sim_copy(&mut dst, &src, 32, 24, 0, 22, 4, 8, 2, 0);
    assert_eq!(dst[21 * 32 + 2], 0, "row above the source stays untouched");
    assert_eq!(
        dst[22 * 32 + 2],
        0,
        "in-canvas clipped source row is copied"
    );
    assert_eq!(dst[23 * 32 + 2], 0, "second in-canvas clipped source row");
    // The first copy's patch is untouched by the second.
    assert_eq!(dst[4 * 32 + 8], 102);
}

#[test]
fn wire_bytes_are_consistent() {
    // A single CreateInstance + ClearInstances + framing lengths.
    let ops = vec![
        PlaneOp::ClearInstances,
        PlaneOp::CreateInstance {
            id: PlaneInstanceId(1),
            object: PlaneObjectId(1),
            x: 0,
            y: 0,
        },
    ];
    assert_eq!(interval_bytes(&ops), 12 + 1 + (1 + 4 + 4 + 4 + 4));
    // Empty group framing only.
    assert_eq!(interval_bytes(&[]), 12);
}

#[test]
fn wire_bytes_cover_every_op_shape() {
    let raster = PlaneObject::raster(2, 2, BitDepth::new(10).unwrap(), &[1, 2, 3, 4]).unwrap();
    let ops = vec![
        PlaneOp::DeclareObject {
            id: PlaneObjectId(3),
            object: PlaneObject::fill(4, 4, 9),
        },
        PlaneOp::DeclareObject {
            id: PlaneObjectId(4),
            object: raster,
        },
        PlaneOp::SetPosition {
            id: PlaneInstanceId(1),
            x: 1,
            y: 2,
        },
        PlaneOp::ClearOverlay,
        PlaneOp::PatchOverlay {
            points: vec![(0, 0, 1), (1, 0, 2)],
        },
        PlaneOp::CopyRect {
            src_x: 0,
            src_y: 0,
            width: 2,
            height: 2,
            dst_x: 1,
            dst_y: 1,
        },
        PlaneOp::Residual { block: vec![0; 7] },
    ];
    let expect = (13 + 4) + (13 + 8 + 8) + 13 + 1 + (5 + 24) + 25 + (9 + 7);
    assert_eq!(ops_wire_bytes(&ops), expect);
    assert_eq!(interval_bytes(&ops), 12 + expect);
    match &ops[1] {
        PlaneOp::DeclareObject { object, .. } => match &object.content {
            PlaneContent::Raster(d) => assert_eq!(sample_bytes(d), 8),
            _ => unreachable!(),
        },
        _ => unreachable!(),
    }
}

#[test]
fn sample_domain_helpers_are_exact() {
    let d8 = vec_to_data(&[3, 1, 3, 2], BitDepth::new(8).unwrap()).unwrap();
    assert!(matches!(d8, PlaneData::U8(_)));
    assert_eq!(sample_vec(&d8), vec![3, 1, 3, 2]);
    assert_eq!(distinct_values(&d8), vec![1, 2, 3]);
    assert_eq!(index_map(&d8, &[1, 2, 3]), vec![2, 0, 2, 1]);
    assert!(!is_uniform(&d8, 2, 2, 3));
    let d16 = vec_to_data(&[700, 700], BitDepth::new(10).unwrap()).unwrap();
    assert!(matches!(d16, PlaneData::U16(_)));
    assert!(is_uniform(&d16, 2, 1, 700));
    assert!(!is_uniform(&d16, 1, 1, 700));
    assert_eq!(
        vec_to_data(&[1024], BitDepth::new(10).unwrap()).unwrap_err(),
        VoleError::InvalidSamples
    );
}

#[test]
fn gradient_fit_handles_wrapping_and_single_axis() {
    // A one-row ramp that wraps mod 256 with a negative slope.
    let v: Vec<u32> = (0..10u32).map(|x| (2 + 256 - (x * 3) % 256) % 256).collect();
    let d = vec_to_data(&v, BitDepth::new(8).unwrap()).unwrap();
    assert_eq!(
        fit_gradient(&d, 10, 1, 255),
        Some(Gen::Gradient {
            base: 2,
            sx: -3,
            sy: 0
        })
    );
    // An empty grid never fits.
    assert_eq!(fit_gradient(&d, 0, 1, 255), None);
}

#[test]
fn checker_fit_refuses_non_checker_content() {
    let d = vec_to_data(&[5, 6, 7, 8], BitDepth::new(8).unwrap()).unwrap();
    assert_eq!(fit_checker(&d, 2, 2, 255), None);
    let flat = vec_to_data(&[5; 9], BitDepth::new(8).unwrap()).unwrap();
    assert_eq!(fit_checker(&flat, 3, 3, 255), None);
}

#[test]
fn changed_boxes_find_disjoint_components() {
    // Two separated 2x2 blocks on a uniform field.
    let base = vec![0u32; 16 * 16];
    let mut target = base.clone();
    for dy in 0..2 {
        for dx in 0..2 {
            target[(2 + dy) * 16 + (2 + dx)] = 9;
            target[(10 + dy) * 16 + (10 + dx)] = 9;
        }
    }
    let (boxes, truncated) = changed_boxes(&base, &target, 16, 16, 4);
    assert!(!truncated);
    assert_eq!(boxes.len(), 2);
    assert!(boxes
        .iter()
        .any(|b| b.x0 == 2 && b.y0 == 2 && b.w == 2 && b.h == 2));
    assert!(boxes
        .iter()
        .any(|b| b.x0 == 10 && b.y0 == 10 && b.w == 2 && b.h == 2));
}

#[test]
fn changed_boxes_cap_keeps_the_largest_and_flags_the_rest() {
    let base = vec![0u32; 8 * 8];
    let mut target = base.clone();
    target[0] = 1;
    for dy in 0..3 {
        for dx in 0..3 {
            target[(4 + dy) * 8 + (4 + dx)] = 5;
        }
    }
    let (boxes, truncated) = changed_boxes(&base, &target, 8, 8, 1);
    assert!(truncated);
    assert_eq!(boxes.len(), 1);
    assert_eq!((boxes[0].x0, boxes[0].y0, boxes[0].w, boxes[0].h), (4, 4, 3, 3));
    let (none, t) = changed_boxes(&base, &base, 8, 8, 4);
    assert!(none.is_empty() && !t);
}
