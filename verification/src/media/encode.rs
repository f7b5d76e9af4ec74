//! Per-plane family encoder helpers.
//!
//! The family encoder proposes, per observation and plane, candidate
//! interval programs and prices them under the complete interval-byte cost.
//! This module holds its exact building blocks: sample-domain helpers, exact
//! generator fits (gradient / checker) that are verified against every
//! sample before they may be proposed, the value set of a plane (palette
//! detection), the `COPY_RECT` clip rule mirrored in the `u32` sample domain,
//! connected-component change boxes, and the interval wire-byte model.

use vstd::prelude::*;

use crate::error::VoleError;
use crate::media::gen::{gen_sample, Gen, MAX_GEN_PERIOD};
use crate::media::plane::{data_len, data_samples, BitDepth, PlaneData, PlaneStorage};
use crate::media::procedural::{PlaneContent, PlaneOp};
use crate::media::wire::{enc_interval, enc_op, enc_ops, enc_points};

verus! {

// ---------------------------------------------------------------------------
// Sample-domain helpers
// ---------------------------------------------------------------------------

/// Row-major index of `(x, y)` in a plane of width `w`.
pub open spec fn at(w: int, x: int, y: int) -> int {
    y * w + x
}

/// Sample `(x, y)` of a tight row-major payload of width `w`.
pub open spec fn grid(d: PlaneData, w: int, x: int, y: int) -> u32 {
    data_samples(d)[at(w, x, y)]
}

proof fn lemma_at_bound(w: int, h: int, x: int, y: int)
    requires
        0 <= x < w,
        0 <= y < h,
    ensures
        0 <= at(w, x, y) < w * h,
{
    assert(0 <= y * w + x < w * h) by (nonlinear_arith)
        requires
            0 <= x < w,
            0 <= y < h,
    ;
}

/// Sample `(x, y)` of a tight row-major payload of width `w`.
fn sample_at(data: &PlaneData, w: u32, y: u32, x: u32) -> (r: u32)
    requires
        at(w as int, x as int, y as int) < data_len(*data),
    ensures
        r == grid(*data, w as int, x as int, y as int),
{
    let n = data.len();
    proof {
        assert(0 <= y * w <= 0xffff_fffe_0000_0001) by (nonlinear_arith)
            requires
                y <= 0xffff_ffff,
                w <= 0xffff_ffff,
        ;
    }
    let k = ((y as u64) * (w as u64) + (x as u64)) as usize;
    assert(k < n);
    match data {
        PlaneData::U8(v) => v[k] as u32,
        PlaneData::U16(v) => v[k] as u32,
    }
}

/// The samples of a payload widened to `u32`.
pub fn sample_vec(data: &PlaneData) -> (r: Vec<u32>)
    ensures
        r@ == data_samples(*data),
{
    let mut out: Vec<u32> = Vec::new();
    match data {
        PlaneData::U8(v) => {
            let mut i = 0usize;
            while i < v.len()
                invariant
                    i <= v@.len(),
                    out@ == v@.take(i as int).map_values(|x: u8| x as u32),
                decreases v@.len() - i,
            {
                out.push(v[i] as u32);
                i = i + 1;
                proof {
                    assert(out@ =~= v@.take(i as int).map_values(|x: u8| x as u32));
                }
            }
            proof {
                assert(v@.take(v@.len() as int) =~= v@);
            }
        },
        PlaneData::U16(v) => {
            let mut i = 0usize;
            while i < v.len()
                invariant
                    i <= v@.len(),
                    out@ == v@.take(i as int).map_values(|x: u16| x as u32),
                decreases v@.len() - i,
            {
                out.push(v[i] as u32);
                i = i + 1;
                proof {
                    assert(out@ =~= v@.take(i as int).map_values(|x: u16| x as u32));
                }
            }
            proof {
                assert(v@.take(v@.len() as int) =~= v@);
            }
        },
    }
    out
}

/// Pack `u32` samples into the canonical storage of `depth`: every value
/// must lie in the active range (`InvalidSamples` otherwise).
pub fn vec_to_data(values: &[u32], depth: BitDepth) -> (r: Result<PlaneData, VoleError>)
    ensures
        r is Ok <==> forall|i: int| 0 <= i < values@.len() ==> values@[i] <= depth.max(),
        r matches Ok(d) ==> {
            &&& data_samples(d) == values@
            &&& (d is U8 <==> depth.b() <= 8)
        },
        r matches Err(e) ==> e == VoleError::InvalidSamples,
{
    let max = depth.max_sample();
    let mut i = 0usize;
    while i < values.len()
        invariant
            i <= values@.len(),
            max == depth.max(),
            forall|k: int| 0 <= k < i ==> values@[k] <= max,
        decreases values@.len() - i,
    {
        if values[i] > max {
            return Err(VoleError::InvalidSamples);
        }
        i = i + 1;
    }
    match depth.storage() {
        PlaneStorage::U8 => {
            let mut out: Vec<u8> = Vec::new();
            let mut j = 0usize;
            while j < values.len()
                invariant
                    j <= values@.len(),
                    max == depth.max() <= 0xff,
                    forall|k: int| 0 <= k < values@.len() ==> values@[k] <= max,
                    out@.len() == j,
                    forall|k: int| 0 <= k < j ==> out@[k] as u32 == values@[k],
                decreases values@.len() - j,
            {
                out.push(values[j] as u8);
                j = j + 1;
            }
            proof {
                assert(out@.map_values(|x: u8| x as u32) =~= values@);
            }
            Ok(PlaneData::U8(out))
        },
        PlaneStorage::U16 => {
            let mut out: Vec<u16> = Vec::new();
            let mut j = 0usize;
            while j < values.len()
                invariant
                    j <= values@.len(),
                    max == depth.max() <= 0xffff,
                    forall|k: int| 0 <= k < values@.len() ==> values@[k] <= max,
                    out@.len() == j,
                    forall|k: int| 0 <= k < j ==> out@[k] as u32 == values@[k],
                decreases values@.len() - j,
            {
                out.push(values[j] as u16);
                j = j + 1;
            }
            proof {
                assert(out@.map_values(|x: u16| x as u32) =~= values@);
            }
            Ok(PlaneData::U16(out))
        },
    }
}

/// Whether a payload is exactly `w × h` samples, all equal to `v`.
pub fn is_uniform(data: &PlaneData, w: u32, h: u32, v: u32) -> (r: bool)
    ensures
        r <==> (data_len(*data) == w * h && forall|i: int|
            0 <= i < data_len(*data) ==> data_samples(*data)[i] == v),
{
    proof {
        assert(0 <= w * h <= 0xffff_fffe_0000_0001) by (nonlinear_arith)
            requires
                h <= 0xffff_ffff,
                w <= 0xffff_ffff,
        ;
    }
    let n = (w as u64) * (h as u64);
    if data.len() as u64 != n {
        return false;
    }
    let s = sample_vec(data);
    let mut i = 0usize;
    while i < s.len()
        invariant
            i <= s@.len(),
            s@ == data_samples(*data),
            forall|k: int| 0 <= k < i ==> s@[k] == v,
        decreases s@.len() - i,
    {
        if s[i] != v {
            return false;
        }
        i = i + 1;
    }
    true
}

// ---------------------------------------------------------------------------
// Exact generator fits
// ---------------------------------------------------------------------------

/// The canonical residue of `b − a` modulo `m` in `(−m/2, m/2]`.
pub open spec fn canon_slope(a: int, b: int, m: int) -> int {
    let d = (b - a) % m;
    if d > m / 2 {
        d - m
    } else {
        d
    }
}

/// Whether the gradient `(base, sx, sy)` reproduces every sample of the
/// `w × h` grid modulo `m`.
pub open spec fn gradient_matches(d: PlaneData, w: int, h: int, m: int, base: int, sx: int, sy: int) -> bool {
    forall|x: int, y: int|
        0 <= x < w && 0 <= y < h ==> (base + sx * x + sy * y) % m == #[trigger] grid(d, w, x, y)
}

/// The horizontal slope candidate of a gradient fit.
pub open spec fn grad_sx(d: PlaneData, w: u32, max: u32) -> int {
    if w > 1 {
        canon_slope(grid(d, w as int, 0, 0) as int, grid(d, w as int, 1, 0) as int, max + 1)
    } else {
        0
    }
}

/// The vertical slope candidate of a gradient fit.
pub open spec fn grad_sy(d: PlaneData, w: u32, h: u32, max: u32) -> int {
    if h > 1 {
        canon_slope(grid(d, w as int, 0, 0) as int, grid(d, w as int, 0, 1) as int, max + 1)
    } else {
        0
    }
}

/// The exact gradient fit: slopes from the first row and column
/// differences (canonical residues), accepted only when not constant and
/// when every sample agrees.
pub open spec fn gradient_fit(d: PlaneData, w: u32, h: u32, max: u32) -> Option<Gen> {
    if w == 0 || h == 0 {
        None
    } else {
        let m = max + 1;
        let base = grid(d, w as int, 0, 0);
        let sx = grad_sx(d, w, max);
        let sy = grad_sy(d, w, h, max);
        if sx == 0 && sy == 0 {
            None
        } else if gradient_matches(d, w as int, h as int, m, base as int, sx, sy) {
            Some(Gen::Gradient { base, sx: sx as i64, sy: sy as i64 })
        } else {
            None
        }
    }
}

proof fn lemma_canon_slope_bounds(a: int, b: int, m: int)
    requires
        1 <= m <= 0x1_0000_0000,
    ensures
        -0x8000_0000 <= canon_slope(a, b, m) <= 0x8000_0000,
{
}

proof fn lemma_ramp_bounds(base: int, sx: int, sy: int, x: int, y: int)
    requires
        0 <= base <= 0xffff_ffff,
        -0x8000_0000 <= sx <= 0x8000_0000,
        -0x8000_0000 <= sy <= 0x8000_0000,
        0 <= x <= 0xffff_ffff,
        0 <= y <= 0xffff_ffff,
    ensures
        -0x8000_0000_0000_0000 <= sx * x <= 0x8000_0000_0000_0000,
        -0x8000_0000_0000_0000 <= sy * y <= 0x8000_0000_0000_0000,
        -0x2_0000_0000_0000_0000 <= base + sx * x + sy * y <= 0x2_0000_0000_0000_0000,
{
    assert(-0x8000_0000_0000_0000 <= sx * x <= 0x8000_0000_0000_0000) by (nonlinear_arith)
        requires
            -0x8000_0000 <= sx <= 0x8000_0000,
            0 <= x <= 0xffff_ffff,
    ;
    assert(-0x8000_0000_0000_0000 <= sy * y <= 0x8000_0000_0000_0000) by (nonlinear_arith)
        requires
            -0x8000_0000 <= sy <= 0x8000_0000,
            0 <= y <= 0xffff_ffff,
    ;
}

/// The canonical slope between two samples modulo `m`.
fn slope(a: u32, b: u32, m: i128) -> (r: i64)
    requires
        1 <= m <= 0x1_0000_0000,
    ensures
        r == canon_slope(a as int, b as int, m as int),
{
    let d = ((b as i128) - (a as i128)).checked_rem_euclid(m).unwrap();
    proof {
        lemma_canon_slope_bounds(a as int, b as int, m as int);
    }
    if d > m / 2 {
        (d - m) as i64
    } else {
        d as i64
    }
}

/// Exact gradient fit in the sample domain: the mod-`(max+1)` slopes come
/// from the first row / column differences and every sample is verified.
/// `None` for constant or non-fitting content.
pub fn fit_gradient(data: &PlaneData, w: u32, h: u32, max: u32) -> (r: Option<Gen>)
    requires
        w * h <= data_len(*data),
        max < u32::MAX,
    ensures
        r == gradient_fit(*data, w, h, max),
        r matches Some(g) ==> forall|x: int, y: int|
            0 <= x < w && 0 <= y < h ==> gen_sample(g, x as i64, y as i64, max) == grid(
                *data,
                w as int,
                x,
                y,
            ),
{
    if w == 0 || h == 0 {
        return None;
    }
    let m = (max as i128) + 1;
    proof {
        lemma_at_bound(w as int, h as int, 0, 0);
        if w > 1 {
            lemma_at_bound(w as int, h as int, 1, 0);
        }
        if h > 1 {
            lemma_at_bound(w as int, h as int, 0, 1);
        }
    }
    let base = sample_at(data, w, 0, 0);
    let sx: i64 = if w > 1 {
        slope(base, sample_at(data, w, 0, 1), m)
    } else {
        0
    };
    let sy: i64 = if h > 1 {
        slope(base, sample_at(data, w, 1, 0), m)
    } else {
        0
    };
    if sx == 0 && sy == 0 {
        return None;
    }
    proof {
        if w > 1 {
            lemma_canon_slope_bounds(base as int, grid(*data, w as int, 1, 0) as int, m as int);
        }
        if h > 1 {
            lemma_canon_slope_bounds(base as int, grid(*data, w as int, 0, 1) as int, m as int);
        }
    }
    let mut y = 0u32;
    while y < h
        invariant
            0 < w,
            y <= h,
            w * h <= data_len(*data),
            m == max + 1,
            max < u32::MAX,
            base == grid(*data, w as int, 0, 0),
            -0x8000_0000 <= sx <= 0x8000_0000,
            -0x8000_0000 <= sy <= 0x8000_0000,
            sx == grad_sx(*data, w, max),
            sy == grad_sy(*data, w, h, max),
            forall|xx: int, yy: int|
                0 <= xx < w && 0 <= yy < y ==> (base + sx * xx + sy * yy) % (m as int) == #[trigger] grid(
                    *data,
                    w as int,
                    xx,
                    yy,
                ),
        decreases h - y,
    {
        let mut x = 0u32;
        while x < w
            invariant
                0 < w,
                y < h,
                x <= w,
                w * h <= data_len(*data),
                m == max + 1,
                max < u32::MAX,
                base == grid(*data, w as int, 0, 0),
                -0x8000_0000 <= sx <= 0x8000_0000,
                -0x8000_0000 <= sy <= 0x8000_0000,
                sx == grad_sx(*data, w, max),
                sy == grad_sy(*data, w, h, max),
                forall|xx: int, yy: int|
                    (0 <= xx < w && 0 <= yy < y) || (0 <= xx < x && yy == y) ==> (base + sx * xx + sy
                        * yy) % (m as int) == #[trigger] grid(*data, w as int, xx, yy),
            decreases w - x,
        {
            proof {
                lemma_ramp_bounds(base as int, sx as int, sy as int, x as int, y as int);
                lemma_at_bound(w as int, h as int, x as int, y as int);
            }
            let v = (base as i128) + (sx as i128) * (x as i128) + (sy as i128) * (y as i128);
            let expect = v.checked_rem_euclid(m).unwrap();
            let got = sample_at(data, w, y, x);
            if expect != got as i128 {
                proof {
                    let (xi, yi) = (x as int, y as int);
                    assert((base + sx * xi + sy * yi) % (m as int) != grid(*data, w as int, xi, yi));
                    assert(!gradient_matches(*data, w as int, h as int, m as int, base as int, sx as int, sy as int));
                }
                return None;
            }
            x = x + 1;
        }
        y = y + 1;
    }
    let g = Gen::Gradient { base, sx, sy };
    proof {
        assert(gradient_matches(*data, w as int, h as int, m as int, base as int, sx as int, sy as int));
    }
    Some(g)
}

/// The checker fit's horizontal probe at distance `c` (the origin sample
/// past the right edge).
pub open spec fn probe_h(d: PlaneData, w: u32, c: int) -> u32 {
    if c < w {
        grid(d, w as int, c, 0)
    } else {
        grid(d, w as int, 0, 0)
    }
}

/// The checker fit's vertical probe at distance `c` (the origin sample
/// past the bottom edge).
pub open spec fn probe_v(d: PlaneData, w: u32, h: u32, c: int) -> u32 {
    if c < h {
        grid(d, w as int, 0, c)
    } else {
        grid(d, w as int, 0, 0)
    }
}

/// Whether the content leaves the origin value at probe distance `c`.
pub open spec fn toggles(d: PlaneData, w: u32, h: u32, c: int) -> bool {
    probe_h(d, w, c) != grid(d, w as int, 0, 0) || probe_v(d, w, h, c) != grid(d, w as int, 0, 0)
}

/// The largest checker cell probed: `min(max(w, h), MAX_GEN_PERIOD)`.
pub open spec fn checker_limit(w: u32, h: u32) -> int {
    let m = if w >= h { w as int } else { h as int };
    if m <= MAX_GEN_PERIOD {
        m
    } else {
        MAX_GEN_PERIOD as int
    }
}

/// The smallest toggling distance in `c..=limit`, or `0` when none does.
pub open spec fn first_toggle(d: PlaneData, w: u32, h: u32, c: int, limit: int) -> int
    decreases limit + 1 - c,
{
    if c > limit {
        0
    } else if toggles(d, w, h, c) {
        c
    } else {
        first_toggle(d, w, h, c + 1, limit)
    }
}

/// Whether checker `g` reproduces every sample of the `w × h` grid.
pub open spec fn checker_matches(d: PlaneData, w: u32, h: u32, max: u32, g: Gen) -> bool {
    forall|x: int, y: int|
        0 <= x < w && 0 <= y < h ==> gen_sample(g, x as i64, y as i64, max) == #[trigger] grid(
            d,
            w as int,
            x,
            y,
        )
}

/// The exact checker fit: `a` is the origin sample, the cell is the
/// smallest probe distance where the content toggles, `b` the toggled
/// value; accepted only when `b` is in range and every sample agrees.
pub open spec fn checker_fit(d: PlaneData, w: u32, h: u32, max: u32) -> Option<Gen> {
    if w == 0 || h == 0 {
        None
    } else {
        let a = grid(d, w as int, 0, 0);
        let cell = first_toggle(d, w, h, 1, checker_limit(w, h));
        if cell == 0 {
            None
        } else {
            let b = if probe_h(d, w, cell) != a {
                probe_h(d, w, cell)
            } else {
                probe_v(d, w, h, cell)
            };
            let g = Gen::Checker { a, b, cell: cell as u32 };
            if b == a || b > max {
                None
            } else if checker_matches(d, w, h, max, g) {
                Some(g)
            } else {
                None
            }
        }
    }
}

/// Exact checker fit: the smallest cell where the content toggles away
/// from the origin value, verified against every sample.
pub fn fit_checker(data: &PlaneData, w: u32, h: u32, max: u32) -> (r: Option<Gen>)
    requires
        w * h <= data_len(*data),
    ensures
        r == checker_fit(*data, w, h, max),
{
    if w == 0 || h == 0 {
        return None;
    }
    proof {
        lemma_at_bound(w as int, h as int, 0, 0);
    }
    let a = sample_at(data, w, 0, 0);
    let big = if w >= h { w } else { h };
    let limit = if big <= MAX_GEN_PERIOD { big } else { MAX_GEN_PERIOD };
    let ghost lim = checker_limit(w, h);
    let mut c = 1u32;
    let mut found: Option<(u32, u32)> = None;
    while c <= limit
        invariant_except_break
            found is None,
            first_toggle(*data, w, h, 1, lim) == first_toggle(*data, w, h, c as int, lim),
        invariant
            0 < w,
            0 < h,
            w * h <= data_len(*data),
            a == grid(*data, w as int, 0, 0),
            limit == lim,
            1 <= c <= limit + 1,
            limit <= MAX_GEN_PERIOD,
        ensures
            found is None ==> first_toggle(*data, w, h, 1, lim) == 0,
            found matches Some((bb, cc)) ==> {
                &&& cc as int == first_toggle(*data, w, h, 1, lim)
                &&& 1 <= cc
                &&& bb == (if probe_h(*data, w, cc as int) != a {
                    probe_h(*data, w, cc as int)
                } else {
                    probe_v(*data, w, h, cc as int)
                })
            },
        decreases limit + 1 - c,
    {
        proof {
            if c < w {
                lemma_at_bound(w as int, h as int, c as int, 0);
            }
            if c < h {
                lemma_at_bound(w as int, h as int, 0, c as int);
            }
        }
        let hx = if c < w {
            sample_at(data, w, 0, c)
        } else {
            a
        };
        let vy = if c < h {
            sample_at(data, w, c, 0)
        } else {
            a
        };
        if hx != a || vy != a {
            found = Some((if hx != a { hx } else { vy }, c));
            break;
        }
        c = c + 1;
    }
    let (b, cell) = match found {
        Some(f) => f,
        None => {
            return None;
        },
    };
    if b == a || b > max {
        return None;
    }
    let gen = Gen::Checker { a, b, cell };
    let mut y = 0u32;
    while y < h
        invariant
            0 < w,
            y <= h,
            w * h <= data_len(*data),
            gen == (Gen::Checker { a, b, cell }),
            1 <= cell,
            0 < h,
            cell as int == first_toggle(*data, w, h, 1, checker_limit(w, h)),
            a == grid(*data, w as int, 0, 0),
            b != a,
            b <= max,
            b == (if probe_h(*data, w, cell as int) != a {
                probe_h(*data, w, cell as int)
            } else {
                probe_v(*data, w, h, cell as int)
            }),
            forall|xx: int, yy: int|
                0 <= xx < w && 0 <= yy < y ==> gen_sample(gen, xx as i64, yy as i64, max)
                    == #[trigger] grid(*data, w as int, xx, yy),
        decreases h - y,
    {
        let mut x = 0u32;
        while x < w
            invariant
                0 < w,
                y < h,
                x <= w,
                w * h <= data_len(*data),
                gen == (Gen::Checker { a, b, cell }),
                1 <= cell,
                0 < h,
                cell as int == first_toggle(*data, w, h, 1, checker_limit(w, h)),
                a == grid(*data, w as int, 0, 0),
                b != a,
                b <= max,
                b == (if probe_h(*data, w, cell as int) != a {
                    probe_h(*data, w, cell as int)
                } else {
                    probe_v(*data, w, h, cell as int)
                }),
                forall|xx: int, yy: int|
                    (0 <= xx < w && 0 <= yy < y) || (0 <= xx < x && yy == y) ==> gen_sample(
                        gen,
                        xx as i64,
                        yy as i64,
                        max,
                    ) == #[trigger] grid(*data, w as int, xx, yy),
            decreases w - x,
        {
            proof {
                lemma_at_bound(w as int, h as int, x as int, y as int);
            }
            if gen.sample(x as i64, y as i64, max) != sample_at(data, w, y, x) {
                proof {
                    assert(gen_sample(gen, x as i64, y as i64, max) != grid(*data, w as int, x as int, y as int));
                    assert(!checker_matches(*data, w, h, max, gen));
                }
                return None;
            }
            x = x + 1;
        }
        y = y + 1;
    }
    Some(gen)
}

// ---------------------------------------------------------------------------
// Value sets (palette detection)
// ---------------------------------------------------------------------------

proof fn lemma_samples_in_word(d: PlaneData)
    ensures
        forall|i: int| 0 <= i < data_len(d) ==> #[trigger] data_samples(d)[i] <= 0xffff,
        data_samples(d).len() == data_len(d),
{
}

/// The distinct values of a payload, strictly ascending.
pub fn distinct_values(data: &PlaneData) -> (r: Vec<u32>)
    ensures
        forall|i: int, j: int| 0 <= i < j < r@.len() ==> r@[i] < r@[j],
        forall|v: u32| r@.contains(v) <==> data_samples(*data).contains(v),
{
    let s = sample_vec(data);
    proof {
        lemma_samples_in_word(*data);
    }
    let mut seen: Vec<bool> = vec![false; 65536];
    let mut i = 0usize;
    while i < s.len()
        invariant
            i <= s@.len(),
            s@ == data_samples(*data),
            forall|k: int| 0 <= k < s@.len() ==> #[trigger] s@[k] <= 0xffff,
            seen@.len() == 65536,
            forall|v: int| 0 <= v < 65536 ==> (#[trigger] seen@[v] <==> s@.take(i as int).contains(v as u32)),
        decreases s@.len() - i,
    {
        let v = s[i];
        seen.set(v as usize, true);
        i = i + 1;
        proof {
            assert forall|u: int| 0 <= u < 65536 implies (#[trigger] seen@[u] <==> s@.take(i as int).contains(u as u32)) by {
                let t = s@.take(i as int);
                let t0 = s@.take(i - 1);
                assert(t =~= t0.push(v));
                if t0.contains(u as u32) {
                    let k = choose|k: int| 0 <= k < t0.len() && t0[k] == u as u32;
                    assert(t[k] == u as u32);
                }
                if t.contains(u as u32) && u != v as int {
                    let k = choose|k: int| 0 <= k < t.len() && t[k] == u as u32;
                    assert(k < t0.len());
                    assert(t0[k] == u as u32);
                }
                if u == v as int {
                    assert(t[i - 1] == v);
                }
            }
        }
    }
    proof {
        assert(s@.take(s@.len() as int) =~= s@);
    }
    let mut out: Vec<u32> = Vec::new();
    let mut j = 0u32;
    while j < 65536
        invariant
            j <= 65536,
            seen@.len() == 65536,
            forall|v: int| 0 <= v < 65536 ==> (#[trigger] seen@[v] <==> s@.contains(v as u32)),
            forall|a: int, b: int| 0 <= a < b < out@.len() ==> out@[a] < out@[b],
            forall|a: int| 0 <= a < out@.len() ==> #[trigger] out@[a] < j,
            forall|v: u32| v < j ==> (out@.contains(v) <==> seen@[v as int]),
        decreases 65536 - j,
    {
        let ghost old_out = out@;
        let hit = seen[j as usize];
        if hit {
            out.push(j);
        }
        proof {
            assert forall|v: u32| v < j + 1 implies (out@.contains(v) <==> seen@[v as int]) by {
                if hit {
                    assert(out@ =~= old_out.push(j));
                    if old_out.contains(v) {
                        let k = choose|k: int| 0 <= k < old_out.len() && old_out[k] == v;
                        assert(out@[k] == v);
                    }
                    if out@.contains(v) && v < j {
                        let k = choose|k: int| 0 <= k < out@.len() && out@[k] == v;
                        if k < old_out.len() {
                            assert(old_out[k] == v);
                        }
                    }
                    if v == j {
                        assert(out@[old_out.len() as int] == v);
                    }
                } else {
                    assert(out@ == old_out);
                    if v == j && out@.contains(v) {
                        let k = choose|k: int| 0 <= k < out@.len() && out@[k] == v;
                        assert(old_out[k] < j);
                    }
                }
            }
        }
        j = j + 1;
    }
    proof {
        assert forall|v: u32| out@.contains(v) <==> data_samples(*data).contains(v) by {
            if v >= 65536 {
                if out@.contains(v) {
                    let k = choose|k: int| 0 <= k < out@.len() && out@[k] == v;
                    assert(out@[k] < 65536);
                }
                if s@.contains(v) {
                    let k = choose|k: int| 0 <= k < s@.len() && s@[k] == v;
                    assert(s@[k] <= 0xffff);
                }
            } else {
                assert(seen@[v as int] <==> s@.contains(v));
            }
        }
    }
    out
}

/// The palette index a lookup table built from `values` gives sample `s`:
/// the last position of `s` in `values` (modulo 256), `0` when absent.
pub open spec fn lut_of(values: Seq<u32>, s: u32) -> u8
    decreases values.len(),
{
    if values.len() == 0 {
        0
    } else if values.last() == s {
        ((values.len() - 1) % 256) as u8
    } else {
        lut_of(values.drop_last(), s)
    }
}

/// Index-map the samples through a value list (a lookup table of every
/// word value; later positions win).
pub fn index_map(data: &PlaneData, values: &[u32]) -> (r: Vec<u8>)
    requires
        forall|i: int| 0 <= i < values@.len() ==> #[trigger] values@[i] <= 0xffff,
    ensures
        r@.len() == data_len(*data),
        forall|k: int| 0 <= k < r@.len() ==> #[trigger] r@[k] == lut_of(values@, data_samples(*data)[k]),
{
    let mut lut: Vec<u8> = vec![0u8; 65536];
    let mut i = 0usize;
    while i < values.len()
        invariant
            i <= values@.len(),
            forall|k: int| 0 <= k < values@.len() ==> #[trigger] values@[k] <= 0xffff,
            lut@.len() == 65536,
            forall|v: int| 0 <= v < 65536 ==> #[trigger] lut@[v] == lut_of(values@.take(i as int), v as u32),
        decreases values@.len() - i,
    {
        let v = values[i];
        lut.set(v as usize, (i % 256) as u8);
        i = i + 1;
        proof {
            assert forall|u: int| 0 <= u < 65536 implies #[trigger] lut@[u] == lut_of(values@.take(i as int), u as u32) by {
                let t = values@.take(i as int);
                assert(t.drop_last() =~= values@.take(i - 1));
                assert(t.last() == v);
            }
        }
    }
    proof {
        assert(values@.take(values@.len() as int) =~= values@);
        lemma_samples_in_word(*data);
    }
    let s = sample_vec(data);
    let mut out: Vec<u8> = Vec::new();
    let mut k = 0usize;
    while k < s.len()
        invariant
            k <= s@.len(),
            s@ == data_samples(*data),
            s@.len() == data_len(*data),
            forall|q: int| 0 <= q < s@.len() ==> #[trigger] s@[q] <= 0xffff,
            lut@.len() == 65536,
            forall|v: int| 0 <= v < 65536 ==> #[trigger] lut@[v] == lut_of(values@, v as u32),
            out@.len() == k,
            forall|q: int| 0 <= q < k ==> #[trigger] out@[q] == lut_of(values@, s@[q]),
        decreases s@.len() - k,
    {
        let v = s[k];
        out.push(lut[v as usize]);
        k = k + 1;
    }
    out
}

// ---------------------------------------------------------------------------
// Wire-byte cost model (interval groups only)
// ---------------------------------------------------------------------------

/// Canonical byte count of a payload's samples.
pub open spec fn payload_bytes(d: PlaneData) -> nat {
    match d {
        PlaneData::U8(v) => v@.len(),
        PlaneData::U16(v) => 2 * v@.len(),
    }
}

/// Wire bytes of an object's content record.
pub open spec fn content_bytes(c: PlaneContent) -> nat {
    match c {
        PlaneContent::Fill(_) => 4,
        PlaneContent::Raster(d) => 8 + payload_bytes(d),
    }
}

/// Wire bytes of one op.
pub open spec fn op_bytes(op: PlaneOp) -> nat {
    match op {
        PlaneOp::DeclareObject { object, .. } => 13 + content_bytes(object.content),
        PlaneOp::CreateInstance { .. } => 17,
        PlaneOp::SetPosition { .. } => 13,
        PlaneOp::ClearInstances => 1,
        PlaneOp::ClearOverlay => 1,
        PlaneOp::PatchOverlay { points } => 5 + 12 * points@.len(),
        PlaneOp::CopyRect { .. } => 25,
        PlaneOp::Residual { block } => 9 + block@.len(),
    }
}

/// Wire bytes of an ops list.
pub open spec fn ops_bytes(ops: Seq<PlaneOp>) -> nat
    decreases ops.len(),
{
    if ops.len() == 0 {
        0
    } else {
        ops_bytes(ops.drop_last()) + op_bytes(ops.last())
    }
}

proof fn lemma_ops_prefix(ops: Seq<PlaneOp>, i: int)
    requires
        0 <= i <= ops.len(),
    ensures
        ops_bytes(ops.take(i)) <= ops_bytes(ops),
    decreases ops.len() - i,
{
    if i < ops.len() {
        lemma_ops_prefix(ops, i + 1);
        assert(ops.take(i + 1).drop_last() =~= ops.take(i));
    } else {
        assert(ops.take(i) =~= ops);
    }
}

/// Framing of one interval group: `t: u64` plus `op_count: u32`.
pub fn group_framing(op_count: u64) -> (r: u64)
    ensures
        r == 12,
{
    8 + 4
}

/// Canonical byte count of a payload's samples.
pub fn sample_bytes(data: &PlaneData) -> (r: u64)
    requires
        payload_bytes(*data) <= u64::MAX,
    ensures
        r == payload_bytes(*data),
{
    match data {
        PlaneData::U8(v) => v.len() as u64,
        PlaneData::U16(v) => (v.len() as u64) * 2,
    }
}

/// Wire bytes of one op (mirrors the container's op encodings).
fn op_wire_bytes(op: &PlaneOp) -> (r: u64)
    requires
        op_bytes(*op) <= u64::MAX,
    ensures
        r == op_bytes(*op),
{
    match op {
        PlaneOp::DeclareObject { object, .. } => match &object.content {
            PlaneContent::Fill(_) => 13 + 4,
            PlaneContent::Raster(d) => 13 + 8 + sample_bytes(d),
        },
        PlaneOp::CreateInstance { .. } => 1 + 4 + 4 + 4 + 4,
        PlaneOp::SetPosition { .. } => 1 + 4 + 4 + 4,
        PlaneOp::ClearInstances => 1,
        PlaneOp::ClearOverlay => 1,
        PlaneOp::PatchOverlay { points } => 1 + 4 + (points.len() as u64) * 12,
        PlaneOp::CopyRect { .. } => 1 + 4 * 6,
        PlaneOp::Residual { block } => 1 + 8 + block.len() as u64,
    }
}

/// Wire bytes of an ops list.
pub fn ops_wire_bytes(ops: &[PlaneOp]) -> (r: u64)
    requires
        ops_bytes(ops@) <= u64::MAX,
    ensures
        r == ops_bytes(ops@),
{
    let mut b = 0u64;
    let mut i = 0usize;
    while i < ops.len()
        invariant
            i <= ops@.len(),
            ops_bytes(ops@) <= u64::MAX,
            b == ops_bytes(ops@.take(i as int)),
        decreases ops@.len() - i,
    {
        proof {
            lemma_ops_prefix(ops@, i + 1);
            assert(ops@.take(i + 1).drop_last() =~= ops@.take(i as int));
        }
        b = b + op_wire_bytes(&ops[i]);
        i = i + 1;
    }
    proof {
        assert(ops@.take(ops@.len() as int) =~= ops@);
    }
    b
}

/// Complete wire bytes of one interval group: framing plus ops.
pub fn interval_bytes(ops: &[PlaneOp]) -> (r: u64)
    requires
        12 + ops_bytes(ops@) <= u64::MAX,
    ensures
        r == 12 + ops_bytes(ops@),
{
    group_framing(ops.len() as u64) + ops_wire_bytes(ops)
}

// ---------------------------------------------------------------------------
// COPY_RECT in the u32 sample domain
// ---------------------------------------------------------------------------

/// The in-canvas source of destination `(qx, qy)` under a copy of the
/// `cw × ch` box at `(sx, sy)` to `(dx, dy)`: defined exactly when the
/// destination lies in the copied box and its source lies in the canvas.
pub open spec fn copy_source(
    w: int,
    h: int,
    sx: int,
    sy: int,
    cw: int,
    ch: int,
    dx: int,
    dy: int,
    qx: int,
    qy: int,
) -> Option<(int, int)> {
    let (sj, si) = (qx - dx, qy - dy);
    if 0 <= sj < cw && 0 <= si < ch && 0 <= sx + sj < w && 0 <= sy + si < h {
        Some((sx + sj, sy + si))
    } else {
        None
    }
}

/// The value at destination `(qx, qy)` after the copy.
pub open spec fn copied(
    old: Seq<u32>,
    src: Seq<u32>,
    w: int,
    h: int,
    sx: int,
    sy: int,
    cw: int,
    ch: int,
    dx: int,
    dy: int,
    qx: int,
    qy: int,
) -> u32 {
    match copy_source(w, h, sx, sy, cw, ch, dx, dy, qx, qy) {
        Some((px, py)) => src[at(w, px, py)],
        None => old[at(w, qx, qy)],
    }
}

proof fn lemma_at_injective(w: int, x1: int, y1: int, x2: int, y2: int)
    requires
        0 <= x1 < w,
        0 <= x2 < w,
        0 <= y1,
        0 <= y2,
        at(w, x1, y1) == at(w, x2, y2),
    ensures
        x1 == x2 && y1 == y2,
{
    assert(y1 == y2) by (nonlinear_arith)
        requires
            0 <= x1 < w,
            0 <= x2 < w,
            0 <= y1,
            0 <= y2,
            y1 * w + x1 == y2 * w + x2,
    ;
}

/// Copy a rectangle in the `u32` sample domain: a sample is written only
/// when both its source and its destination positions are in the canvas.
pub fn sim_copy(
    dst: &mut Vec<u32>,
    src: &[u32],
    w: u32,
    h: u32,
    sx: i64,
    sy: i64,
    cw: u32,
    ch: u32,
    dx: i64,
    dy: i64,
)
    requires
        w * h <= old(dst)@.len(),
        w * h <= src@.len(),
        sx + cw <= i64::MAX,
        sy + ch <= i64::MAX,
        dx + cw <= i64::MAX,
        dy + ch <= i64::MAX,
    ensures
        final(dst)@.len() == old(dst)@.len(),
        forall|qx: int, qy: int|
            0 <= qx < w && 0 <= qy < h ==> #[trigger] final(dst)@[at(w as int, qx, qy)] == copied(
                old(dst)@,
                src@,
                w as int,
                h as int,
                sx as int,
                sy as int,
                cw as int,
                ch as int,
                dx as int,
                dy as int,
                qx,
                qy,
            ),
        forall|k: int| w * h <= k < old(dst)@.len() ==> #[trigger] final(dst)@[k] == old(dst)@[k],
{
    let ghost before = dst@;
    let dw = w as i64;
    let dh = h as i64;
    let mut si: i64 = 0;
    while si < ch as i64
        invariant
            0 <= si <= ch,
            dw == w,
            dh == h,
            dst@.len() == before.len(),
            w * h <= before.len(),
            w * h <= src@.len(),
            sx + cw <= i64::MAX,
            sy + ch <= i64::MAX,
            dx + cw <= i64::MAX,
            dy + ch <= i64::MAX,
            forall|k: int| w * h <= k < before.len() ==> #[trigger] dst@[k] == before[k],
            forall|qx: int, qy: int|
                0 <= qx < w && 0 <= qy < h ==> #[trigger] dst@[at(w as int, qx, qy)] == (if qy - dy < si {
                    copied(before, src@, w as int, h as int, sx as int, sy as int, cw as int, ch as int, dx as int, dy as int, qx, qy)
                } else {
                    before[at(w as int, qx, qy)]
                }),
        decreases ch - si,
    {
        let mut sj: i64 = 0;
        while sj < cw as i64
            invariant
                0 <= si < ch,
                0 <= sj <= cw,
                dw == w,
                dh == h,
                dst@.len() == before.len(),
                w * h <= before.len(),
                w * h <= src@.len(),
                sx + cw <= i64::MAX,
                sy + ch <= i64::MAX,
                dx + cw <= i64::MAX,
                dy + ch <= i64::MAX,
                forall|k: int| w * h <= k < before.len() ==> #[trigger] dst@[k] == before[k],
                forall|qx: int, qy: int|
                    0 <= qx < w && 0 <= qy < h ==> #[trigger] dst@[at(w as int, qx, qy)] == (if qy - dy < si || (
                    qy - dy == si && qx - dx < sj) {
                        copied(before, src@, w as int, h as int, sx as int, sy as int, cw as int, ch as int, dx as int, dy as int, qx, qy)
                    } else {
                        before[at(w as int, qx, qy)]
                    }),
            decreases cw - sj,
        {
            let px = sx + sj;
            let py = sy + si;
            let qx = dx + sj;
            let qy = dy + si;
            if px >= 0 && py >= 0 && px < dw && py < dh && qx >= 0 && qy >= 0 && qx < dw && qy < dh {
                proof {
                    lemma_at_bound(w as int, h as int, px as int, py as int);
                    lemma_at_bound(w as int, h as int, qx as int, qy as int);
                }
                proof {
                    assert(w * h <= 0xffff_fffe_0000_0001) by (nonlinear_arith)
                        requires
                            w <= 0xffff_ffff,
                            h <= 0xffff_ffff,
                    ;
                    assert(0 <= py * w <= py * w + px < w * h) by (nonlinear_arith)
                        requires
                            0 <= px < w,
                            0 <= py < h,
                    ;
                    assert(0 <= qy * w <= qy * w + qx < w * h) by (nonlinear_arith)
                        requires
                            0 <= qx < w,
                            0 <= qy < h,
                    ;
                }
                let from = ((py as u64) * (w as u64) + (px as u64)) as usize;
                let to = ((qy as u64) * (w as u64) + (qx as u64)) as usize;
                let v = src[from];
                let ghost mid = dst@;
                dst.set(to, v);
                proof {
                    assert forall|ax: int, ay: int|
                        0 <= ax < w && 0 <= ay < h implies #[trigger] dst@[at(w as int, ax, ay)] == (if ay - dy < si || (
                        ay - dy == si && ax - dx < sj + 1) {
                            copied(before, src@, w as int, h as int, sx as int, sy as int, cw as int, ch as int, dx as int, dy as int, ax, ay)
                        } else {
                            before[at(w as int, ax, ay)]
                        }) by {
                        lemma_at_bound(w as int, h as int, ax, ay);
                        if at(w as int, ax, ay) == to as int {
                            lemma_at_injective(w as int, ax, ay, qx as int, qy as int);
                        }
                    }
                }
            } else {
                proof {
                    assert forall|ax: int, ay: int|
                        0 <= ax < w && 0 <= ay < h implies #[trigger] dst@[at(w as int, ax, ay)] == (if ay - dy < si || (
                        ay - dy == si && ax - dx < sj + 1) {
                            copied(before, src@, w as int, h as int, sx as int, sy as int, cw as int, ch as int, dx as int, dy as int, ax, ay)
                        } else {
                            before[at(w as int, ax, ay)]
                        }) by {
                        if ay - dy == si && ax - dx == sj {
                            assert(ax == qx && ay == qy);
                        }
                    }
                }
            }
            sj = sj + 1;
        }
        proof {
            assert forall|ax: int, ay: int|
                0 <= ax < w && 0 <= ay < h implies #[trigger] dst@[at(w as int, ax, ay)] == (if ay - dy < si + 1 {
                    copied(before, src@, w as int, h as int, sx as int, sy as int, cw as int, ch as int, dx as int, dy as int, ax, ay)
                } else {
                    before[at(w as int, ax, ay)]
                }) by {
                if ay - dy == si && ax - dx >= cw {
                    assert(copy_source(w as int, h as int, sx as int, sy as int, cw as int, ch as int, dx as int, dy as int, ax, ay) is None);
                }
            }
        }
        si = si + 1;
    }
    proof {
        assert forall|ax: int, ay: int|
            0 <= ax < w && 0 <= ay < h implies #[trigger] dst@[at(w as int, ax, ay)] == copied(
                before, src@, w as int, h as int, sx as int, sy as int, cw as int, ch as int, dx as int, dy as int, ax, ay) by {
            if ay - dy >= ch {
                assert(copy_source(w as int, h as int, sx as int, sy as int, cw as int, ch as int, dx as int, dy as int, ax, ay) is None);
            }
        }
    }
}

// ---------------------------------------------------------------------------
// Change decomposition (connected components over the changed-cell grid)
// ---------------------------------------------------------------------------

/// One axis-aligned box of changed content.
#[derive(Debug, Clone, Copy, PartialEq, Eq, Structural)]
pub struct BoxGeom {
    /// Left column.
    pub x0: i64,
    /// Top row.
    pub y0: i64,
    /// Width in samples.
    pub w: u32,
    /// Height in samples.
    pub h: u32,
}

/// Whether cell `(x, y)` lies in box `b`.
pub open spec fn in_box(b: BoxGeom, x: int, y: int) -> bool {
    b.x0 <= x < b.x0 + b.w && b.y0 <= y < b.y0 + b.h
}

/// Whether box `b` is a nonempty box inside a `w × h` grid.
pub open spec fn box_in_grid(b: BoxGeom, w: u32, h: u32) -> bool {
    b.w >= 1 && b.h >= 1 && 0 <= b.x0 && b.x0 + b.w <= w && 0 <= b.y0 && b.y0 + b.h <= h
}

/// Area of a box.
pub open spec fn box_area(b: BoxGeom) -> int {
    b.w * b.h
}

/// Whether cell `(x, y)` differs between `base` and `target`.
pub open spec fn changed(base: Seq<u32>, target: Seq<u32>, w: u32, x: int, y: int) -> bool {
    base[at(w as int, x, y)] != target[at(w as int, x, y)]
}

/// Whether some box of `bs` holds cell `(x, y)`.
pub open spec fn covered(bs: Seq<BoxGeom>, x: int, y: int) -> bool {
    exists|j: int| 0 <= j < bs.len() && in_box(#[trigger] bs[j], x, y)
}

/// Number of unvisited cells.
pub open spec fn unvisited(v: Seq<bool>) -> nat
    decreases v.len(),
{
    if v.len() == 0 {
        0
    } else {
        unvisited(v.drop_last()) + if v.last() { 0nat } else { 1nat }
    }
}

proof fn lemma_unvisited_mark(v: Seq<bool>, k: int)
    requires
        0 <= k < v.len(),
        !v[k],
    ensures
        unvisited(v.update(k, true)) + 1 == unvisited(v),
    decreases v.len(),
{
    let u = v.update(k, true);
    if k == v.len() - 1 {
        assert(u.drop_last() =~= v.drop_last());
    } else {
        assert(u.drop_last() =~= v.drop_last().update(k, true));
        lemma_unvisited_mark(v.drop_last(), k);
    }
}

/// The bounding box `[x0, x1] × [y0, y1]` of cells as a `BoxGeom`.
pub open spec fn bbox(x0: u32, y0: u32, x1: u32, y1: u32) -> BoxGeom {
    BoxGeom { x0: x0 as i64, y0: y0 as i64, w: (x1 - x0 + 1) as u32, h: (y1 - y0 + 1) as u32 }
}

/// Area of `b` in samples.
fn area_of(b: &BoxGeom) -> (r: u64)
    ensures
        r == box_area(*b),
{
    proof {
        assert(b.w * b.h <= 0xffff_fffe_0000_0001) by (nonlinear_arith)
            requires
                b.w <= 0xffff_ffff,
                b.h <= 0xffff_ffff,
        ;
    }
    (b.w as u64) * (b.h as u64)
}

/// Changed samples of `target` against `base` (both row-major), gathered
/// into the bounding boxes of the 4-connected components of the changed
/// grid, found in row-major order of their first cell, then ordered by
/// area, largest first (ties keep discovery order), and capped at `cap`
/// boxes; the flag tells whether the cap dropped any.
#[verifier::rlimit(80)]
pub fn changed_boxes(base: &[u32], target: &[u32], w: u32, h: u32, cap: usize) -> (r: (Vec<BoxGeom>, bool))
    requires
        w * h <= base@.len(),
        w * h <= target@.len(),
    ensures
        (forall|x: int, y: int| 0 <= x < w && 0 <= y < h ==> !changed(base@, target@, w, x, y)) ==> r.0@.len()
            == 0 && !r.1,
        r.0@.len() <= cap,
        r.1 ==> r.0@.len() == cap,
        forall|j: int| 0 <= j < r.0@.len() ==> box_in_grid(#[trigger] r.0@[j], w, h),
        forall|i: int, j: int| 0 <= i < j < r.0@.len() ==> box_area(r.0@[i]) >= box_area(r.0@[j]),
        !r.1 ==> forall|x: int, y: int|
            0 <= x < w && 0 <= y < h && changed(base@, target@, w, x, y) ==> covered(r.0@, x, y),
{
    proof {
        assert(w * h <= 0xffff_fffe_0000_0001) by (nonlinear_arith)
            requires
                w <= 0xffff_ffff,
                h <= 0xffff_ffff,
        ;
    }
    let bl = base.len();
    let n = ((w as u64) * (h as u64)) as usize;
    let mut visited: Vec<bool> = Vec::new();
    while visited.len() < n
        invariant
            visited@.len() <= n,
            forall|k: int| 0 <= k < visited@.len() ==> !#[trigger] visited@[k],
        decreases n - visited@.len(),
    {
        visited.push(false);
    }
    let mut comps: Vec<BoxGeom> = Vec::new();
    let mut stack: Vec<(u32, u32)> = Vec::new();
    proof {
        assert forall|xx: int, yy: int| 0 <= xx < w && 0 <= yy < h implies !#[trigger] visited@[at(w as int, xx, yy)] by {
            lemma_at_bound(w as int, h as int, xx, yy);
        }
    }
    let mut y = 0u32;
    while y < h
        invariant
            n == w * h,
            bl == base@.len(),
            stack@.len() == 0,
            visited@.len() == n,
            w * h <= base@.len(),
            w * h <= target@.len(),
            y <= h,
            forall|j: int| 0 <= j < comps@.len() ==> box_in_grid(#[trigger] comps@[j], w, h),
            forall|xx: int, yy: int|
                0 <= xx < w && 0 <= yy < h && #[trigger] visited@[at(w as int, xx, yy)] ==> covered(comps@, xx, yy),
            forall|xx: int, yy: int|
                0 <= xx < w && 0 <= yy < y && changed(base@, target@, w, xx, yy) ==> #[trigger] visited@[at(
                    w as int,
                    xx,
                    yy,
                )],
            (forall|xx: int, yy: int| 0 <= xx < w && 0 <= yy < y ==> !changed(base@, target@, w, xx, yy))
                ==> comps@.len() == 0,
        decreases h - y,
    {
        let mut x = 0u32;
        while x < w
            invariant
                n == w * h,
                bl == base@.len(),
                stack@.len() == 0,
                visited@.len() == n,
                w * h <= base@.len(),
                w * h <= target@.len(),
                y < h,
                x <= w,
                forall|j: int| 0 <= j < comps@.len() ==> box_in_grid(#[trigger] comps@[j], w, h),
                forall|xx: int, yy: int|
                    0 <= xx < w && 0 <= yy < h && #[trigger] visited@[at(w as int, xx, yy)] ==> covered(comps@, xx, yy),
                forall|xx: int, yy: int|
                    0 <= xx < w && ((0 <= yy < y) || (yy == y && xx < x)) && changed(base@, target@, w, xx, yy)
                        ==> #[trigger] visited@[at(w as int, xx, yy)],
                (forall|xx: int, yy: int|
                    0 <= xx < w && ((0 <= yy < y) || (yy == y && xx < x)) ==> !changed(base@, target@, w, xx, yy))
                    ==> comps@.len() == 0,
            decreases w - x,
        {
            proof {
                lemma_at_bound(w as int, h as int, x as int, y as int);
                assert(0 <= y * w <= y * w + x < w * h) by (nonlinear_arith)
                    requires
                        x < w,
                        y < h,
                ;
            }
            let ku: u64 = (y as u64) * (w as u64) + (x as u64);
            assert(ku < bl);
            let k = ku as usize;
            if base[k] != target[k] && !visited[k] {
                assert(changed(base@, target@, w, x as int, y as int));
                let ghost before = comps@;
                let ghost vb = visited@;
                let bx = flood(base, target, w, h, &mut visited, &mut stack, x, y, Ghost(comps@));
                comps.push(bx);
                proof {
                    assert(comps@.drop_last() == before);
                    assert forall|xx: int, yy: int|
                        0 <= xx < w && ((0 <= yy < y) || (yy == y && xx < x + 1)) && changed(base@, target@, w, xx, yy)
                            implies #[trigger] visited@[at(w as int, xx, yy)] by {
                        lemma_at_bound(w as int, h as int, xx, yy);
                        if !(yy == y && xx == x) {
                            assert(vb[at(w as int, xx, yy)]);
                        }
                    }
                    assert forall|xx: int, yy: int|
                        0 <= xx < w && 0 <= yy < h && #[trigger] visited@[at(w as int, xx, yy)] implies covered(comps@, xx, yy) by {
                        if covered(before, xx, yy) {
                            let j = choose|j: int| 0 <= j < before.len() && in_box(#[trigger] before[j], xx, yy);
                            assert(comps@[j] == before[j]);
                        } else {
                            assert(in_box(comps@[comps@.len() - 1], xx, yy));
                        }
                    }
                }
            }
            x = x + 1;
        }
        y = y + 1;
    }
    // Stable insertion sort by area, largest first.
    let mut sorted: Vec<BoxGeom> = Vec::new();
    let mut i = 0usize;
    while i < comps.len()
        invariant
            i <= comps@.len(),
            forall|j: int| 0 <= j < comps@.len() ==> box_in_grid(#[trigger] comps@[j], w, h),
            forall|j: int| 0 <= j < sorted@.len() ==> box_in_grid(#[trigger] sorted@[j], w, h),
            forall|a: int, b: int| 0 <= a < b < sorted@.len() ==> box_area(sorted@[a]) >= box_area(sorted@[b]),
            forall|j: int| 0 <= j < i ==> sorted@.contains(#[trigger] comps@[j]),
            sorted@.len() == i,
        decreases comps@.len() - i,
    {
        let c = comps[i];
        let area = area_of(&c);
        let mut p = sorted.len();
        while p > 0 && area_of(&sorted[p - 1]) < area
            invariant
                p <= sorted@.len(),
                area == box_area(c),
                forall|q: int| p <= q < sorted@.len() ==> box_area(#[trigger] sorted@[q]) < area,
            decreases p,
        {
            p = p - 1;
        }
        let ghost old_sorted = sorted@;
        sorted.insert(p, c);
        proof {
            assert(sorted@ == old_sorted.insert(p as int, c));
            assert forall|j: int| 0 <= j < i + 1 implies sorted@.contains(#[trigger] comps@[j]) by {
                if j < i {
                    let q = choose|q: int| 0 <= q < old_sorted.len() && old_sorted[q] == comps@[j];
                    if q < p {
                        assert(sorted@[q] == comps@[j]);
                    } else {
                        assert(sorted@[q + 1] == comps@[j]);
                    }
                } else {
                    assert(sorted@[p as int] == c);
                }
            }
            assert forall|a: int, b: int| 0 <= a < b < sorted@.len() implies box_area(sorted@[a]) >= box_area(sorted@[b]) by {
                if p > 0 {
                    assert(box_area(old_sorted[p - 1]) >= area);
                }
            }
        }
        i = i + 1;
    }
    let truncated = comps.len() > cap;
    let mut out: Vec<BoxGeom> = Vec::new();
    let mut j = 0usize;
    while j < sorted.len() && j < cap
        invariant
            j <= sorted@.len(),
            j <= cap,
            out@ == sorted@.take(j as int),
        decreases sorted@.len() - j,
    {
        out.push(sorted[j]);
        j = j + 1;
        proof {
            assert(out@ =~= sorted@.take(j as int));
        }
    }
    proof {
        if !truncated {
            assert(out@ =~= sorted@);
            assert forall|xx: int, yy: int|
                0 <= xx < w && 0 <= yy < h && changed(base@, target@, w, xx, yy) implies covered(out@, xx, yy) by {
                assert(visited@[at(w as int, xx, yy)]);
                let q = choose|q: int| 0 <= q < comps@.len() && in_box(#[trigger] comps@[q], xx, yy);
                assert(sorted@.contains(comps@[q]));
                let s = choose|s: int| 0 <= s < sorted@.len() && sorted@[s] == comps@[q];
                assert(in_box(out@[s], xx, yy));
            }
        }
    }
    (out, truncated)
}

/// Whether `a` marks at least the cells `b` marks.
pub open spec fn marks_all(a: Seq<bool>, b: Seq<bool>) -> bool {
    a.len() == b.len() && forall|k: int| 0 <= k < b.len() && b[k] ==> #[trigger] a[k]
}

proof fn lemma_marks_trans(a: Seq<bool>, b: Seq<bool>, c: Seq<bool>)
    requires
        marks_all(a, b),
        marks_all(b, c),
    ensures
        marks_all(a, c),
{
    assert forall|k: int| 0 <= k < c.len() && c[k] implies #[trigger] a[k] by {
        assert(b[k]);
    }
}

/// The shared frame of the flood-fill invariants.
pub open spec fn flood_frame(
    base: Seq<u32>,
    target: Seq<u32>,
    w: u32,
    h: u32,
    visited: Seq<bool>,
    stack: Seq<(u32, u32)>,
    prior: Seq<BoxGeom>,
    x0: u32,
    y0: u32,
    x1: u32,
    y1: u32,
) -> bool {
    &&& visited.len() == w * h
    &&& w * h <= base.len()
    &&& w * h <= target.len()
    &&& x0 <= x1 < w
    &&& y0 <= y1 < h
    &&& forall|q: int| 0 <= q < stack.len() ==> (#[trigger] stack[q]).0 < w && stack[q].1 < h
    &&& forall|xx: int, yy: int|
        0 <= xx < w && 0 <= yy < h && #[trigger] visited[at(w as int, xx, yy)] ==> covered(prior, xx, yy)
            || in_box(bbox(x0, y0, x1, y1), xx, yy)
}

/// Visit cell `(nx, ny)` when it is in the grid, changed and unvisited:
/// mark it, push it, and grow the bounding box over it.
#[verifier::rlimit(40)]
fn try_visit(
    base: &[u32],
    target: &[u32],
    w: u32,
    h: u32,
    visited: &mut Vec<bool>,
    stack: &mut Vec<(u32, u32)>,
    nx: u32,
    ny: u32,
    bb: (u32, u32, u32, u32),
    Ghost(prior): Ghost<Seq<BoxGeom>>,
) -> (r: (u32, u32, u32, u32))
    requires
        flood_frame(base@, target@, w, h, old(visited)@, old(stack)@, prior, bb.0, bb.1, bb.2, bb.3),
    ensures
        flood_frame(base@, target@, w, h, final(visited)@, final(stack)@, prior, r.0, r.1, r.2, r.3),
        marks_all(final(visited)@, old(visited)@),
        5 * unvisited(final(visited)@) + final(stack)@.len() <= 5 * unvisited(old(visited)@) + old(stack)@.len(),
        r.0 <= bb.0 && r.1 <= bb.1 && r.2 >= bb.2 && r.3 >= bb.3,
{
    let (x0, y0, x1, y1) = bb;
    if nx >= w || ny >= h {
        return bb;
    }
    proof {
        assert(0 <= ny * w <= ny * w + nx < w * h) by (nonlinear_arith)
            requires
                nx < w,
                ny < h,
        ;
        assert(w * h <= 0xffff_fffe_0000_0001) by (nonlinear_arith)
            requires
                w <= 0xffff_ffff,
                h <= 0xffff_ffff,
        ;
    }
    let bl = base.len();
    let ku: u64 = (ny as u64) * (w as u64) + (nx as u64);
    assert(ku < bl);
    let k = ku as usize;
    if base[k] == target[k] || visited[k] {
        return bb;
    }
    let ghost old_v = visited@;
    proof {
        lemma_unvisited_mark(old_v, k as int);
    }
    visited.set(k, true);
    stack.push((nx, ny));
    let nb = (
        if nx < x0 { nx } else { x0 },
        if ny < y0 { ny } else { y0 },
        if nx > x1 { nx } else { x1 },
        if ny > y1 { ny } else { y1 },
    );
    proof {
        assert forall|xx: int, yy: int|
            0 <= xx < w && 0 <= yy < h && #[trigger] visited@[at(w as int, xx, yy)] implies covered(prior, xx, yy)
                || in_box(bbox(nb.0, nb.1, nb.2, nb.3), xx, yy) by {
            lemma_at_bound(w as int, h as int, xx, yy);
            if at(w as int, xx, yy) == k as int {
                lemma_at_injective(w as int, xx, yy, nx as int, ny as int);
            } else {
                assert(old_v[at(w as int, xx, yy)]);
            }
        }
    }
    nb
}

/// Flood-fill the 4-connected changed cells reachable from `(sx, sy)`,
/// marking them visited, and return their bounding box.
#[verifier::rlimit(60)]
fn flood(
    base: &[u32],
    target: &[u32],
    w: u32,
    h: u32,
    visited: &mut Vec<bool>,
    stack: &mut Vec<(u32, u32)>,
    sx: u32,
    sy: u32,
    Ghost(prior): Ghost<Seq<BoxGeom>>,
) -> (r: BoxGeom)
    requires
        old(visited)@.len() == w * h,
        w * h <= base@.len(),
        w * h <= target@.len(),
        sx < w,
        sy < h,
        old(stack)@.len() == 0,
        forall|xx: int, yy: int|
            0 <= xx < w && 0 <= yy < h && #[trigger] old(visited)@[at(w as int, xx, yy)] ==> covered(prior, xx, yy),
    ensures
        final(visited)@.len() == w * h,
        final(stack)@.len() == 0,
        box_in_grid(r, w, h),
        marks_all(final(visited)@, old(visited)@),
        final(visited)@[at(w as int, sx as int, sy as int)],
        forall|xx: int, yy: int|
            0 <= xx < w && 0 <= yy < h && #[trigger] final(visited)@[at(w as int, xx, yy)] ==> covered(prior, xx, yy)
                || in_box(r, xx, yy),
{
    proof {
        assert(0 <= sy * w <= sy * w + sx < w * h) by (nonlinear_arith)
            requires
                sx < w,
                sy < h,
        ;
        assert(w * h <= 0xffff_fffe_0000_0001) by (nonlinear_arith)
            requires
                w <= 0xffff_ffff,
                h <= 0xffff_ffff,
        ;
    }
    let bl = base.len();
    let k0u: u64 = (sy as u64) * (w as u64) + (sx as u64);
    assert(k0u < bl);
    let k0 = k0u as usize;
    let ghost v0 = visited@;
    assert(k0 == at(w as int, sx as int, sy as int));
    visited.set(k0, true);
    stack.push((sx, sy));
    let mut bb: (u32, u32, u32, u32) = (sx, sy, sx, sy);
    proof {
        assert forall|xx: int, yy: int|
            0 <= xx < w && 0 <= yy < h && #[trigger] visited@[at(w as int, xx, yy)] implies covered(prior, xx, yy)
                || in_box(bbox(bb.0, bb.1, bb.2, bb.3), xx, yy) by {
            lemma_at_bound(w as int, h as int, xx, yy);
            if at(w as int, xx, yy) == k0 as int {
                lemma_at_injective(w as int, xx, yy, sx as int, sy as int);
            } else {
                assert(v0[at(w as int, xx, yy)]);
            }
        }
    }
    while stack.len() > 0
        invariant
            flood_frame(base@, target@, w, h, visited@, stack@, prior, bb.0, bb.1, bb.2, bb.3),
            marks_all(visited@, v0.update(k0 as int, true)),
            k0 < v0.len(),
            k0 == at(w as int, sx as int, sy as int),
        decreases 5 * unvisited(visited@) + stack@.len(),
    {
        let (cx, cy) = stack.pop().unwrap();
        let ghost g0 = visited@;
        if cx > 0 {
            bb = try_visit(base, target, w, h, visited, stack, cx - 1, cy, bb, Ghost(prior));
        }
        let ghost g1 = visited@;
        proof {
            assert(marks_all(g1, g0));
            lemma_marks_trans(g1, g0, v0.update(k0 as int, true));
        }
        bb = try_visit(base, target, w, h, visited, stack, cx + 1, cy, bb, Ghost(prior));
        let ghost g2 = visited@;
        proof {
            lemma_marks_trans(g2, g1, v0.update(k0 as int, true));
        }
        if cy > 0 {
            bb = try_visit(base, target, w, h, visited, stack, cx, cy - 1, bb, Ghost(prior));
        }
        let ghost g3 = visited@;
        proof {
            assert(marks_all(g3, g2));
            lemma_marks_trans(g3, g2, v0.update(k0 as int, true));
        }
        bb = try_visit(base, target, w, h, visited, stack, cx, cy + 1, bb, Ghost(prior));
        proof {
            lemma_marks_trans(visited@, g3, v0.update(k0 as int, true));
        }
    }
    proof {
        assert(visited@[k0 as int]);
        assert(marks_all(v0.update(k0 as int, true), v0));
        lemma_marks_trans(visited@, v0.update(k0 as int, true), v0);
    }
    BoxGeom { x0: bb.0 as i64, y0: bb.1 as i64, w: bb.2 - bb.0 + 1, h: bb.3 - bb.1 + 1 }
}

/// Probing from `c` finds the same first toggle as probing from `cell`
/// when nothing toggles in between.
proof fn lemma_first_toggle_skip(d: PlaneData, w: u32, h: u32, c: int, cell: int, limit: int)
    requires
        c <= cell <= limit,
        forall|k: int| c <= k < cell ==> !#[trigger] toggles(d, w, h, k),
    ensures
        first_toggle(d, w, h, c, limit) == first_toggle(d, w, h, cell, limit),
    decreases cell - c,
{
    if c < cell {
        assert(!toggles(d, w, h, c));
        lemma_first_toggle_skip(d, w, h, c + 1, cell, limit);
    }
}

/// The checker fit finds every checkerboard it can express: when each
/// sample of a `w × h` grid is `a` on the squares whose cell coordinates
/// sum to an even number and `b` on the others, for two different values
/// in range and a cell inside the probed range that is smaller than the
/// grid's larger side, the fit returns exactly that checkerboard.
pub proof fn law_checker_fit_complete(d: PlaneData, w: u32, h: u32, max: u32, a: u32, b: u32, cell: u32)
    requires
        w > 0,
        h > 0,
        a != b,
        a <= max,
        b <= max,
        1 <= cell,
        cell as int <= checker_limit(w, h),
        cell < w || cell < h,
        forall|x: int, y: int|
            0 <= x < w && 0 <= y < h ==> #[trigger] grid(d, w as int, x, y) == if (x / (cell as int) + y / (
                cell as int)) % 2 == 0 {
                a
            } else {
                b
            },
    ensures
        checker_fit(d, w, h, max) == Some(Gen::Checker { a, b, cell }),
{
    let c = cell as int;
    let lim = checker_limit(w, h);
    vstd::arithmetic::div_mod::lemma_basic_div(0, c);
    assert(grid(d, w as int, 0, 0) == a);
    assert forall|k: int| 1 <= k < c implies !#[trigger] toggles(d, w, h, k) by {
        vstd::arithmetic::div_mod::lemma_basic_div(k, c);
        if k < w {
            assert(grid(d, w as int, k, 0) == a);
        }
        if k < h {
            assert(grid(d, w as int, 0, k) == a);
        }
    }
    lemma_first_toggle_skip(d, w, h, 1, c, lim);
    vstd::arithmetic::div_mod::lemma_div_by_self(c);
    if cell < w {
        assert(grid(d, w as int, c, 0) == b);
    } else {
        assert(grid(d, w as int, 0, c) == b);
    }
    assert(toggles(d, w, h, c));
    assert(first_toggle(d, w, h, c, lim) == c);
    let g = Gen::Checker { a, b, cell };
    assert forall|x: int, y: int| 0 <= x < w && 0 <= y < h implies gen_sample(g, x as i64, y as i64, max)
        == #[trigger] grid(d, w as int, x, y) by {
        assert((x as i64) as int == x);
        assert((y as i64) as int == y);
    }
    assert(checker_matches(d, w, h, max, g));
}

/// The canonical slope between two residues of a ramp that steps by `s`
/// differs from `s` by a multiple of `m`.
proof fn lemma_canon_slope_congruent(base: int, s: int, m: int) -> (q: int)
    requires
        1 <= m,
        0 <= base < m,
    ensures
        canon_slope(base, (base + s) % m, m) == s + m * q,
        s % m != 0 ==> canon_slope(base, (base + s) % m, m) != 0,
{
    vstd::arithmetic::div_mod::lemma_small_mod(base as nat, m as nat);
    vstd::arithmetic::div_mod::lemma_sub_mod_noop(base + s, base, m);
    assert((base + s) - base == s);
    let dd = ((base + s) % m - base) % m;
    assert(dd == s % m);
    vstd::arithmetic::div_mod::lemma_fundamental_div_mod(s, m);
    if dd > m / 2 {
        assert(dd - m == s + m * (-(s / m) - 1)) by (nonlinear_arith)
            requires
                s == m * (s / m) + s % m,
                dd == s % m,
        ;
        -(s / m) - 1
    } else {
        assert(dd == s + m * (-(s / m))) by (nonlinear_arith)
            requires
                s == m * (s / m) + s % m,
                dd == s % m,
        ;
        -(s / m)
    }
}

/// The gradient fit finds every ramp it can express: when each sample of
/// a `w × h` grid is `(base + sx·x + sy·y) mod (max + 1)` for a `base`
/// in range and slopes that are not both invisible (a slope along a side
/// of length one, or a multiple of `max + 1`), the fit returns a gradient
/// with that `base`, and by its contract that gradient reproduces every
/// sample.
pub proof fn law_gradient_fit_complete(d: PlaneData, w: u32, h: u32, max: u32, base: u32, sx: int, sy: int)
    requires
        w > 0,
        h > 0,
        base <= max,
        (w > 1 && sx % (max + 1) != 0) || (h > 1 && sy % (max + 1) != 0),
        forall|x: int, y: int|
            0 <= x < w && 0 <= y < h ==> #[trigger] grid(d, w as int, x, y) == (base + sx * x + sy * y) % (max
                + 1),
    ensures
        gradient_fit(d, w, h, max) matches Some(Gen::Gradient { base: b2, .. }) && b2 == base,
{
    let m: int = max + 1;
    vstd::arithmetic::div_mod::lemma_small_mod(base as nat, m as nat);
    assert(grid(d, w as int, 0, 0) == base);
    let mut qx: int = 0;
    let mut qy: int = 0;
    if w > 1 {
        assert(grid(d, w as int, 1, 0) == (base + sx) % m);
        qx = lemma_canon_slope_congruent(base as int, sx, m);
    }
    if h > 1 {
        assert(grid(d, w as int, 0, 1) == (base + sy) % m);
        qy = lemma_canon_slope_congruent(base as int, sy, m);
    }
    let sx2 = grad_sx(d, w, max);
    let sy2 = grad_sy(d, w, h, max);
    assert(!(sx2 == 0 && sy2 == 0));
    assert forall|x: int, y: int| 0 <= x < w && 0 <= y < h implies (base + sx2 * x + sy2 * y) % m == #[trigger] grid(
        d,
        w as int,
        x,
        y,
    ) by {
        let ex: int = if w > 1 { qx } else { 0 };
        let ey: int = if h > 1 { qy } else { 0 };
        assert(sx2 * x == sx * x + m * (ex * x)) by (nonlinear_arith)
            requires
                w > 1 ==> sx2 == sx + m * ex,
                w <= 1 ==> sx2 == 0 && x == 0 && ex == 0,
        ;
        assert(sy2 * y == sy * y + m * (ey * y)) by (nonlinear_arith)
            requires
                h > 1 ==> sy2 == sy + m * ey,
                h <= 1 ==> sy2 == 0 && y == 0 && ey == 0,
        ;
        assert(base + sx2 * x + sy2 * y == m * (ex * x + ey * y) + (base + sx * x + sy * y)) by (nonlinear_arith)
            requires
                sx2 * x == sx * x + m * (ex * x),
                sy2 * y == sy * y + m * (ey * y),
        ;
        vstd::arithmetic::div_mod::lemma_mod_multiples_vanish(ex * x + ey * y, base + sx * x + sy * y, m);
    }
    assert(gradient_matches(d, w as int, h as int, m, base as int, sx2, sy2));
}

/// Point records are twelve bytes each.
proof fn lemma_points_len(s: Seq<(i64, i64, u32)>)
    ensures
        enc_points(s).len() == 12 * s.len(),
    decreases s.len(),
{
    if s.len() > 0 {
        lemma_points_len(s.drop_last());
    }
}

/// Object declarations in an ops list.
pub open spec fn declares(ops: Seq<PlaneOp>) -> nat
    decreases ops.len(),
{
    if ops.len() == 0 {
        0
    } else {
        declares(ops.drop_last()) + if ops.last() is DeclareObject {
            1nat
        } else {
            0nat
        }
    }
}

/// The size the encoder budgets for an op is the length of the op's
/// record in the container, except that an object declaration is budgeted
/// without its one-byte content kind.
pub proof fn law_op_bytes_is_record_length(op: PlaneOp)
    ensures
        op_bytes(op) + (if op is DeclareObject {
            1nat
        } else {
            0nat
        }) == enc_op(op).len(),
{
    if let PlaneOp::PatchOverlay { points } = op {
        lemma_points_len(points@);
    }
}

/// The size the encoder budgets for an ops list is the length of its
/// records in the container, less one byte per object declaration.
pub proof fn law_ops_bytes_is_record_length(ops: Seq<PlaneOp>)
    ensures
        ops_bytes(ops) + declares(ops) == enc_ops(ops).len(),
    decreases ops.len(),
{
    if ops.len() > 0 {
        law_ops_bytes_is_record_length(ops.drop_last());
        law_op_bytes_is_record_length(ops.last());
    }
}

/// An interval group's budget (its framing plus its ops) is the length
/// of its record in the container, less one byte per object declaration.
pub proof fn law_interval_bytes_is_record_length(t: u64, ops: Vec<PlaneOp>)
    ensures
        12 + ops_bytes(ops@) + declares(ops@) == enc_interval((t, ops)).len(),
{
    law_ops_bytes_is_record_length(ops@);
}

} // verus!
