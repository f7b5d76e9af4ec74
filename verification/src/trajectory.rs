//! Bounded parametric trajectories.
//!
//! A trajectory is a finite, deterministic motion program attached to one
//! instance: a list of segments executed in order, one advance at a time.
//! Each segment runs for its declared `steps` advances; when the final
//! segment's steps are exhausted the trajectory deactivates.
//!
//! * [`TrajectorySegment::Linear`]: each advance adds `(vx, vy)`.
//! * [`TrajectorySegment::Accel`]: the velocity starts at `(vx0, vy0)` and
//!   gains `(ax, ay)` after each advance; after `t` advances the displacement
//!   is `t·v0 + a·t·(t−1)/2`.
//!
//! All arithmetic is checked; an overflowing accumulation is "no exact
//! answer", never a wrap.

use vstd::arithmetic::div_mod::*;
use vstd::arithmetic::mul::*;
use vstd::prelude::*;

use crate::error::VoleError;
use crate::limits::Limits;

verus! {

/// Bound of the canonical signed coordinate domain (`±2^24`).
pub const MAX_COORD: i64 = 16777216;

/// Wire kind byte of a linear segment.
pub const SEG_LINEAR: u8 = 0x00;

/// Wire kind byte of an acceleration segment.
pub const SEG_ACCEL: u8 = 0x01;

/// One bounded segment of a trajectory program.
#[derive(Debug, Clone, Copy, PartialEq, Eq, Structural)]
pub enum TrajectorySegment {
    /// Constant-velocity translation for `steps` advances.
    Linear { vx: i64, vy: i64, steps: u64 },
    /// Constant-acceleration segment for `steps` advances.
    Accel { vx0: i64, vy0: i64, ax: i64, ay: i64, steps: u64 },
}

/// Advances a segment occupies.
pub open spec fn seg_steps(s: TrajectorySegment) -> u64 {
    match s {
        TrajectorySegment::Linear { steps, .. } => steps,
        TrajectorySegment::Accel { steps, .. } => steps,
    }
}

/// A literal inside the canonical coordinate domain.
pub open spec fn coord_in(v: i64) -> bool {
    -MAX_COORD <= v <= MAX_COORD
}

/// Canonical form of one segment: at least one step, literals inside the
/// coordinate domain, and an `Accel` with a nonzero acceleration.
pub open spec fn seg_canonical(s: TrajectorySegment) -> bool {
    match s {
        TrajectorySegment::Linear { vx, vy, steps } => steps >= 1 && coord_in(vx) && coord_in(vy),
        TrajectorySegment::Accel { vx0, vy0, ax, ay, steps } => steps >= 1 && !(ax == 0 && ay
            == 0) && coord_in(vx0) && coord_in(vy0) && coord_in(ax) && coord_in(ay),
    }
}

/// Whether an integer fits `i64`.
pub open spec fn fits64(v: int) -> bool {
    i64::MIN <= v <= i64::MAX
}

/// Whether an integer fits `i128`.
pub open spec fn fits128(v: int) -> bool {
    i128::MIN <= v <= i128::MAX
}

/// One axis of a segment's closed-form displacement over `n` advances, with
/// the checked `i128` evaluation order: `n·v0 + (n(n−1)/2)·a`.
pub open spec fn accel_axis(n: nat, v0: i64, a: i64) -> Option<int> {
    let t = (n * (n - 1)) / 2;
    let p1 = n * v0;
    let p2 = t * a;
    if fits128(p2) && fits128(p1 + p2) {
        Some(p1 + p2)
    } else {
        None
    }
}

/// Displacement of a segment over exactly `n` advances, `None` when the
/// closed form overflows.
pub open spec fn seg_delta(s: TrajectorySegment, n: nat) -> Option<(i64, i64)> {
    if n == 0 {
        Some((0, 0))
    } else {
        match s {
            TrajectorySegment::Linear { vx, vy, .. } => if fits64(n * vx) && fits64(n * vy) {
                Some(((n * vx) as i64, (n * vy) as i64))
            } else {
                None
            },
            TrajectorySegment::Accel { vx0, vy0, ax, ay, .. } => match (
                accel_axis(n, vx0, ax),
                accel_axis(n, vy0, ay),
            ) {
                (Some(x), Some(y)) => if fits64(x) && fits64(y) {
                    Some((x as i64, y as i64))
                } else {
                    None
                },
                _ => None,
            },
        }
    }
}

impl TrajectorySegment {
    /// Advances this segment occupies.
    pub fn steps(&self) -> (r: u64)
        ensures
            r == seg_steps(*self),
    {
        match self {
            TrajectorySegment::Linear { steps, .. } => *steps,
            TrajectorySegment::Accel { steps, .. } => *steps,
        }
    }

    /// Serialized byte length of this segment on the wire.
    pub fn wire_bytes(&self) -> (r: u64)
        ensures
            r == if *self is Linear {
                17u64
            } else {
                25u64
            },
    {
        match self {
            TrajectorySegment::Linear { .. } => 17,
            TrajectorySegment::Accel { .. } => 25,
        }
    }

    /// Canonical-form check: a non-canonical segment is
    /// `NonCanonicalEncoding`.
    pub fn check(&self) -> (r: Result<(), VoleError>)
        ensures
            r is Ok <==> seg_canonical(*self),
            r matches Err(e) ==> e == VoleError::NonCanonicalEncoding,
    {
        match self {
            TrajectorySegment::Linear { vx, vy, steps } => {
                if *steps == 0 {
                    return Err(VoleError::NonCanonicalEncoding);
                }
                if !coord_ok(*vx) || !coord_ok(*vy) {
                    return Err(VoleError::NonCanonicalEncoding);
                }
            },
            TrajectorySegment::Accel { vx0, vy0, ax, ay, steps } => {
                if *steps == 0 {
                    return Err(VoleError::NonCanonicalEncoding);
                }
                if *ax == 0 && *ay == 0 {
                    return Err(VoleError::NonCanonicalEncoding);
                }
                if !coord_ok(*vx0) || !coord_ok(*vy0) || !coord_ok(*ax) || !coord_ok(*ay) {
                    return Err(VoleError::NonCanonicalEncoding);
                }
            },
        }
        Ok(())
    }
}

/// Two adjacent `Linear` segments with the same velocity (must be merged).
pub open spec fn mergeable(a: TrajectorySegment, b: TrajectorySegment) -> bool {
    match (a, b) {
        (
            TrajectorySegment::Linear { vx: ax, vy: ay, .. },
            TrajectorySegment::Linear { vx: bx, vy: by, .. },
        ) => ax == bx && ay == by,
        _ => false,
    }
}

/// The error [`check_program`] reports for a program, if any.
pub open spec fn program_error(segs: Seq<TrajectorySegment>, limits: Limits) -> Option<VoleError> {
    if segs.len() > limits.max_trajectory_segments {
        Some(VoleError::MaterializationBudgetExceeded)
    } else if exists|i: int| 0 <= i < segs.len() && !seg_canonical(#[trigger] segs[i]) {
        Some(VoleError::NonCanonicalEncoding)
    } else if exists|i: int| 0 <= i < segs.len() - 1 && #[trigger] mergeable(segs[i], segs[i + 1]) {
        Some(VoleError::NonCanonicalEncoding)
    } else {
        None
    }
}

/// Validate a whole trajectory program: the segment-count bound, every
/// segment canonical, and no two adjacent equal-velocity `Linear`
/// segments.
pub fn check_program(segments: &[TrajectorySegment], limits: &Limits) -> (r: Result<(), VoleError>)
    ensures
        match r {
            Ok(()) => program_error(segments@, *limits) is None,
            Err(e) => program_error(segments@, *limits) == Some(e),
        },
{
    if segments.len() as u64 > limits.max_trajectory_segments as u64 {
        return Err(VoleError::MaterializationBudgetExceeded);
    }
    let mut i = 0usize;
    while i < segments.len()
        invariant
            i <= segments@.len(),
            segments@.len() <= limits.max_trajectory_segments,
            forall|j: int| 0 <= j < i ==> seg_canonical(#[trigger] segments@[j]),
        decreases segments.len() - i,
    {
        if segments[i].check().is_err() {
            assert(!seg_canonical(segments@[i as int]));
            return Err(VoleError::NonCanonicalEncoding);
        }
        i = i + 1;
    }
    let mut i = 0usize;
    while i < segments.len()
        invariant
            i <= segments@.len(),
            segments@.len() <= limits.max_trajectory_segments,
            forall|j: int| 0 <= j < segments@.len() ==> seg_canonical(#[trigger] segments@[j]),
            forall|j: int|
                0 <= j < i && j < segments@.len() - 1 ==> !#[trigger] mergeable(
                    segments@[j],
                    segments@[j + 1],
                ),
        decreases segments.len() - i,
    {
        if i + 1 < segments.len() {
            let same = match (segments[i], segments[i + 1]) {
                (
                    TrajectorySegment::Linear { vx: a, vy: b, .. },
                    TrajectorySegment::Linear { vx: c, vy: d, .. },
                ) => a == c && b == d,
                _ => false,
            };
            if same {
                assert(mergeable(segments@[i as int], segments@[i + 1]));
                return Err(VoleError::NonCanonicalEncoding);
            }
        }
        i = i + 1;
    }
    Ok(())
}

/// Total wire bytes of a segment list.
pub open spec fn segs_wire_sum(segs: Seq<TrajectorySegment>) -> nat
    decreases segs.len(),
{
    if segs.len() == 0 {
        0
    } else {
        segs_wire_sum(segs.drop_last()) + if segs.last() is Linear {
            17nat
        } else {
            25nat
        }
    }
}

/// Serialized byte length of one `SetTrajectory` payload:
/// `tag(1) + iid(4) + count(4) + Σ segments`.
pub fn program_wire_bytes(segments: &[TrajectorySegment]) -> (r: u64)
    requires
        segments@.len() <= 0xffff_ffff,
    ensures
        r == 9 + segs_wire_sum(segments@),
{
    let mut total: u64 = 9;
    let mut i = 0usize;
    while i < segments.len()
        invariant
            i <= segments@.len(),
            segments@.len() <= 0xffff_ffff,
            total == 9 + segs_wire_sum(segments@.take(i as int)),
            total <= 9 + 25 * i,
        decreases segments.len() - i,
    {
        proof {
            assert(segments@.take(i + 1).drop_last() =~= segments@.take(i as int));
        }
        total = total + segments[i].wire_bytes();
        i = i + 1;
    }
    proof {
        assert(segments@.take(segments@.len() as int) =~= segments@);
    }
    total
}

/// A `u64` times an `i64` always fits `i128`.
proof fn lemma_i128_product(n: u64, v: i64)
    ensures
        fits128((n as int) * (v as int)),
{
    assert(-0x7fff_ffff_ffff_ffff_8000_0000_0000_0000 <= (n as int) * (v as int)
        <= 0x7fff_ffff_ffff_fffe_8000_0000_0000_0001) by (nonlinear_arith)
        requires
            0 <= n <= 0xffff_ffff_ffff_ffff,
            -0x8000_0000_0000_0000 <= v <= 0x7fff_ffff_ffff_ffff,
    ;
}

/// One axis of the checked `i128` accel closed form.
fn accel_axis_exec(n: u64, v0: i64, a: i64) -> (r: Option<i128>)
    requires
        n >= 1,
    ensures
        match r {
            Some(v) => accel_axis(n as nat, v0, a) == Some(v as int),
            None => accel_axis(n as nat, v0, a) is None,
        },
{
    proof {
        assert((n as int) * ((n - 1) as int) <= 0xffff_ffff_ffff_fffe_0000_0000_0000_0002) by (nonlinear_arith)
            requires
                1 <= n <= 0xffff_ffff_ffff_ffff,
        ;
        assert(-0x7fff_ffff_ffff_ffff_8000_0000_0000_0000 <= (n as int) * (v0 as int)
            <= 0x7fff_ffff_ffff_fffe_8000_0000_0000_0001) by (nonlinear_arith)
            requires
                1 <= n <= 0xffff_ffff_ffff_ffff,
                -0x8000_0000_0000_0000 <= v0 <= 0x7fff_ffff_ffff_ffff,
        ;
    }
    let t = (n as u128) * ((n - 1) as u128) / 2;
    proof {
        lemma_div_is_ordered(((n as int) * ((n - 1) as int)) as int, 0xffff_ffff_ffff_fffe_0000_0000_0000_0002, 2);
    }
    let tt = t as i128;
    let nn = n as i128;
    let p1 = nn * (v0 as i128);
    let p2 = match tt.checked_mul(a as i128) {
        Some(v) => v,
        None => return None,
    };
    p1.checked_add(p2)
}

/// Exact displacement of one segment over exactly `n` advances, `None` on
/// overflow.
pub fn segment_delta(seg: &TrajectorySegment, n: u64) -> (r: Option<(i64, i64)>)
    ensures
        r == seg_delta(*seg, n as nat),
{
    if n == 0 {
        return Some((0, 0));
    }
    match seg {
        TrajectorySegment::Linear { vx, vy, .. } => {
            let x = (n as i128).checked_mul(*vx as i128);
            let y = (n as i128).checked_mul(*vy as i128);
            match (x, y) {
                (Some(x), Some(y)) => {
                    if x < i64::MIN as i128 || x > i64::MAX as i128 || y < i64::MIN as i128 || y
                        > i64::MAX as i128 {
                        None
                    } else {
                        Some((x as i64, y as i64))
                    }
                },
                _ => {
                    proof {
                        lemma_i128_product(n, *vx);
                        lemma_i128_product(n, *vy);
                    }
                    None
                },
            }
        },
        TrajectorySegment::Accel { vx0, vy0, ax, ay, .. } => {
            let x = accel_axis_exec(n, *vx0, *ax);
            let y = accel_axis_exec(n, *vy0, *ay);
            match (x, y) {
                (Some(x), Some(y)) => {
                    if x < i64::MIN as i128 || x > i64::MAX as i128 || y < i64::MIN as i128 || y
                        > i64::MAX as i128 {
                        None
                    } else {
                        Some((x as i64, y as i64))
                    }
                },
                _ => None,
            }
        },
    }
}

/// Position after running `left` advances of `segs[i..]` from `(x, y)`, with
/// every accumulation checked; `None` when the program ends first or an
/// accumulation overflows.
pub open spec fn pos_from(segs: Seq<TrajectorySegment>, i: int, x: i64, y: i64, left: u64) -> Option<
    (i64, i64),
>
    decreases segs.len() - i,
{
    if i < 0 || i >= segs.len() {
        None
    } else {
        let st = seg_steps(segs[i]);
        let n = if left < st {
            left
        } else {
            st
        };
        match seg_delta(segs[i], n as nat) {
            None => None,
            Some((dx, dy)) => if fits64(x + dx) && fits64(y + dy) {
                if left - n == 0 {
                    Some(((x + dx) as i64, (y + dy) as i64))
                } else {
                    pos_from(segs, i + 1, (x + dx) as i64, (y + dy) as i64, (left - n) as u64)
                }
            } else {
                None
            },
        }
    }
}

/// Exact position of an instance that starts at `(x0, y0)` and runs `steps`
/// advances of `segments` (closed form per segment). `None` when the program
/// is shorter than `steps` or an accumulation overflows.
pub fn position_after(segments: &[TrajectorySegment], x0: i64, y0: i64, steps: u64) -> (r: Option<
    (i64, i64),
>)
    ensures
        r == pos_from(segments@, 0, x0, y0, steps),
{
    let mut x = x0;
    let mut y = y0;
    let mut left = steps;
    let mut i = 0usize;
    while i < segments.len()
        invariant
            i <= segments@.len(),
            pos_from(segments@, 0, x0, y0, steps) == pos_from(segments@, i as int, x, y, left),
        decreases segments.len() - i,
    {
        let st = segments[i].steps();
        let n = if left < st {
            left
        } else {
            st
        };
        let (dx, dy) = match segment_delta(&segments[i], n) {
            Some(d) => d,
            None => return None,
        };
        x = match x.checked_add(dx) {
            Some(v) => v,
            None => return None,
        };
        y = match y.checked_add(dy) {
            Some(v) => v,
            None => return None,
        };
        left = left - n;
        if left == 0 {
            return Some((x, y));
        }
        i = i + 1;
    }
    None
}

/// The full position sequence `(p_0 … p_steps)` an instance starting at
/// `(x0, y0)` visits under `segments`; `None` when any position is
/// undefined.
pub fn simulate_positions(segments: &[TrajectorySegment], x0: i64, y0: i64, steps: u64) -> (r:
    Option<Vec<(i64, i64)>>)
    ensures
        match r {
            Some(v) => v@.len() == steps + 1 && forall|k: int|
                0 <= k <= steps ==> pos_from(segments@, 0, x0, y0, k as u64) == Some(
                    #[trigger] v@[k],
                ),
            None => exists|k: int|
                0 <= k <= steps && #[trigger] pos_from(segments@, 0, x0, y0, k as u64) is None,
        },
{
    let mut out: Vec<(i64, i64)> = Vec::new();
    let mut k: u64 = 0;
    loop
        invariant
            k <= steps,
            out@.len() == k,
            forall|j: int|
                0 <= j < k ==> pos_from(segments@, 0, x0, y0, j as u64) == Some(#[trigger] out@[j]),
        decreases steps - k,
    {
        match position_after(segments, x0, y0, k) {
            Some(p) => out.push(p),
            None => {
                assert(pos_from(segments@, 0, x0, y0, ((k as int) as u64)) is None);
                return None;
            },
        }
        if k == steps {
            return Some(out);
        }
        k = k + 1;
    }
}

fn coord_ok(v: i64) -> (r: bool)
    ensures
        r == coord_in(v),
{
    -MAX_COORD <= v && v <= MAX_COORD
}

fn sub_pair(a: (i64, i64), b: (i64, i64)) -> (r: Option<(i64, i64)>)
    ensures
        r == if fits64(a.0 - b.0) && fits64(a.1 - b.1) {
            Some(((a.0 - b.0) as i64, (a.1 - b.1) as i64))
        } else {
            None::<(i64, i64)>
        },
{
    let x = match a.0.checked_sub(b.0) {
        Some(v) => v,
        None => return None,
    };
    let y = match a.1.checked_sub(b.1) {
        Some(v) => v,
        None => return None,
    };
    Some((x, y))
}

/// Whether position `k` equals `p0 + k·v`, with the checked products the
/// fit evaluates.
pub open spec fn line_ok_at(positions: Seq<(i64, i64)>, v: (i64, i64), k: int) -> bool {
    &&& k <= i64::MAX
    &&& fits64(v.0 * k) && fits64(v.1 * k)
    &&& fits64(positions[0].0 + v.0 * k) && fits64(positions[0].1 + v.1 * k)
    &&& positions[k].0 == positions[0].0 + v.0 * k
    &&& positions[k].1 == positions[0].1 + v.1 * k
}

/// Whether every position lies on the line `p0 + k·v`.
pub open spec fn on_line(positions: Seq<(i64, i64)>, v: (i64, i64)) -> bool {
    forall|k: int| 0 <= k < positions.len() ==> #[trigger] line_ok_at(positions, v, k)
}

/// Exact constant-velocity fit of a position sequence of at least two
/// points: a `Linear` segment of `len − 1` steps reproducing every position,
/// or `None` when the sequence is not linear or its velocity is not
/// wire-encodable.
pub fn fit_linear(positions: &[(i64, i64)]) -> (r: Option<TrajectorySegment>)
    ensures
        match r {
            Some(seg) => positions@.len() >= 2 && seg == (TrajectorySegment::Linear {
                vx: (positions@[1].0 - positions@[0].0) as i64,
                vy: (positions@[1].1 - positions@[0].1) as i64,
                steps: (positions@.len() - 1) as u64,
            }) && coord_in(seg->vx) && coord_in(seg->vy) && on_line(
                positions@,
                (seg->vx, seg->vy),
            ),
            None => positions@.len() < 2 || !fits64(positions@[1].0 - positions@[0].0)
                || !fits64(positions@[1].1 - positions@[0].1) || !coord_in(
                (positions@[1].0 - positions@[0].0) as i64,
            ) || !coord_in((positions@[1].1 - positions@[0].1) as i64) || !on_line(
                positions@,
                (
                    (positions@[1].0 - positions@[0].0) as i64,
                    (positions@[1].1 - positions@[0].1) as i64,
                ),
            ),
        },
{
    if positions.len() < 2 {
        return None;
    }
    let steps = positions.len() - 1;
    let (vx, vy) = match sub_pair(positions[1], positions[0]) {
        Some(v) => v,
        None => return None,
    };
    if !coord_ok(vx) || !coord_ok(vy) {
        return None;
    }
    let p0 = positions[0];
    let mut k = 0usize;
    while k <= steps
        invariant
            steps == positions@.len() - 1,
            positions@.len() >= 2,
            p0 == positions@[0],
            fits64(positions@[1].0 - positions@[0].0),
            fits64(positions@[1].1 - positions@[0].1),
            vx == positions@[1].0 - positions@[0].0,
            vy == positions@[1].1 - positions@[0].1,
            coord_in(vx) && coord_in(vy),
            k <= steps + 1,
            forall|j: int| 0 <= j < k ==> #[trigger] line_ok_at(positions@, (vx, vy), j),
        decreases steps + 1 - k,
    {
        if (k as u64) > (i64::MAX as u64) {
            assert(!line_ok_at(positions@, (vx, vy), k as int));
            return None;
        }
        let kk = k as i64;
        let mx = match vx.checked_mul(kk) {
            Some(v) => v,
            None => {
                assert(!line_ok_at(positions@, (vx, vy), k as int));
                return None;
            },
        };
        let my = match vy.checked_mul(kk) {
            Some(v) => v,
            None => {
                assert(!line_ok_at(positions@, (vx, vy), k as int));
                return None;
            },
        };
        let ex = match p0.0.checked_add(mx) {
            Some(v) => v,
            None => {
                assert(!line_ok_at(positions@, (vx, vy), k as int));
                return None;
            },
        };
        let ey = match p0.1.checked_add(my) {
            Some(v) => v,
            None => {
                assert(!line_ok_at(positions@, (vx, vy), k as int));
                return None;
            },
        };
        let p = positions[k];
        if p.0 != ex || p.1 != ey {
            assert(!line_ok_at(positions@, (vx, vy), k as int));
            return None;
        }
        k = k + 1;
    }
    Some(TrajectorySegment::Linear { vx, vy, steps: steps as u64 })
}

/// A linear fit reproduces every fitted position exactly.
pub proof fn law_fit_linear_exact(positions: Seq<(i64, i64)>, seg: TrajectorySegment, k: int)
    requires
        2 <= positions.len() <= u64::MAX,
        seg == (TrajectorySegment::Linear {
            vx: (positions[1].0 - positions[0].0) as i64,
            vy: (positions[1].1 - positions[0].1) as i64,
            steps: (positions.len() - 1) as u64,
        }),
        on_line(positions, (seg->vx, seg->vy)),
        0 <= k < positions.len(),
    ensures
        pos_from(seq![seg], 0, positions[0].0, positions[0].1, k as u64) == Some(positions[k]),
{
    assert(line_ok_at(positions, (seg->vx, seg->vy), k));
    lemma_mul_is_commutative(seg->vx as int, k);
    lemma_mul_is_commutative(seg->vy as int, k);
    let segs = seq![seg];
    assert(segs[0] == seg);
    assert(seg_steps(seg) >= k);
    if k == 0 {
        assert(seg_delta(seg, 0) == Some((0i64, 0i64)));
        assert(positions[0] == (positions[0].0, positions[0].1));
    } else {
        assert(seg_delta(seg, k as nat) == Some(((k * seg->vx) as i64, (k * seg->vy) as i64)));
    }
    assert(positions[k] == (positions[k].0, positions[k].1));
}

/// Whether the step `k → k+1` follows the constant-acceleration recurrence
/// `p[k+1] = p[k] + v0 + k·a`, with the checked arithmetic the fit uses.
pub open spec fn accel_ok_at(positions: Seq<(i64, i64)>, v0: (i64, i64), a: (i64, i64), k: int) -> bool {
    &&& k <= i64::MAX
    &&& fits64(a.0 * k) && fits64(a.1 * k)
    &&& fits64(v0.0 + a.0 * k) && fits64(v0.1 + a.1 * k)
    &&& fits64(positions[k].0 + v0.0 + a.0 * k) && fits64(positions[k].1 + v0.1 + a.1 * k)
    &&& positions[k + 1].0 == positions[k].0 + v0.0 + a.0 * k
    &&& positions[k + 1].1 == positions[k].1 + v0.1 + a.1 * k
}

/// The first difference `p[1] − p[0]` and second difference of a sequence
/// of at least three points, when they fit.
pub open spec fn accel_params(positions: Seq<(i64, i64)>) -> Option<((i64, i64), (i64, i64))> {
    let d0x = positions[1].0 - positions[0].0;
    let d0y = positions[1].1 - positions[0].1;
    let d1x = positions[2].0 - positions[1].0;
    let d1y = positions[2].1 - positions[1].1;
    if fits64(d0x) && fits64(d0y) && fits64(d1x) && fits64(d1y) && fits64(d1x - d0x) && fits64(
        d1y - d0y,
    ) {
        Some(((d0x as i64, d0y as i64), ((d1x - d0x) as i64, (d1y - d0y) as i64)))
    } else {
        None
    }
}

/// Exact constant-acceleration fit of at least three positions: the first
/// differences must form an arithmetic progression with a nonzero common
/// difference, and every literal must be wire-encodable.
pub fn fit_accel(positions: &[(i64, i64)]) -> (r: Option<TrajectorySegment>)
    ensures
        match r {
            Some(seg) => positions@.len() >= 3 && (accel_params(positions@) matches Some((v0, a))
                && seg == (TrajectorySegment::Accel {
                vx0: v0.0,
                vy0: v0.1,
                ax: a.0,
                ay: a.1,
                steps: (positions@.len() - 1) as u64,
            }) && !(a.0 == 0 && a.1 == 0) && coord_in(v0.0) && coord_in(v0.1) && coord_in(a.0)
                && coord_in(a.1) && forall|k: int|
                0 <= k < positions@.len() - 1 ==> #[trigger] accel_ok_at(positions@, v0, a, k)),
            None => positions@.len() < 3 || accel_params(positions@) is None || (accel_params(
                positions@,
            ) matches Some((v0, a)) && ((a.0 == 0 && a.1 == 0) || !coord_in(v0.0) || !coord_in(
                v0.1,
            ) || !coord_in(a.0) || !coord_in(a.1) || exists|k: int|
                0 <= k < positions@.len() - 1 && !#[trigger] accel_ok_at(positions@, v0, a, k))),
        },
{
    if positions.len() < 3 {
        return None;
    }
    let steps = positions.len() - 1;
    let d0 = match sub_pair(positions[1], positions[0]) {
        Some(d) => d,
        None => return None,
    };
    let d1 = match sub_pair(positions[2], positions[1]) {
        Some(d) => d,
        None => return None,
    };
    let ax = match d1.0.checked_sub(d0.0) {
        Some(v) => v,
        None => return None,
    };
    let ay = match d1.1.checked_sub(d0.1) {
        Some(v) => v,
        None => return None,
    };
    if ax == 0 && ay == 0 {
        return None;
    }
    if !coord_ok(d0.0) || !coord_ok(d0.1) || !coord_ok(ax) || !coord_ok(ay) {
        return None;
    }
    let ghost v0 = d0;
    let ghost a = (ax, ay);
    let mut k = 0usize;
    while k < steps
        invariant
            steps == positions@.len() - 1,
            positions@.len() >= 3,
            accel_params(positions@) == Some((v0, a)),
            v0 == d0,
            a == (ax, ay),
            k <= steps,
            forall|j: int| 0 <= j < k ==> #[trigger] accel_ok_at(positions@, v0, a, j),
        decreases steps - k,
    {
        if (k as u64) > (i64::MAX as u64) {
            assert(!accel_ok_at(positions@, v0, a, k as int));
            return None;
        }
        let kk = k as i64;
        let mx = match ax.checked_mul(kk) {
            Some(v) => v,
            None => {
                assert(!accel_ok_at(positions@, v0, a, k as int));
                return None;
            },
        };
        let my = match ay.checked_mul(kk) {
            Some(v) => v,
            None => {
                assert(!accel_ok_at(positions@, v0, a, k as int));
                return None;
            },
        };
        let vx = match d0.0.checked_add(mx) {
            Some(v) => v,
            None => {
                assert(!accel_ok_at(positions@, v0, a, k as int));
                return None;
            },
        };
        let vy = match d0.1.checked_add(my) {
            Some(v) => v,
            None => {
                assert(!accel_ok_at(positions@, v0, a, k as int));
                return None;
            },
        };
        let pk = positions[k];
        let ex = match pk.0.checked_add(vx) {
            Some(v) => v,
            None => {
                assert(!accel_ok_at(positions@, v0, a, k as int));
                return None;
            },
        };
        let ey = match pk.1.checked_add(vy) {
            Some(v) => v,
            None => {
                assert(!accel_ok_at(positions@, v0, a, k as int));
                return None;
            },
        };
        let next = positions[k + 1];
        if next.0 != ex || next.1 != ey {
            assert(!accel_ok_at(positions@, v0, a, k as int));
            return None;
        }
        k = k + 1;
    }
    Some(TrajectorySegment::Accel { vx0: d0.0, vy0: d0.1, ax, ay, steps: steps as u64 })
}

/// The step deltas `p[k+1] − p[k]` of a sequence, each checked and
/// wire-encodable; `None` when any is not.
pub open spec fn step_deltas(positions: Seq<(i64, i64)>) -> Option<Seq<(i64, i64)>>
    decreases positions.len(),
{
    if positions.len() <= 1 {
        Some(seq![])
    } else {
        let n = positions.len() - 1;
        match step_deltas(positions.drop_last()) {
            None => None,
            Some(d) => {
                let dx = positions[n].0 - positions[n - 1].0;
                let dy = positions[n].1 - positions[n - 1].1;
                if fits64(dx) && fits64(dy) && coord_in(dx as i64) && coord_in(dy as i64) {
                    Some(d.push((dx as i64, dy as i64)))
                } else {
                    None
                }
            },
        }
    }
}

/// End of the maximal run of equal deltas starting at `i`.
pub open spec fn run_end(d: Seq<(i64, i64)>, i: int, j: int) -> int
    decreases d.len() - j,
{
    if j >= d.len() || j < 0 || d[j] != d[i] {
        j
    } else {
        run_end(d, i, j + 1)
    }
}

/// The maximal runs of equal deltas from `i` on, as `Linear` segments.
pub open spec fn runs_from(d: Seq<(i64, i64)>, i: int) -> Seq<TrajectorySegment>
    decreases d.len() - i,
{
    if i < 0 || i >= d.len() {
        seq![]
    } else {
        let j = run_end(d, i, i + 1);
        if j <= i || j > d.len() {
            seq![]
        } else {
            seq![TrajectorySegment::Linear { vx: d[i].0, vy: d[i].1, steps: (j - i) as u64 }]
                + runs_from(d, j)
        }
    }
}

/// `run_end` moves strictly forward.
proof fn lemma_run_end_bounds(d: Seq<(i64, i64)>, i: int, j: int)
    requires
        0 <= i < j <= d.len(),
    ensures
        j <= run_end(d, i, j) <= d.len(),
        forall|k: int| j <= k < run_end(d, i, j) ==> d[k] == d[i],
        run_end(d, i, j) < d.len() ==> d[run_end(d, i, j)] != d[i],
    decreases d.len() - j,
{
    if j < d.len() && d[j] == d[i] {
        lemma_run_end_bounds(d, i, j + 1);
    }
}

/// Exact piecewise-linear fit: maximal runs of identical step deltas become
/// `Linear` segments. `None` when fewer than two segments are needed, a
/// delta overflows, or a run velocity is not wire-encodable.
pub fn fit_piecewise(positions: &[(i64, i64)]) -> (r: Option<Vec<TrajectorySegment>>)
    ensures
        match r {
            Some(v) => positions@.len() >= 2 && (step_deltas(positions@) matches Some(d) && v@
                == runs_from(d, 0) && v@.len() >= 2),
            None => positions@.len() < 2 || step_deltas(positions@) is None || (step_deltas(
                positions@,
            ) matches Some(d) && runs_from(d, 0).len() < 2),
        },
{
    if positions.len() < 2 {
        return None;
    }
    let steps = positions.len() - 1;
    let mut deltas: Vec<(i64, i64)> = Vec::new();
    let mut k = 0usize;
    while k < steps
        invariant
            steps == positions@.len() - 1,
            k <= steps,
            step_deltas(positions@.take(k + 1)) == Some(deltas@),
        decreases steps - k,
    {
        proof {
            assert(positions@.take(k + 2).drop_last() =~= positions@.take(k + 1));
        }
        let d = match sub_pair(positions[k + 1], positions[k]) {
            Some(d) => d,
            None => {
                proof {
                    lemma_step_deltas_prefix(positions@, k + 2);
                }
                return None;
            },
        };
        if !coord_ok(d.0) || !coord_ok(d.1) {
            proof {
                lemma_step_deltas_prefix(positions@, k + 2);
            }
            return None;
        }
        deltas.push(d);
        k = k + 1;
    }
    proof {
        assert(positions@.take(positions@.len() as int) =~= positions@);
        lemma_step_deltas_len(positions@);
    }
    let mut out: Vec<TrajectorySegment> = Vec::new();
    let mut i = 0usize;
    while i < steps
        invariant
            steps == deltas@.len(),
            i <= steps,
            runs_from(deltas@, 0) == out@ + runs_from(deltas@, i as int),
        decreases steps - i,
    {
        let (vx, vy) = deltas[i];
        let mut j = i + 1;
        while j < steps && deltas[j].0 == vx && deltas[j].1 == vy
            invariant
                steps == deltas@.len(),
                i < j <= steps,
                (vx, vy) == deltas@[i as int],
                run_end(deltas@, i as int, j as int) == run_end(deltas@, i as int, i + 1),
            decreases steps - j,
        {
            j = j + 1;
        }
        proof {
            lemma_run_end_bounds(deltas@, i as int, i + 1);
            assert(run_end(deltas@, i as int, j as int) == j);
            let seg = TrajectorySegment::Linear { vx, vy, steps: (j - i) as u64 };
            assert(runs_from(deltas@, i as int) == seq![seg] + runs_from(deltas@, j as int));
            assert(out@.push(seg) + runs_from(deltas@, j as int) =~= out@ + (seq![seg] + runs_from(deltas@, j as int)));
        }
        out.push(TrajectorySegment::Linear { vx, vy, steps: (j - i) as u64 });
        i = j;
    }
    proof {
        assert(out@ + runs_from(deltas@, steps as int) =~= out@);
    }
    if out.len() < 2 {
        return None;
    }
    Some(out)
}

/// A delta sequence has one entry per step.
proof fn lemma_step_deltas_len(p: Seq<(i64, i64)>)
    requires
        p.len() >= 1,
        step_deltas(p) is Some,
    ensures
        step_deltas(p)->Some_0.len() == p.len() - 1,
    decreases p.len(),
{
    if p.len() > 1 {
        lemma_step_deltas_len(p.drop_last());
    }
}

/// A failing delta at a prefix fails the whole sequence.
proof fn lemma_step_deltas_prefix(p: Seq<(i64, i64)>, k: int)
    requires
        1 <= k <= p.len(),
        step_deltas(p.take(k)) is None,
    ensures
        step_deltas(p) is None,
    decreases p.len() - k,
{
    if k < p.len() {
        assert(p.take(k + 1).drop_last() =~= p.take(k));
        lemma_step_deltas_prefix(p, k + 1);
    } else {
        assert(p.take(k) =~= p);
    }
}

/// Each delta is the difference of consecutive positions.
proof fn lemma_step_deltas_at(p: Seq<(i64, i64)>, m: int)
    requires
        p.len() >= 1,
        step_deltas(p) is Some,
        0 <= m < p.len() - 1,
    ensures
        step_deltas(p)->Some_0[m].0 == p[m + 1].0 - p[m].0,
        step_deltas(p)->Some_0[m].1 == p[m + 1].1 - p[m].1,
    decreases p.len(),
{
    lemma_step_deltas_len(p);
    if m < p.len() - 2 {
        lemma_step_deltas_at(p.drop_last(), m);
        lemma_step_deltas_len(p.drop_last());
    }
}

/// Positions advanced by `k` equal deltas `v` move by `k · v`.
proof fn lemma_equal_deltas(p: Seq<(i64, i64)>, d: Seq<(i64, i64)>, i: int, k: int, v: (i64, i64))
    requires
        d.len() == p.len() - 1,
        forall|m: int| 0 <= m < d.len() ==> #[trigger] d[m].0 == p[m + 1].0 - p[m].0 && d[m].1 == p[m + 1].1 - p[m].1,
        0 <= i,
        0 <= k,
        i + k <= d.len(),
        forall|m: int| i <= m < i + k ==> #[trigger] d[m] == v,
    ensures
        p[i + k].0 == p[i].0 + k * v.0,
        p[i + k].1 == p[i].1 + k * v.1,
    decreases k,
{
    if k > 0 {
        lemma_equal_deltas(p, d, i, k - 1, v);
        assert(d[i + k - 1] == v);
        assert(k * v.0 == (k - 1) * v.0 + v.0) by (nonlinear_arith);
        assert(k * v.1 == (k - 1) * v.1 + v.1) by (nonlinear_arith);
    }
}

/// Positions past a prefix of segments are positions of the rest.
proof fn lemma_pos_from_shift(a: TrajectorySegment, rest: Seq<TrajectorySegment>, i: int, x: i64, y: i64, left: u64)
    requires
        0 <= i,
    ensures
        pos_from(seq![a] + rest, i + 1, x, y, left) == pos_from(rest, i, x, y, left),
    decreases rest.len() - i,
{
    let s = seq![a] + rest;
    if i < rest.len() {
        assert(s[i + 1] == rest[i]);
        let st = seg_steps(rest[i]);
        let n = if left < st {
            left
        } else {
            st
        };
        match seg_delta(rest[i], n as nat) {
            None => {},
            Some((dx, dy)) => {
                if fits64(x + dx) && fits64(y + dy) && left - n != 0 {
                    lemma_pos_from_shift(a, rest, i + 1, (x + dx) as i64, (y + dy) as i64, (left - n) as u64);
                }
            },
        }
    }
}

/// The runs of a delta sequence replay the positions it came from, from
/// run start `i` on.
proof fn lemma_runs_replay(p: Seq<(i64, i64)>, d: Seq<(i64, i64)>, i: int, k: int)
    requires
        d.len() == p.len() - 1,
        p.len() < 0x80_0000_0000,
        forall|m: int| 0 <= m < d.len() ==> #[trigger] d[m].0 == p[m + 1].0 - p[m].0 && d[m].1 == p[m + 1].1 - p[m].1,
        forall|m: int| 0 <= m < d.len() ==> coord_in(#[trigger] d[m].0) && coord_in(d[m].1),
        0 <= i < d.len(),
        1 <= k <= d.len() - i,
    ensures
        pos_from(runs_from(d, i), 0, p[i].0, p[i].1, k as u64) == Some(p[i + k]),
    decreases d.len() - i,
{
    let j = run_end(d, i, i + 1);
    lemma_run_end_bounds(d, i, i + 1);
    let v = d[i];
    let seg = TrajectorySegment::Linear { vx: v.0, vy: v.1, steps: (j - i) as u64 };
    let rest = runs_from(d, j);
    assert(runs_from(d, i) == seq![seg] + rest);
    let segs = seq![seg] + rest;
    assert(segs[0] == seg);
    let n: int = if k < j - i {
        k
    } else {
        j - i
    };
    assert forall|m: int| i <= m < i + n implies #[trigger] d[m] == v by {}
    lemma_equal_deltas(p, d, i, n, v);
    assert(-0x8000_0000_0000_0000 < n * v.0 < 0x8000_0000_0000_0000) by (nonlinear_arith)
        requires
            0 < n < 0x80_0000_0000,
            -0x100_0000 <= v.0 <= 0x100_0000,
    ;
    assert(-0x8000_0000_0000_0000 < n * v.1 < 0x8000_0000_0000_0000) by (nonlinear_arith)
        requires
            0 < n < 0x80_0000_0000,
            -0x100_0000 <= v.1 <= 0x100_0000,
    ;
    assert(seg_delta(seg, n as nat) == Some(((n * v.0) as i64, (n * v.1) as i64)));
    if k > j - i {
        lemma_runs_replay(p, d, j, k - (j - i));
        lemma_pos_from_shift(seg, rest, 0, p[j].0, p[j].1, (k - (j - i)) as u64);
        assert(p[i + k] == p[j + (k - (j - i))]);
    } else {
        assert(p[i + k].0 == p[i].0 + n * v.0);
        assert(p[i + k] == ((p[i].0 + n * v.0) as i64, (p[i].1 + n * v.1) as i64));
    }
}

/// The piecewise fit replays its input exactly: from the first position,
/// the runs of its step deltas visit every later position in order.
/// (The bound on the length keeps every run's displacement inside `i64`.)
pub proof fn law_piecewise_replays(positions: Seq<(i64, i64)>, k: int)
    requires
        2 <= positions.len() < 0x80_0000_0000,
        step_deltas(positions) is Some,
        1 <= k < positions.len(),
    ensures
        pos_from(runs_from(step_deltas(positions)->Some_0, 0), 0, positions[0].0, positions[0].1, k as u64) == Some(
            positions[k],
        ),
{
    let d = step_deltas(positions)->Some_0;
    lemma_step_deltas_len(positions);
    assert forall|m: int| 0 <= m < d.len() implies #[trigger] d[m].0 == positions[m + 1].0 - positions[m].0 && d[m].1
        == positions[m + 1].1 - positions[m].1 by {
        lemma_step_deltas_at(positions, m);
    }
    assert forall|m: int| 0 <= m < d.len() implies coord_in(#[trigger] d[m].0) && coord_in(d[m].1) by {
        lemma_step_deltas_coord(positions, m);
    }
    lemma_runs_replay(positions, d, 0, k);
}

/// Every delta is wire-encodable.
proof fn lemma_step_deltas_coord(p: Seq<(i64, i64)>, m: int)
    requires
        p.len() >= 1,
        step_deltas(p) is Some,
        0 <= m < p.len() - 1,
    ensures
        coord_in(step_deltas(p)->Some_0[m].0) && coord_in(step_deltas(p)->Some_0[m].1),
    decreases p.len(),
{
    lemma_step_deltas_len(p);
    if m < p.len() - 2 {
        lemma_step_deltas_coord(p.drop_last(), m);
        lemma_step_deltas_len(p.drop_last());
    }
}

} // verus!
