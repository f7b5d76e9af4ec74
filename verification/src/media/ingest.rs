//! Exact raster-origin ingest floor.
//!
//! [`encode_pictures_exact`] turns an observed sequence of canonical
//! pictures of one epoch into a [`MultiPlaneProgram`] that reproduces every
//! observation exactly, plane by plane: frame 0 is the background (uniform
//! plane) or a whole-plane raster object; each later observation is an
//! empty interval group when unchanged against the committed state, else
//! the cheaper exact description — a sorted sparse residual over the state
//! rendering, or a full content replacement (a state sync). The encoder
//! proves its output: every observation is re-materialized and compared
//! sample for sample before the program is returned.

use vstd::prelude::*;

use crate::error::VoleError;
use crate::media::epoch::{observation_fits, VideoEpoch};
use crate::media::picture::Picture;
use crate::media::plane::{BitDepth, Plane, PlaneData};
use crate::media::procedural::{
    encode_plane_residual, last_interval, lemma_observation_len, max_last, observation_samples, plane_samples,
    MultiPlaneProgram, PlaneInstance, PlaneInstanceId, PlaneObject, PlaneObjectId, PlaneOp, PlaneProgram,
};

verus! {

/// The deterministic 64-bit mixer of the authored ramps.
pub open spec fn mix_spec(x: u64) -> u64 {
    let z = x.wrapping_add(0x9E37_79B9_7F4A_7C15);
    let z = (z ^ (z >> 30u64)).wrapping_mul(0xBF58_476D_1CE4_E5B9);
    let z = (z ^ (z >> 27u64)).wrapping_mul(0x94D0_49BB_1331_11EB);
    z ^ (z >> 31u64)
}

/// Deterministic hash (authoring helper).
fn mix(x: u64) -> (r: u64)
    ensures
        r == mix_spec(x),
{
    let mut z = x.wrapping_add(0x9E37_79B9_7F4A_7C15);
    z = (z ^ (z >> 30u64)).wrapping_mul(0xBF58_476D_1CE4_E5B9);
    z = (z ^ (z >> 27u64)).wrapping_mul(0x94D0_49BB_1331_11EB);
    z ^ (z >> 31u64)
}

/// `a × b`, saturating at `u64::MAX`.
fn sat_mul(a: u64, b: u64) -> (r: u64)
    ensures
        r == if a * b > u64::MAX { u64::MAX as int } else { a * b },
{
    match a.checked_mul(b) {
        Some(v) => v,
        None => u64::MAX,
    }
}

/// `a + b`, saturating at `u64::MAX`.
fn sat_add(a: u64, b: u64) -> (r: u64)
    ensures
        r == if a + b > u64::MAX { u64::MAX as int } else { a + b },
{
    match a.checked_add(b) {
        Some(v) => v,
        None => u64::MAX,
    }
}

/// The samples of every plane of a picture, in plane order.
pub open spec fn picture_samples(p: Picture) -> Seq<Seq<u32>> {
    Seq::new(p.pls().len(), |j: int| p.pls()[j].samples())
}

/// Whether two planes hold the same samples.
fn same_samples(a: &Plane, b: &Plane) -> (r: bool)
    ensures
        r == (a.samples() == b.samples()),
{
    let x = plane_samples(a);
    let y = plane_samples(b);
    if x.len() != y.len() {
        proof {
            assert(x@.len() != y@.len());
        }
        return false;
    }
    let mut i = 0usize;
    while i < x.len()
        invariant
            i <= x@.len() == y@.len(),
            x@ == a.samples(),
            y@ == b.samples(),
            forall|k: int| 0 <= k < i ==> x@[k] == y@[k],
        decreases x@.len() - i,
    {
        if x[i] != y[i] {
            proof {
                assert(x@[i as int] != y@[i as int]);
                assert(a.samples()[i as int] != b.samples()[i as int]);
            }
            return false;
        }
        i = i + 1;
    }
    proof {
        assert(x@ =~= y@);
    }
    true
}

/// The uniform value of a plane, if every sample equals the first.
fn uniform_value(p: &Plane) -> (r: Option<u32>)
    ensures
        r matches Some(v) ==> forall|k: int| 0 <= k < p.samples().len() ==> #[trigger] p.samples()[k] == v,
{
    let s = plane_samples(p);
    if s.len() == 0 {
        return None;
    }
    let v0 = s[0];
    let mut i = 0usize;
    while i < s.len()
        invariant
            i <= s@.len(),
            forall|k: int| 0 <= k < i ==> #[trigger] s@[k] == v0,
        decreases s@.len() - i,
    {
        if s[i] != v0 {
            return None;
        }
        i = i + 1;
    }
    Some(v0)
}

/// Frame 0 of every plane: the background (the first sample), plus a
/// whole-plane raster object instantiated at the origin unless the plane is
/// uniform. Returns the programs and the committed state samples.
fn initial_programs(epoch: &VideoEpoch, first: &Picture) -> (r: Result<(Vec<PlaneProgram>, Vec<Vec<u32>>), VoleError>)
    ensures
        r matches Ok((ps, st)) ==> ps@.len() == epoch.tmpls().len() && st@.len() == ps@.len() && forall|q: int|
            0 <= q < ps@.len() ==> (#[trigger] ps@[q]).intervals@.len() == 0,
{
    let count = epoch.plane_count();
    let tmpls = epoch.planes();
    let mut planes: Vec<PlaneProgram> = Vec::new();
    let mut state: Vec<Vec<u32>> = Vec::new();
    let mut p = 0usize;
    while p < count
        invariant
            p <= count == tmpls@.len() == epoch.tmpls().len(),
            planes@.len() == p,
            state@.len() == p,
            forall|q: int| 0 <= q < p ==> (#[trigger] planes@[q]).intervals@.len() == 0,
        decreases count - p,
    {
        let depth = tmpls[p].bit_depth;
        let (pw, ph) = epoch.plane_dimensions(p)?;
        let pl = match first.plane(p) {
            Some(pl) => pl,
            None => {
                return Err(VoleError::OutOfBounds);
            },
        };
        let bg = match first.get(p, 0, 0) {
            Some(v) => v,
            None => {
                return Err(VoleError::OutOfBounds);
            },
        };
        let mut prog = PlaneProgram::new(bg);
        let samples = plane_samples(pl);
        if uniform_value(pl).is_none() {
            let obj = PlaneObject::raster(pw, ph, depth, samples.as_slice())?;
            prog.objects.insert(1, obj);
            prog.instances.push(PlaneInstance { id: PlaneInstanceId(1), object: PlaneObjectId(1), x: 0, y: 0 });
        }
        state.push(samples);
        planes.push(prog);
        p = p + 1;
    }
    Ok((planes, state))
}

/// One aligned interval group per plane for every observation after the
/// first, appended to the programs in order.
fn later_intervals(
    epoch: &VideoEpoch,
    observations: &[Picture],
    planes: &mut Vec<PlaneProgram>,
    state: &mut Vec<Vec<u32>>,
) -> (r: Result<(), VoleError>)
    requires
        observations@.len() >= 1,
        old(planes)@.len() == epoch.tmpls().len(),
        old(state)@.len() == old(planes)@.len(),
        forall|q: int| 0 <= q < old(planes)@.len() ==> (#[trigger] old(planes)@[q]).intervals@.len() == 0,
    ensures
        r is Ok ==> final(planes)@.len() == epoch.tmpls().len() && forall|q: int|
            0 <= q < final(planes)@.len() ==> last_interval(#[trigger] final(planes)@[q]) < observations@.len(),
{
    let n_obs = observations.len() as u64;
    let count = epoch.plane_count();
    let tmpls = epoch.planes();
    let mut next_id: Vec<u32> = Vec::new();
    let mut p = 0usize;
    while p < count
        invariant
            p <= count,
            next_id@.len() == p,
        decreases count - p,
    {
        next_id.push(2);
        p = p + 1;
    }
    let mut t: u64 = 1;
    while t < n_obs
        invariant
            1 <= t,
            t <= n_obs,
            n_obs == observations@.len(),
            count == tmpls@.len() == epoch.tmpls().len(),
            planes@.len() == count,
            state@.len() == count,
            next_id@.len() == count,
            forall|q: int| 0 <= q < count ==> last_interval(#[trigger] planes@[q]) < t,
        decreases n_obs - t,
    {
        let mut p = 0usize;
        while p < count
            invariant
                p <= count,
                1 <= t < n_obs,
                n_obs == observations@.len(),
                count == tmpls@.len() == epoch.tmpls().len(),
                planes@.len() == count,
                state@.len() == count,
                next_id@.len() == count,
                forall|q: int| 0 <= q < p ==> last_interval(#[trigger] planes@[q]) == t,
                forall|q: int| p <= q < count ==> last_interval(#[trigger] planes@[q]) < t,
            decreases count - p,
        {
            let depth = tmpls[p].bit_depth;
            let (pw, ph) = epoch.plane_dimensions(p)?;
            let target = match observations[t as usize].plane(p) {
                Some(pl) => pl,
                None => {
                    return Err(VoleError::OutOfBounds);
                },
            };
            let want = plane_samples(target);
            let (ops, replaced) = interval_ops(&state[p], &want, pw, ph, depth, observations, t as usize, p, next_id[p])?;
            if replaced {
                if next_id[p] == u32::MAX {
                    return Err(VoleError::ArithmeticOverflow);
                }
                let nid = next_id[p] + 1;
                next_id.set(p, nid);
                state.set(p, want);
            }
            let mut prog = planes.remove(p);
            prog.intervals.push((t, ops));
            proof {
                assert(last_interval(prog) == t);
            }
            planes.insert(p, prog);
            proof {
                assert forall|q: int| 0 <= q < p + 1 implies last_interval(#[trigger] planes@[q]) == t by {}
                assert forall|q: int| p + 1 <= q < count implies last_interval(#[trigger] planes@[q]) < t by {}
            }
            p = p + 1;
        }
        t = t + 1;
    }
    Ok(())
}

/// Check that `program` materializes every observation exactly.
fn check_reproduces(program: &MultiPlaneProgram, observations: &[Picture]) -> (r: Result<(), VoleError>)
    requires
        program.planes@.len() == program.epoch.tmpls().len(),
        max_last(program.planes@, program.planes@.len() as int) < u64::MAX,
        forall|k: int| 0 <= k < observations@.len() ==> (#[trigger] observations@[k]).pls().len() == program.planes@.len(),
    ensures
        r is Ok ==> forall|k: int|
            0 <= k < observations@.len() ==> #[trigger] observation_samples(
                program.epoch,
                program.planes@,
                k as u64,
                program.planes@.len() as int,
            ) == Ok::<Seq<Seq<u32>>, VoleError>(picture_samples(observations@[k])),
{
    let n = observations.len();
    let count = program.planes.len();
    let mut idx = 0usize;
    while idx < n
        invariant
            idx <= n == observations@.len(),
            count == program.planes@.len(),
            forall|k: int| 0 <= k < observations@.len() ==> (#[trigger] observations@[k]).pls().len() == count,
            forall|k: int|
                0 <= k < idx ==> #[trigger] observation_samples(
                    program.epoch,
                    program.planes@,
                    k as u64,
                    program.planes@.len() as int,
                ) == Ok::<Seq<Seq<u32>>, VoleError>(picture_samples(observations@[k])),
        decreases n - idx,
    {
        let got = program.materialize_observation(idx as u64)?;
        let want = &observations[idx];
        let ghost cs = observation_samples(program.epoch, program.planes@, idx as u64, program.planes@.len() as int)->Ok_0;
        proof {
            lemma_observation_len(program.epoch, program.planes@, idx as u64, program.planes@.len() as int);
        }
        let mut p = 0usize;
        while p < count
            invariant
                p <= count,
                got.pls().len() == count,
                want.pls().len() == count,
                cs.len() == count,
                forall|j: int| 0 <= j < count ==> (#[trigger] got.pls()[j]).samples() == cs[j],
                forall|j: int| 0 <= j < p ==> cs[j] == (#[trigger] want.pls()[j]).samples(),
            decreases count - p,
        {
            let a = got.plane(p).unwrap();
            let b = want.plane(p).unwrap();
            if !same_samples(a, b) {
                return Err(VoleError::ApiConstraint);
            }
            p = p + 1;
        }
        proof {
            assert(cs =~= picture_samples(observations@[idx as int]));
        }
        idx = idx + 1;
    }
    Ok(())
}

/// Exact raster-origin ingest floor over an observed picture sequence.
///
/// Every observation must validate against `epoch` (`GeometryMismatch`);
/// an empty sequence is `ApiConstraint`. A returned program materializes
/// exactly the observed sequence: every observation is re-materialized and
/// compared sample for sample before the program is returned.
pub fn encode_pictures_exact(epoch: &VideoEpoch, observations: &[Picture]) -> (r: Result<MultiPlaneProgram, VoleError>)
    ensures
        observations@.len() == 0 ==> r == Err::<MultiPlaneProgram, VoleError>(
            VoleError::ApiConstraint,
        ),
        (exists|i: int| 0 <= i < observations@.len() && !observation_fits(*epoch, (#[trigger] observations@[i]).pls()))
            ==> r is Err,
        r matches Ok(prog) ==> {
            &&& prog.epoch.tmpls() == epoch.tmpls()
            &&& max_last(prog.planes@, prog.planes@.len() as int) + 1 == observations@.len()
            &&& forall|idx: int|
                0 <= idx < observations@.len() ==> #[trigger] observation_samples(
                    prog.epoch,
                    prog.planes@,
                    idx as u64,
                    prog.planes@.len() as int,
                ) == Ok::<Seq<Seq<u32>>, VoleError>(picture_samples(observations@[idx]))
        },
{
    if observations.len() == 0 {
        return Err(VoleError::ApiConstraint);
    }
    let mut i = 0usize;
    while i < observations.len()
        invariant
            i <= observations@.len(),
            forall|k: int| 0 <= k < i ==> observation_fits(*epoch, (#[trigger] observations@[k]).pls()),
        decreases observations@.len() - i,
    {
        match observations[i].validate_against(epoch) {
            Ok(()) => {},
            Err(e) => {
                return Err(e);
            },
        }
        i = i + 1;
    }
    let n_obs = observations.len() as u64;
    let (mut planes, mut state) = initial_programs(epoch, &observations[0])?;
    later_intervals(epoch, observations, &mut planes, &mut state)?;
    proof {
        lemma_max_last_below(planes@, planes@.len() as int, n_obs);
    }
    let program = MultiPlaneProgram::new(epoch.clone(), planes)?;
    if program.observation_count() != n_obs {
        return Err(VoleError::ApiConstraint);
    }
    check_reproduces(&program, observations)?;
    Ok(program)
}

/// The largest last interval index is below `n` when every one is.
proof fn lemma_max_last_below(planes: Seq<PlaneProgram>, k: int, n: u64)
    requires
        0 <= k <= planes.len(),
        n >= 1,
        forall|q: int| 0 <= q < k ==> last_interval(#[trigger] planes[q]) < n,
    ensures
        max_last(planes, k) < n,
    decreases k,
{
    if k > 0 {
        lemma_max_last_below(planes, k - 1, n);
    }
}

/// The interval group of one plane for observation `t`: empty when the
/// committed state already equals the target; otherwise the cheaper exact
/// description — a sparse residual of the changed samples, or a full
/// replacement (declare a raster object with id `id`, clear the instances,
/// instantiate it) — with static-run economics: a run of identical
/// following observations favours one replacement. Returns the ops and
/// whether the state was replaced.
#[verifier::loop_isolation(false)]
fn interval_ops(
    base: &Vec<u32>,
    want: &Vec<u32>,
    pw: u32,
    ph: u32,
    depth: BitDepth,
    observations: &[Picture],
    t: usize,
    p: usize,
    id: u32,
) -> (r: Result<(Vec<PlaneOp>, bool), VoleError>)
    requires
        t < observations@.len(),
{
    let mut equal = base.len() == want.len();
    if equal {
        let mut k = 0usize;
        while k < base.len()
            invariant
                k <= base@.len() == want@.len(),
            decreases base@.len() - k,
        {
            if base[k] != want[k] {
                equal = false;
                break;
            }
            k = k + 1;
        }
    }
    if equal {
        return Ok((Vec::new(), false));
    }
    proof {
        vstd::arithmetic::mul::lemma_mul_upper_bound(pw as int, 0xffff_ffff, ph as int, 0xffff_ffff);
    }
    if base.len() != want.len() || (base.len() as u64) != (pw as u64) * (ph as u64) {
        return Err(VoleError::GeometryMismatch);
    }
    let mut changed: u64 = 0;
    let mut k = 0usize;
    while k < base.len()
        invariant
            k <= base@.len() == want@.len(),
            changed <= k,
        decreases base@.len() - k,
    {
        if base[k] != want[k] {
            changed = changed + 1;
        }
        k = k + 1;
    }
    let spb: u64 = if depth.is_byte_depth() {
        1
    } else {
        2
    };
    let plane_bytes = sat_mul(base.len() as u64, spb);
    let mut residual_est = sat_add(sat_mul(changed, 10), 64);
    let replace_est = sat_add(plane_bytes, 90);
    if residual_est < replace_est {
        let olen = observations.len();
        let mut run: u64 = 1;
        let mut next = t + 1;
        while next < olen
            invariant
                t < next <= olen == observations@.len(),
            decreases olen - next,
        {
            let same = match observations[next].plane(p) {
                Some(pl) => {
                    let s = plane_samples(pl);
                    let mut eq = s.len() == want.len();
                    if eq {
                        let mut k = 0usize;
                        while k < s.len()
                            invariant
                                k <= s@.len() == want@.len(),
                            decreases s@.len() - k,
                        {
                            if s[k] != want[k] {
                                eq = false;
                                break;
                            }
                            k = k + 1;
                        }
                    }
                    eq
                },
                None => false,
            };
            if !same {
                break;
            }
            run = sat_add(run, 1);
            next = next + 1;
        }
        if run > 1 {
            let run_residual = sat_mul(residual_est, run);
            let run_replace = sat_add(replace_est, sat_mul(12, run - 1));
            if run_replace < run_residual {
                residual_est = u64::MAX;
            }
        }
    }
    let mut ops: Vec<PlaneOp> = Vec::new();
    if residual_est < replace_est {
        // Column-major scan: the points come out ascending by (x, y).
        let mut points: Vec<(i32, i32, u16)> = Vec::new();
        let mut x = 0u32;
        while x < pw
            invariant
                x <= pw,
                base@.len() == pw * ph,
                want@.len() == base@.len(),
            decreases pw - x,
        {
            let mut y = 0u32;
            while y < ph
                invariant
                    y <= ph,
                    x < pw,
                decreases ph - y,
            {
                proof {
                    crate::pixel::lemma_pixel_index(x as int, y as int, pw as int, ph as int);
                    vstd::arithmetic::mul::lemma_mul_is_commutative(pw as int, y as int);
                }
                let k = (y as usize) * (pw as usize) + (x as usize);
                if base[k] != want[k] {
                    points.push((x as i32, y as i32, want[k] as u16));
                }
                y = y + 1;
            }
            x = x + 1;
        }
        let block = encode_plane_residual(points.as_slice())?;
        ops.push(PlaneOp::Residual { block });
        Ok((ops, false))
    } else {
        let obj = PlaneObject::raster(pw, ph, depth, want.as_slice())?;
        ops.push(PlaneOp::DeclareObject { id: PlaneObjectId(id), object: obj });
        ops.push(PlaneOp::ClearInstances);
        ops.push(PlaneOp::CreateInstance { id: PlaneInstanceId(1), object: PlaneObjectId(id), x: 0, y: 0 });
        Ok((ops, true))
    }
}

/// A picture with every plane uniformly filled with its value.
pub fn uniform_picture(epoch: &VideoEpoch, values: &[u32]) -> (r: Result<Picture, VoleError>)
    ensures
        r matches Ok(p) ==> observation_fits(*epoch, p.pls()) && forall|i: int|
            0 <= i < p.pls().len() ==> (#[trigger] p.pls()[i]).samples() == Seq::new(
                (epoch.dims(i).0 * epoch.dims(i).1) as nat,
                |k: int| values@[i],
            ),
        values@.len() != epoch.tmpls().len() ==> r == Err::<Picture, VoleError>(VoleError::GeometryMismatch),
{
    Picture::from_epoch(epoch, values)
}

/// Sample `k` of an authored ramp plane of width `pw` at depth maximum
/// `max`: the column's share of `max` plus a small deterministic dither,
/// capped at `max`.
pub open spec fn ramp_value(seed: u64, k: nat, pw: u32, max: u32) -> u32 {
    let span: u32 = if pw > 2 { (pw - 1) as u32 } else { 1 };
    let col = (k % (pw as nat)) as u32;
    let base = (((col as int) * (max as int)) / (span as int)) as u32;
    let dither = (mix_spec(seed ^ (k as u64)) % 5) as u32;
    if base + dither > max {
        max
    } else {
        (base + dither) as u32
    }
}

/// A deterministic per-plane sample ramp (within each plane's active depth,
/// with a small deterministic dither).
#[verifier::loop_isolation(false)]
pub fn ramp_picture(epoch: &VideoEpoch, seed: u64) -> (r: Result<Picture, VoleError>)
    ensures
        (forall|i: int| 0 <= i < epoch.tmpls().len() ==> #[trigger] epoch.dims(i).0 * epoch.dims(i).1 <= usize::MAX)
            ==> r is Ok,
        r matches Ok(p) ==> observation_fits(*epoch, p.pls()) && forall|i: int|
            0 <= i < p.pls().len() ==> forall|k: int|
                0 <= k < (#[trigger] p.pls()[i]).samples().len() ==> #[trigger] p.pls()[i].samples()[k] == ramp_value(
                    seed,
                    k as nat,
                    epoch.dims(i).0,
                    epoch.tmpls()[i].bit_depth.max() as u32,
                ),
{
    let count = epoch.plane_count();
    let tmpls = epoch.planes();
    let mut planes: Vec<Plane> = Vec::new();
    let mut i = 0usize;
    while i < count
        invariant
            i <= count == tmpls@.len() == epoch.tmpls().len(),
            planes@.len() == i,
            forall|j: int| 0 <= j < i ==> crate::media::epoch::plane_matches(tmpls@[j], epoch.dims(j), #[trigger] planes@[j]),
            forall|j: int|
                0 <= j < i ==> forall|k: int|
                    0 <= k < (#[trigger] planes@[j]).samples().len() ==> #[trigger] planes@[j].samples()[k] == ramp_value(
                        seed,
                        k as nat,
                        epoch.dims(j).0,
                        epoch.tmpls()[j].bit_depth.max() as u32,
                    ),
        decreases count - i,
    {
        let (pw, ph) = epoch.plane_dimensions(i)?;
        let t = tmpls[i];
        let depth = t.bit_depth;
        let max = depth.max_sample();
        proof {
            vstd::arithmetic::mul::lemma_mul_upper_bound(pw as int, 0xffff_ffff, ph as int, 0xffff_ffff);
        }
        let n64 = (pw as u64) * (ph as u64);
        if n64 > usize::MAX as u64 {
            return Err(VoleError::ArithmeticOverflow);
        }
        let n = n64 as usize;
        let span: u32 = if pw > 2 {
            pw - 1
        } else {
            1
        };
        let mut values: Vec<u32> = Vec::new();
        let mut k = 0usize;
        while k < n
            invariant
                k <= n,
                span >= 1,
                pw >= 1,
                max == depth.max(),
                max <= 0xffff,
                values@.len() == k,
                forall|q: int| 0 <= q < k ==> #[trigger] values@[q] == ramp_value(seed, q as nat, pw, max),
                forall|q: int| 0 <= q < k ==> #[trigger] values@[q] <= max,
            decreases n - k,
        {
            let col = (k as u64 % pw as u64) as u32;
            proof {
                vstd::arithmetic::mul::lemma_mul_upper_bound(col as int, 0xffff_ffff, max as int, 0xffff);
            }
            let base = ((col as u64) * (max as u64) / (span as u64)) as u32;
            let dither = (mix(seed ^ (k as u64)) % 5) as u32;
            let v = if base as u64 + dither as u64 > max as u64 {
                max
            } else {
                base + dither
            };
            values.push(v);
            k = k + 1;
        }
        let data = if depth.is_byte_depth() {
            let mut b: Vec<u8> = Vec::new();
            let mut k = 0usize;
            while k < n
                invariant
                    k <= n == values@.len(),
                    max == depth.max(),
                    depth.b() <= 8 ==> max <= 0xff,
                    forall|q: int| 0 <= q < n ==> #[trigger] values@[q] <= max,
                    b@.len() == k,
                    forall|q: int| 0 <= q < k ==> #[trigger] b@[q] as u32 == values@[q],
                decreases n - k,
            {
                b.push(values[k] as u8);
                k = k + 1;
            }
            PlaneData::U8(b)
        } else {
            let mut b: Vec<u16> = Vec::new();
            let mut k = 0usize;
            while k < n
                invariant
                    k <= n == values@.len(),
                    max <= 0xffff,
                    forall|q: int| 0 <= q < n ==> #[trigger] values@[q] <= max,
                    b@.len() == k,
                    forall|q: int| 0 <= q < k ==> #[trigger] b@[q] as u32 == values@[q],
                decreases n - k,
            {
                b.push(values[k] as u16);
                k = k + 1;
            }
            PlaneData::U16(b)
        };
        let plane = Plane::new(t.component, pw, ph, depth, t.subsample_x, t.subsample_y, data)?;
        proof {
            assert forall|k: int| 0 <= k < plane.samples().len() implies #[trigger] plane.samples()[k] == ramp_value(
                seed,
                k as nat,
                epoch.dims(i as int).0,
                epoch.tmpls()[i as int].bit_depth.max() as u32,
            ) by {
                assert(plane.samples()[k] == values@[k]);
            }
        }
        planes.push(plane);
        i = i + 1;
    }
    Picture::from_planes(epoch, planes)
}

} // verus!
