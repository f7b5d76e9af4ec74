//! Procedural state graph.
//!
//! The state `G_t = (objects, instances)` plus a background colour. Objects
//! are immutable, declared content. Instances are the mutable-by-transition
//! placements (position, ordering) that materialize as a raster view: the
//! canvas first fills the whole frame with `background`, then each instance
//! paints its object in instance order (later instances are nearer).
//!
//! Beside the instances the state carries per-instance motion (a persistent
//! translation or a trajectory program, mutually exclusive), a palette table
//! with per-instance bindings, and a sparse persistent overlay.
//!
//! Tables are keyed by the integer value of their id.

use std::collections::BTreeMap;

use vstd::std_specs::btree::spec_btree_map_iter;
use vstd::std_specs::iter::IteratorSpec;

use vstd::prelude::*;

use crate::error::VoleError;
use crate::object::{Object, ObjectId};
use crate::time::Interval;
use crate::trajectory::{fits64, pos_from, seg_canonical, seg_delta, seg_steps, TrajectorySegment};

verus! {

broadcast use vstd::laws_cmp::group_laws_cmp;

/// Instance identity in format-v1 index space.
#[derive(Debug, Clone, Copy, PartialEq, Eq, Hash, PartialOrd, Ord, Structural)]
pub struct InstanceId(pub u32);

/// Palette identity. Zero is reserved as the "no binding" sentinel;
/// palettes are declared from id 1.
#[derive(Debug, Clone, Copy, PartialEq, Eq, Hash, PartialOrd, Ord, Structural)]
pub struct PaletteId(pub u32);

impl PaletteId {
    /// Sentinel: no palette binding.
    #[allow(non_snake_case)]
    pub fn NONE() -> (r: PaletteId)
        ensures
            r.0 == 0,
    {
        PaletteId(0)
    }
}

/// A placed, orderable instance of an immutable object.
#[derive(Debug, Clone, Copy, PartialEq, Eq, Structural)]
pub struct Instance {
    /// Instance identity for transition targeting.
    pub id: InstanceId,
    /// The declared object whose content this paints.
    pub object_id: ObjectId,
    /// Top-left canvas column of the object box.
    pub x: i64,
    /// Top-left canvas row of the object box.
    pub y: i64,
}

/// The live trajectory state of one instance: the attached program, the
/// active segment, the advances left in it, and the current per-advance
/// velocity (the next displacement to apply).
#[derive(Debug, Clone)]
pub struct InstanceTrajectory {
    program: Vec<TrajectorySegment>,
    seg: usize,
    remaining: u64,
    vx: i64,
    vy: i64,
}

/// Initial velocity of a segment.
pub open spec fn seg_v0(s: TrajectorySegment) -> (i64, i64) {
    match s {
        TrajectorySegment::Linear { vx, vy, .. } => (vx, vy),
        TrajectorySegment::Accel { vx0, vy0, .. } => (vx0, vy0),
    }
}

/// Whether every segment of a program is canonical.
pub open spec fn program_canonical(p: Seq<TrajectorySegment>) -> bool {
    forall|i: int| 0 <= i < p.len() ==> seg_canonical(#[trigger] p[i])
}

impl InstanceTrajectory {
    /// Attached program (model).
    pub closed spec fn prog(self) -> Seq<TrajectorySegment> {
        self.program@
    }

    /// Active segment index (model).
    pub closed spec fn seg_ix(self) -> usize {
        self.seg
    }

    /// Advances left in the active segment (model).
    pub closed spec fn rem(self) -> u64 {
        self.remaining
    }

    /// Current velocity (model).
    pub closed spec fn vel(self) -> (i64, i64) {
        (self.vx, self.vy)
    }

    /// A live trajectory: canonical program, a segment in range with at
    /// least one advance left and no more than it declares.
    pub open spec fn live(self) -> bool {
        &&& program_canonical(self.prog())
        &&& self.seg_ix() < self.prog().len()
        &&& 1 <= self.rem() <= seg_steps(self.prog()[self.seg_ix() as int])
    }

    /// Positioned at the first segment of `p`, with its initial velocity.
    pub open spec fn started(self, p: Seq<TrajectorySegment>) -> bool {
        &&& self.prog() == p
        &&& self.seg_ix() == 0
        &&& self.rem() == seg_steps(p[0])
        &&& self.vel() == seg_v0(p[0])
    }

    /// Fresh trajectory positioned at the first segment; `None` for an empty
    /// program.
    fn start(program: Vec<TrajectorySegment>) -> (r: Option<InstanceTrajectory>)
        ensures
            r is None <==> program@.len() == 0,
            r matches Some(t) ==> t.started(program@),
    {
        if program.len() == 0 {
            return None;
        }
        let first = program[0];
        let (vx, vy) = match first {
            TrajectorySegment::Linear { vx, vy, .. } => (vx, vy),
            TrajectorySegment::Accel { vx0, vy0, .. } => (vx0, vy0),
        };
        Some(InstanceTrajectory { remaining: first.steps(), program, seg: 0, vx, vy })
    }

    /// The attached program descriptor.
    pub fn program(&self) -> (r: &[TrajectorySegment])
        ensures
            r@ == self.prog(),
    {
        self.program.as_slice()
    }

    /// Index of the active segment.
    pub fn segment_index(&self) -> (r: usize)
        ensures
            r == self.seg_ix(),
    {
        self.seg
    }

    /// Advances remaining in the active segment.
    pub fn remaining_steps(&self) -> (r: u64)
        ensures
            r == self.rem(),
    {
        self.remaining
    }

    /// Current velocity `(vx, vy)`.
    pub fn velocity(&self) -> (r: (i64, i64))
        ensures
            r == self.vel(),
    {
        (self.vx, self.vy)
    }
}

/// Whether `id` names one of `insts`.
pub open spec fn has_id(insts: Seq<Instance>, id: u32) -> bool {
    exists|i: int| 0 <= i < insts.len() && (#[trigger] insts[i]).id.0 == id
}

/// Instance ids are pairwise distinct.
pub open spec fn ids_unique(insts: Seq<Instance>) -> bool {
    forall|i: int, j: int|
        0 <= i < insts.len() && 0 <= j < insts.len() && i != j ==> (#[trigger] insts[i]).id
            != (#[trigger] insts[j]).id
}

/// The fault of palette change `k` against a palette of `len` entries:
/// an index not strictly above its predecessor is non-canonical, an index
/// past the palette is out of bounds.
pub open spec fn patch_fault(changes: Seq<(u8, u8)>, len: nat, k: int) -> Option<VoleError> {
    if k > 0 && changes[k].0 <= changes[k - 1].0 {
        Some(VoleError::NonCanonicalEncoding)
    } else if changes[k].0 >= len {
        Some(VoleError::OutOfBounds)
    } else {
        None
    }
}

/// Palette entries after applying `(index, value)` changes in order.
pub open spec fn apply_patch(e: Seq<u8>, changes: Seq<(u8, u8)>) -> Seq<u8>
    decreases changes.len(),
{
    if changes.len() == 0 {
        e
    } else {
        apply_patch(e, changes.drop_last()).update(changes.last().0 as int, changes.last().1)
    }
}

/// Lexicographic order of overlay coordinates.
pub open spec fn key_lt(a: (i64, i64), b: (i64, i64)) -> bool {
    a.0 < b.0 || (a.0 == b.0 && a.1 < b.1)
}

/// Overlay points in canonical order: coordinates strictly ascending.
pub open spec fn overlay_canonical(pts: Seq<(i64, i64, u8)>) -> bool {
    forall|k: int| 0 < k < pts.len() ==> key_lt((pts[k - 1].0, pts[k - 1].1), (#[trigger] pts[k].0, pts[k].1))
}

/// The overlay after setting each point in order.
pub open spec fn apply_overlay(m: Map<(i64, i64), u8>, pts: Seq<(i64, i64, u8)>) -> Map<(i64, i64), u8>
    decreases pts.len(),
{
    if pts.len() == 0 {
        m
    } else {
        apply_overlay(m, pts.drop_last()).insert((pts.last().0, pts.last().1), pts.last().2)
    }
}

/// Whether `(index, value)` changes apply to a palette of `len` entries.
pub open spec fn patch_ok(changes: Seq<(u8, u8)>, len: nat) -> bool {
    forall|k: int| 0 <= k < changes.len() ==> #[trigger] patch_fault(changes, len, k) is None
}

/// `e` is the first fault of `changes`.
pub open spec fn first_patch_fault(changes: Seq<(u8, u8)>, len: nat, e: VoleError) -> bool {
    exists|k: int|
        0 <= k < changes.len() && #[trigger] patch_fault(changes, len, k) == Some(e) && forall|j: int|
            0 <= j < k ==> #[trigger] patch_fault(changes, len, j) is None
}

/// An instance after one translation advance under `vels`; `None` when the
/// new position leaves `i64`.
pub open spec fn translate(inst: Instance, vels: Map<u32, (i64, i64)>) -> Option<Instance> {
    if !vels.contains_key(inst.id.0) {
        Some(inst)
    } else {
        let (vx, vy) = vels[inst.id.0];
        if vx == 0 && vy == 0 {
            Some(inst)
        } else if fits64(inst.x + vx) && fits64(inst.y + vy) {
            Some(Instance { x: (inst.x + vx) as i64, y: (inst.y + vy) as i64, ..inst })
        } else {
            None
        }
    }
}

/// The instance on which a translation advance overflowed, as it is left:
/// its column has moved when that alone fits.
pub open spec fn translate_partial(inst: Instance, vels: Map<u32, (i64, i64)>) -> Instance {
    let vx = vels[inst.id.0].0;
    if fits64(inst.x + vx) {
        Instance { x: (inst.x + vx) as i64, ..inst }
    } else {
        inst
    }
}

/// The velocity of a trajectory after one advance of its active segment
/// (an acceleration segment gains its acceleration); `None` on overflow.
pub open spec fn traj_vel_after(t: InstanceTrajectory) -> Option<(i64, i64)> {
    match t.prog()[t.seg_ix() as int] {
        TrajectorySegment::Linear { .. } => Some(t.vel()),
        TrajectorySegment::Accel { ax, ay, .. } => if fits64(t.vel().0 + ax) && fits64(
            t.vel().1 + ay,
        ) {
            Some(((t.vel().0 + ax) as i64, (t.vel().1 + ay) as i64))
        } else {
            None
        },
    }
}

/// Where a trajectory stands after one advance that left velocity `v`:
/// `(segment, advances left, velocity)`, or `None` once its final segment is
/// exhausted. Entering a segment resets the velocity to its initial one.
pub open spec fn traj_next(t: InstanceTrajectory, v: (i64, i64)) -> Option<(usize, u64, (i64, i64))> {
    if t.rem() > 1 {
        Some((t.seg_ix(), (t.rem() - 1) as u64, v))
    } else if t.seg_ix() + 1 < t.prog().len() {
        let nxt = t.prog()[t.seg_ix() + 1];
        Some(((t.seg_ix() + 1) as usize, seg_steps(nxt), seg_v0(nxt)))
    } else {
        None
    }
}

/// Whether one trajectory advance of `inst` stays in `i64`.
pub open spec fn traj_step_ok(inst: Instance, t: InstanceTrajectory) -> bool {
    &&& fits64(inst.x + t.vel().0)
    &&& fits64(inst.y + t.vel().1)
    &&& traj_vel_after(t) is Some
}

/// The instance after one trajectory advance.
pub open spec fn traj_moved(inst: Instance, t: InstanceTrajectory) -> Instance {
    Instance { x: (inst.x + t.vel().0) as i64, y: (inst.y + t.vel().1) as i64, ..inst }
}

/// The procedural state.
#[derive(Debug, Clone)]
pub struct State {
    background: u8,
    objects: BTreeMap<u32, Object>,
    instances: Vec<Instance>,
    overlay: BTreeMap<(i64, i64), u8>,
    velocities: BTreeMap<u32, (i64, i64)>,
    trajectories: BTreeMap<u32, InstanceTrajectory>,
    palettes: BTreeMap<u32, Vec<u8>>,
    bindings: BTreeMap<u32, u32>,
    interval: Interval,
}

impl Default for State {
    /// The empty state at interval zero.
    fn default() -> (s: State)
        ensures
            s.wf(),
            s.bg() == 0,
            s.iv() == Interval(0),
            s.objs() == Map::<u32, Object>::empty(),
            s.insts() == Seq::<Instance>::empty(),
            s.ovl() == Map::<(i64, i64), u8>::empty(),
            s.vels() == Map::<u32, (i64, i64)>::empty(),
            s.trajs() == Map::<u32, InstanceTrajectory>::empty(),
            s.pals() == Map::<u32, Vec<u8>>::empty(),
            s.binds() == Map::<u32, u32>::empty(),
    {
        State::new(Interval(0))
    }
}

impl State {
    /// Background colour (model).
    pub closed spec fn bg(self) -> u8 {
        self.background
    }

    /// Anchoring interval (model).
    pub closed spec fn iv(self) -> Interval {
        self.interval
    }

    /// Declared objects by id (model).
    pub closed spec fn objs(self) -> Map<u32, Object> {
        self.objects@
    }

    /// Live instances in paint order (model).
    pub closed spec fn insts(self) -> Seq<Instance> {
        self.instances@
    }

    /// Persistent overlay points by coordinate (model).
    pub closed spec fn ovl(self) -> Map<(i64, i64), u8> {
        self.overlay@
    }

    /// Active translations by instance id (model).
    pub closed spec fn vels(self) -> Map<u32, (i64, i64)> {
        self.velocities@
    }

    /// Active trajectories by instance id (model).
    pub closed spec fn trajs(self) -> Map<u32, InstanceTrajectory> {
        self.trajectories@
    }

    /// Palette table by palette id (model).
    pub closed spec fn pals(self) -> Map<u32, Vec<u8>> {
        self.palettes@
    }

    /// Palette bindings by instance id (model).
    pub closed spec fn binds(self) -> Map<u32, u32> {
        self.bindings@
    }

    /// The state invariant: distinct instance ids, every instance paints a
    /// declared object, per-instance tables only name live instances, a
    /// translation is never `(0, 0)`, translation and trajectory never share
    /// an instance, trajectories are live, bindings name declared palettes,
    /// and palettes are nonempty and never id zero.
    pub open spec fn wf(self) -> bool {
        &&& ids_unique(self.insts())
        &&& forall|i: int|
            0 <= i < self.insts().len() ==> self.objs().contains_key(
                (#[trigger] self.insts()[i]).object_id.0,
            )
        &&& forall|k: u32| #[trigger]
            self.vels().contains_key(k) ==> has_id(self.insts(), k) && self.vels()[k] != (0i64, 0i64)
                && !self.trajs().contains_key(k)
        &&& forall|k: u32| #[trigger]
            self.trajs().contains_key(k) ==> has_id(self.insts(), k) && self.trajs()[k].live()
        &&& forall|k: u32| #[trigger]
            self.binds().contains_key(k) ==> has_id(self.insts(), k) && self.pals().contains_key(
                self.binds()[k],
            )
        &&& forall|k: u32| #[trigger]
            self.pals().contains_key(k) ==> k != 0 && self.pals()[k]@.len() > 0
    }

    /// Everything but the instances and the per-instance motion is equal.
    pub open spec fn same_tables(self, other: State) -> bool {
        &&& self.bg() == other.bg()
        &&& self.iv() == other.iv()
        &&& self.objs() == other.objs()
        &&& self.ovl() == other.ovl()
        &&& self.pals() == other.pals()
        &&& self.binds() == other.binds()
    }

    /// Equal in every component.
    pub open spec fn same(self, other: State) -> bool {
        &&& self.same_tables(other)
        &&& self.insts() == other.insts()
        &&& self.vels() == other.vels()
        &&& self.trajs() == other.trajs()
    }

    /// Fresh empty state at the given interval with the default background.
    pub fn new(interval: Interval) -> (s: State)
        ensures
            s.wf(),
            s.bg() == 0,
            s.iv() == interval,
            s.objs() == Map::<u32, Object>::empty(),
            s.insts() == Seq::<Instance>::empty(),
            s.ovl() == Map::<(i64, i64), u8>::empty(),
            s.vels() == Map::<u32, (i64, i64)>::empty(),
            s.trajs() == Map::<u32, InstanceTrajectory>::empty(),
            s.pals() == Map::<u32, Vec<u8>>::empty(),
            s.binds() == Map::<u32, u32>::empty(),
    {
        State {
            background: 0,
            objects: BTreeMap::new(),
            instances: Vec::new(),
            overlay: BTreeMap::new(),
            velocities: BTreeMap::new(),
            trajectories: BTreeMap::new(),
            palettes: BTreeMap::new(),
            bindings: BTreeMap::new(),
            interval,
        }
    }

    /// Interval anchored to this state.
    pub fn interval(&self) -> (r: Interval)
        ensures
            r == self.iv(),
    {
        self.interval
    }

    /// Set the anchoring interval.
    pub fn set_interval(&mut self, interval: Interval)
        ensures
            final(self).iv() == interval,
            final(self).bg() == old(self).bg(),
            final(self).objs() == old(self).objs(),
            final(self).ovl() == old(self).ovl(),
            final(self).pals() == old(self).pals(),
            final(self).binds() == old(self).binds(),
            final(self).insts() == old(self).insts(),
            final(self).vels() == old(self).vels(),
            final(self).trajs() == old(self).trajs(),
    {
        self.interval = interval;
    }

    /// Background colour applied each materialized frame.
    pub fn background(&self) -> (r: u8)
        ensures
            r == self.bg(),
    {
        self.background
    }

    /// Set the background.
    pub fn set_background(&mut self, colour: u8)
        ensures
            final(self).bg() == colour,
            final(self).iv() == old(self).iv(),
            final(self).objs() == old(self).objs(),
            final(self).ovl() == old(self).ovl(),
            final(self).pals() == old(self).pals(),
            final(self).binds() == old(self).binds(),
            final(self).insts() == old(self).insts(),
            final(self).vels() == old(self).vels(),
            final(self).trajs() == old(self).trajs(),
    {
        self.background = colour;
    }

    /// Number of declared objects.
    pub fn object_count(&self) -> (r: usize)
        ensures
            r == self.objs().len(),
    {
        self.objects.len()
    }

    /// Number of live instances.
    pub fn instance_count(&self) -> (r: usize)
        ensures
            r == self.insts().len(),
    {
        self.instances.len()
    }

    /// Look up a declared object.
    pub fn object(&self, id: ObjectId) -> (r: Option<&Object>)
        ensures
            r matches Some(o) ==> self.objs().contains_key(id.0) && *o == self.objs()[id.0],
            r is None ==> !self.objs().contains_key(id.0),
    {
        self.objects.get(&id.0)
    }

    /// Whether the object is declared.
    pub fn has_object(&self, id: ObjectId) -> (r: bool)
        ensures
            r == self.objs().contains_key(id.0),
    {
        self.objects.contains_key(&id.0)
    }

    /// The live instances in paint order.
    pub fn instances(&self) -> (r: &[Instance])
        ensures
            r@ == self.insts(),
    {
        self.instances.as_slice()
    }

    /// Position of instance `id` in paint order.
    fn find(&self, id: InstanceId) -> (r: Option<usize>)
        ensures
            r matches Some(i) ==> i < self.insts().len() && self.insts()[i as int].id == id,
            r is None ==> !has_id(self.insts(), id.0),
    {
        let n = self.instances.len();
        let mut i = 0usize;
        while i < n
            invariant
                i <= n,
                n == self.insts().len(),
                forall|j: int| 0 <= j < i ==> (#[trigger] self.insts()[j]).id.0 != id.0,
            decreases n - i,
        {
            if self.instances[i].id.0 == id.0 {
                return Some(i);
            }
            i = i + 1;
        }
        None
    }

    /// Look up a live instance.
    pub fn instance(&self, id: InstanceId) -> (r: Result<&Instance, VoleError>)
        ensures
            r is Ok <==> has_id(self.insts(), id.0),
            r matches Ok(inst) ==> inst.id == id && exists|i: int|
                0 <= i < self.insts().len() && self.insts()[i] == *inst,
            r matches Err(e) ==> e == VoleError::UnknownInstance,
    {
        match self.find(id) {
            Some(i) => Ok(&self.instances[i]),
            None => Err(VoleError::UnknownInstance),
        }
    }

    /// Declare a new immutable object. A second declaration under a declared
    /// id is `DuplicateId` and leaves the state unchanged.
    pub fn declare_object(&mut self, id: ObjectId, object: Object) -> (r: Result<(), VoleError>)
        requires
            old(self).wf(),
        ensures
            final(self).wf(),
            r is Ok <==> !old(self).objs().contains_key(id.0),
            r is Ok ==> final(self).objs() == old(self).objs().insert(id.0, object),
            r is Err ==> r == Err::<(), VoleError>(VoleError::DuplicateId) && final(self).objs()
                == old(self).objs(),
            final(self).bg() == old(self).bg(),
            final(self).iv() == old(self).iv(),
            final(self).ovl() == old(self).ovl(),
            final(self).pals() == old(self).pals(),
            final(self).binds() == old(self).binds(),
            final(self).insts() == old(self).insts(),
            final(self).vels() == old(self).vels(),
            final(self).trajs() == old(self).trajs(),
    {
        if self.objects.contains_key(&id.0) {
            return Err(VoleError::DuplicateId);
        }
        self.objects.insert(id.0, object);
        proof {
            lemma_wf_frame(*old(self), *self);
        }
        Ok(())
    }

    /// Create an instance of a declared object at `(x, y)`; it paints after
    /// every existing instance. A live id is `DuplicateId`, an undeclared
    /// object `UnknownObject`; either leaves the state unchanged.
    pub fn create_instance(&mut self, id: InstanceId, object_id: ObjectId, x: i64, y: i64) -> (r:
        Result<(), VoleError>)
        requires
            old(self).wf(),
        ensures
            final(self).wf(),
            r is Ok <==> !has_id(old(self).insts(), id.0) && old(self).objs().contains_key(
                object_id.0,
            ),
            r is Ok ==> final(self).insts() == old(self).insts().push(
                Instance { id, object_id, x, y },
            ),
            r is Err ==> final(self).insts() == old(self).insts(),
            r matches Err(e) ==> e == if has_id(old(self).insts(), id.0) {
                VoleError::DuplicateId
            } else {
                VoleError::UnknownObject
            },
            final(self).same_tables(*old(self)),
            final(self).vels() == old(self).vels(),
            final(self).trajs() == old(self).trajs(),
    {
        if self.find(id).is_some() {
            return Err(VoleError::DuplicateId);
        }
        if !self.objects.contains_key(&object_id.0) {
            return Err(VoleError::UnknownObject);
        }
        let ghost before = self.instances@;
        self.instances.push(Instance { id, object_id, x, y });
        proof {
            let after = self.instances@;
            assert forall|k: u32| has_id(before, k) implies has_id(after, k) by {
                let i = choose|i: int| 0 <= i < before.len() && (#[trigger] before[i]).id.0 == k;
                assert(after[i] == before[i]);
            }
            assert forall|i: int|
                0 <= i < after.len() implies self.objs().contains_key(
                (#[trigger] after[i]).object_id.0,
            ) by {
                if i < before.len() {
                    assert(after[i] == before[i]);
                }
            }
            assert forall|i: int, j: int|
                0 <= i < after.len() && 0 <= j < after.len() && i != j implies (#[trigger] after[i]).id
                != (#[trigger] after[j]).id by {
                if i < before.len() && j < before.len() {
                    assert(after[i] == before[i] && after[j] == before[j]);
                } else if i < before.len() {
                    assert(after[i] == before[i]);
                } else {
                    assert(after[j] == before[j]);
                }
            }
            lemma_wf_reinst(*old(self), *self);
        }
        Ok(())
    }

    /// Move an instance's placement to the absolute position `(x, y)`; an
    /// unknown instance is `UnknownInstance` and leaves the state unchanged.
    pub fn set_position(&mut self, id: InstanceId, x: i64, y: i64) -> (r: Result<(), VoleError>)
        requires
            old(self).wf(),
        ensures
            final(self).wf(),
            r is Ok <==> has_id(old(self).insts(), id.0),
            r matches Err(e) ==> e == VoleError::UnknownInstance,
            final(self).insts().len() == old(self).insts().len(),
            forall|i: int|
                0 <= i < old(self).insts().len() ==> #[trigger] final(self).insts()[i] == if old(
                    self,
                ).insts()[i].id == id {
                    Instance { x, y, ..old(self).insts()[i] }
                } else {
                    old(self).insts()[i]
                },
            final(self).same_tables(*old(self)),
            final(self).vels() == old(self).vels(),
            final(self).trajs() == old(self).trajs(),
    {
        match self.find(id) {
            None => Err(VoleError::UnknownInstance),
            Some(i) => {
                let ghost before = self.instances@;
                let cur = self.instances[i];
                self.instances.set(i, Instance { x, y, ..cur });
                proof {
                    let after = self.instances@;
                    assert forall|k: u32| has_id(before, k) implies has_id(after, k) by {
                        let j = choose|j: int| 0 <= j < before.len() && (#[trigger] before[j]).id.0 == k;
                        assert(after[j].id == before[j].id);
                    }
                    assert forall|j: int| 0 <= j < before.len() implies #[trigger] after[j] == if before[j].id == id {
                        Instance { x, y, ..before[j] }
                    } else {
                        before[j]
                    } by {
                        if j != i {
                            assert(before[j].id != before[i as int].id);
                        }
                    }
                    assert forall|a: int, b: int|
                        0 <= a < after.len() && 0 <= b < after.len() && a != b implies (#[trigger] after[a]).id
                        != (#[trigger] after[b]).id by {
                        assert(after[a].id == before[a].id && after[b].id == before[b].id);
                    }
                    assert forall|j: int|
                        0 <= j < after.len() implies self.objs().contains_key(
                        (#[trigger] after[j]).object_id.0,
                    ) by {
                        assert(after[j].object_id == before[j].object_id);
                    }
                    lemma_wf_reinst(*old(self), *self);
                }
                Ok(())
            },
        }
    }

    /// Remove every live instance; instance ids become free again. Objects,
    /// the background, the overlay and the palette table stay; translations,
    /// trajectories and palette bindings die with their instances.
    pub fn clear_instances(&mut self)
        requires
            old(self).wf(),
        ensures
            final(self).wf(),
            final(self).insts() == Seq::<Instance>::empty(),
            final(self).vels() == Map::<u32, (i64, i64)>::empty(),
            final(self).trajs() == Map::<u32, InstanceTrajectory>::empty(),
            final(self).binds() == Map::<u32, u32>::empty(),
            final(self).bg() == old(self).bg(),
            final(self).iv() == old(self).iv(),
            final(self).objs() == old(self).objs(),
            final(self).ovl() == old(self).ovl(),
            final(self).pals() == old(self).pals(),
    {
        self.instances.clear();
        self.velocities.clear();
        self.trajectories.clear();
        self.bindings.clear();
        proof {
            assert(self.insts() == Seq::<Instance>::empty());
            assert forall|k: u32| #[trigger] self.pals().contains_key(k) implies k != 0
                && self.pals()[k]@.len() > 0 by {
                assert(old(self).pals().contains_key(k));
            }
        }
    }

    /// Remove every persistent overlay point; nothing else changes.
    pub fn clear_overlay(&mut self)
        requires
            old(self).wf(),
        ensures
            final(self).wf(),
            final(self).ovl() == Map::<(i64, i64), u8>::empty(),
            final(self).bg() == old(self).bg(),
            final(self).iv() == old(self).iv(),
            final(self).objs() == old(self).objs(),
            final(self).pals() == old(self).pals(),
            final(self).binds() == old(self).binds(),
            final(self).insts() == old(self).insts(),
            final(self).vels() == old(self).vels(),
            final(self).trajs() == old(self).trajs(),
    {
        self.overlay.clear();
        proof {
            lemma_wf_frame(*old(self), *self);
        }
    }
    /// Set a persistent translation `(vx, vy)` on a live instance, applied
    /// once per [`State::advance_translations`]. `(0, 0)` deactivates it.
    /// A translation replaces any trajectory of the instance. An unknown
    /// instance is `UnknownInstance` and leaves the state unchanged.
    pub fn set_velocity(&mut self, id: InstanceId, vx: i64, vy: i64) -> (r: Result<(), VoleError>)
        requires
            old(self).wf(),
        ensures
            final(self).wf(),
            r is Ok <==> has_id(old(self).insts(), id.0),
            r matches Err(e) ==> e == VoleError::UnknownInstance && final(self).same(*old(self)),
            r is Ok ==> final(self).trajs() == old(self).trajs().remove(id.0) && final(self).vels()
                == if vx == 0 && vy == 0 {
                old(self).vels().remove(id.0)
            } else {
                old(self).vels().insert(id.0, (vx, vy))
            },
            final(self).same_tables(*old(self)),
            final(self).insts() == old(self).insts(),
    {
        if self.find(id).is_none() {
            return Err(VoleError::UnknownInstance);
        }
        self.trajectories.remove(&id.0);
        if vx == 0 && vy == 0 {
            self.velocities.remove(&id.0);
        } else {
            self.velocities.insert(id.0, (vx, vy));
        }
        proof {
            assert forall|k: u32| #[trigger] self.vels().contains_key(k) implies has_id(self.insts(), k)
                && self.vels()[k] != (0i64, 0i64) && !self.trajs().contains_key(k) by {
                if k != id.0 {
                    assert(old(self).vels().contains_key(k));
                }
            }
            assert forall|k: u32| #[trigger] self.trajs().contains_key(k) implies has_id(self.insts(), k)
                && self.trajs()[k].live() by {
                assert(old(self).trajs().contains_key(k));
            }
            assert forall|k: u32| #[trigger] self.binds().contains_key(k) implies has_id(self.insts(), k)
                && self.pals().contains_key(self.binds()[k]) by {
                assert(old(self).binds().contains_key(k));
            }
            assert forall|k: u32| #[trigger] self.pals().contains_key(k) implies k != 0
                && self.pals()[k]@.len() > 0 by {
                assert(old(self).pals().contains_key(k));
            }
            assert forall|i: int| 0 <= i < self.insts().len() implies self.objs().contains_key(
                (#[trigger] self.insts()[i]).object_id.0,
            ) by {
                assert(old(self).objs().contains_key(old(self).insts()[i].object_id.0));
            }
        }
        Ok(())
    }

    /// Active translation of an instance (`(0, 0)` when it has none).
    pub fn velocity(&self, id: InstanceId) -> (r: (i64, i64))
        ensures
            r == if self.vels().contains_key(id.0) {
                self.vels()[id.0]
            } else {
                (0i64, 0i64)
            },
    {
        match self.velocities.get(&id.0) {
            Some(v) => *v,
            None => (0, 0),
        }
    }

    /// Number of instances with an active translation.
    pub fn moving_count(&self) -> (r: usize)
        ensures
            r == self.vels().len(),
    {
        self.velocities.len()
    }

    /// Whether the instance carries an active trajectory program.
    pub fn has_trajectory(&self, id: InstanceId) -> (r: bool)
        ensures
            r == self.trajs().contains_key(id.0),
    {
        self.trajectories.contains_key(&id.0)
    }

    /// Number of instances carrying an active trajectory program.
    pub fn trajectory_count(&self) -> (r: usize)
        ensures
            r == self.trajs().len(),
    {
        self.trajectories.len()
    }

    /// The live trajectory state of an instance.
    pub fn trajectory(&self, id: InstanceId) -> (r: Option<&InstanceTrajectory>)
        ensures
            r matches Some(t) ==> self.trajs().contains_key(id.0) && *t == self.trajs()[id.0],
            r is None ==> !self.trajs().contains_key(id.0),
    {
        self.trajectories.get(&id.0)
    }

    /// Whether the palette table carries `id`.
    pub fn has_palette(&self, id: PaletteId) -> (r: bool)
        ensures
            r == self.pals().contains_key(id.0),
    {
        self.palettes.contains_key(&id.0)
    }

    /// Current entries of a palette.
    pub fn palette(&self, id: PaletteId) -> (r: Option<&[u8]>)
        ensures
            r matches Some(e) ==> self.pals().contains_key(id.0) && e@ == self.pals()[id.0]@,
            r is None ==> !self.pals().contains_key(id.0),
    {
        match self.palettes.get(&id.0) {
            Some(e) => Some(e.as_slice()),
            None => None,
        }
    }

    /// Number of distinct palettes.
    pub fn palette_count(&self) -> (r: usize)
        ensures
            r == self.pals().len(),
    {
        self.palettes.len()
    }

    /// Palette bound to an instance, if any.
    pub fn binding(&self, instance: InstanceId) -> (r: Option<PaletteId>)
        ensures
            r == if self.binds().contains_key(instance.0) {
                Some(PaletteId(self.binds()[instance.0]))
            } else {
                None::<PaletteId>
            },
    {
        match self.bindings.get(&instance.0) {
            Some(p) => Some(PaletteId(*p)),
            None => None,
        }
    }

    /// Number of bound instances.
    pub fn binding_count(&self) -> (r: usize)
        ensures
            r == self.binds().len(),
    {
        self.bindings.len()
    }

    /// Value of a persistent overlay point, if any.
    pub fn overlay_pixel(&self, x: i64, y: i64) -> (r: Option<u8>)
        ensures
            r == if self.ovl().contains_key((x, y)) {
                Some(self.ovl()[(x, y)])
            } else {
                None::<u8>
            },
    {
        match self.overlay.get(&(x, y)) {
            Some(v) => Some(*v),
            None => None,
        }
    }

    /// Number of live overlay points.
    pub fn overlay_len(&self) -> (r: usize)
        ensures
            r == self.ovl().len(),
    {
        self.overlay.len()
    }

    /// Define a sparse-overlay point; it persists until overwritten.
    pub fn set_overlay(&mut self, x: i64, y: i64, value: u8)
        requires
            old(self).wf(),
        ensures
            final(self).wf(),
            final(self).ovl() == old(self).ovl().insert((x, y), value),
            final(self).bg() == old(self).bg(),
            final(self).iv() == old(self).iv(),
            final(self).objs() == old(self).objs(),
            final(self).pals() == old(self).pals(),
            final(self).binds() == old(self).binds(),
            final(self).insts() == old(self).insts(),
            final(self).vels() == old(self).vels(),
            final(self).trajs() == old(self).trajs(),
    {
        self.overlay.insert((x, y), value);
        proof {
            lemma_wf_frame(*old(self), *self);
        }
    }

    /// Attach a trajectory program to a live instance. An empty program
    /// deactivates any trajectory. A trajectory replaces any translation of
    /// the instance. An unknown instance is `UnknownInstance`, a program with
    /// a non-canonical segment `NonCanonicalEncoding`; both leave the state
    /// unchanged. (The bound on the segment count belongs to the stream
    /// layers.)
    pub fn set_trajectory(&mut self, id: InstanceId, program: Vec<TrajectorySegment>) -> (r: Result<
        (),
        VoleError,
    >)
        requires
            old(self).wf(),
        ensures
            final(self).wf(),
            r is Ok <==> has_id(old(self).insts(), id.0) && (program@.len() == 0
                || program_canonical(program@)),
            r matches Err(e) ==> final(self).same(*old(self)) && e == if !has_id(
                old(self).insts(),
                id.0,
            ) {
                VoleError::UnknownInstance
            } else {
                VoleError::NonCanonicalEncoding
            },
            r is Ok && program@.len() == 0 ==> final(self).trajs() == old(self).trajs().remove(id.0)
                && final(self).vels() == old(self).vels(),
            r is Ok && program@.len() > 0 ==> {
                &&& final(self).vels() == old(self).vels().remove(id.0)
                &&& final(self).trajs().dom() == old(self).trajs().dom().insert(id.0)
                &&& forall|k: u32|
                    k != id.0 && #[trigger] old(self).trajs().contains_key(k) ==> final(self).trajs()[k]
                        == old(self).trajs()[k]
                &&& final(self).trajs()[id.0].started(program@)
            },
            final(self).same_tables(*old(self)),
            final(self).insts() == old(self).insts(),
    {
        if self.find(id).is_none() {
            return Err(VoleError::UnknownInstance);
        }
        if program.len() == 0 {
            self.trajectories.remove(&id.0);
            proof {
                lemma_wf_shrink_trajs(*old(self), *self);
            }
            return Ok(());
        }
        let n = program.len();
        let mut i = 0usize;
        while i < n
            invariant
                i <= n,
                n == program@.len(),
                forall|j: int| 0 <= j < i ==> seg_canonical(#[trigger] program@[j]),
                *self == *old(self),
                old(self).wf(),
                has_id(old(self).insts(), id.0),
            decreases n - i,
        {
            let c = program[i].check();
            if c.is_err() {
                return Err(VoleError::NonCanonicalEncoding);
            }
            i = i + 1;
        }
        let ghost p = program@;
        let traj = match InstanceTrajectory::start(program) {
            Some(t) => t,
            None => {
                return Err(VoleError::NonCanonicalEncoding);
            },
        };
        proof {
            assert(traj.live());
        }
        self.velocities.remove(&id.0);
        self.trajectories.insert(id.0, traj);
        proof {
            assert forall|k: u32| #[trigger] self.vels().contains_key(k) implies has_id(self.insts(), k)
                && self.vels()[k] != (0i64, 0i64) && !self.trajs().contains_key(k) by {
                assert(old(self).vels().contains_key(k));
            }
            assert forall|k: u32| #[trigger] self.trajs().contains_key(k) implies has_id(self.insts(), k)
                && self.trajs()[k].live() by {
                if k != id.0 {
                    assert(old(self).trajs().contains_key(k));
                } else {
                    let j = choose|j: int| 0 <= j < old(self).insts().len() && old(self).insts()[j].id == id;
                    assert(self.insts()[j].id.0 == k);
                }
            }
            lemma_wf_pals_binds(*old(self), *self);
            assert(self.trajs().dom() =~= old(self).trajs().dom().insert(id.0));
        }
        Ok(())
    }

    /// Replace (or declare) palette `id` with `entries`. The reserved id zero
    /// or an empty entry list is `NonCanonicalEncoding` and leaves the state
    /// unchanged. (The table and entry-count bounds belong to the stream
    /// layers.)
    pub fn set_palette(&mut self, id: PaletteId, entries: Vec<u8>) -> (r: Result<(), VoleError>)
        requires
            old(self).wf(),
        ensures
            final(self).wf(),
            r is Ok <==> id.0 != 0 && entries@.len() > 0,
            r matches Err(e) ==> e == VoleError::NonCanonicalEncoding && final(self).pals() == old(
                self,
            ).pals(),
            r is Ok ==> final(self).pals() == old(self).pals().insert(id.0, entries),
            final(self).bg() == old(self).bg(),
            final(self).iv() == old(self).iv(),
            final(self).objs() == old(self).objs(),
            final(self).ovl() == old(self).ovl(),
            final(self).binds() == old(self).binds(),
            final(self).insts() == old(self).insts(),
            final(self).vels() == old(self).vels(),
            final(self).trajs() == old(self).trajs(),
    {
        if id.0 == 0 || entries.len() == 0 {
            return Err(VoleError::NonCanonicalEncoding);
        }
        self.palettes.insert(id.0, entries);
        proof {
            assert forall|k: u32| #[trigger] self.pals().contains_key(k) implies k != 0
                && self.pals()[k]@.len() > 0 by {
                if k != id.0 {
                    assert(old(self).pals().contains_key(k));
                }
            }
            assert forall|k: u32| #[trigger] self.binds().contains_key(k) implies has_id(self.insts(), k)
                && self.pals().contains_key(self.binds()[k]) by {
                assert(old(self).binds().contains_key(k));
            }
            lemma_wf_motion(*old(self), *self);
        }
        Ok(())
    }

    /// Bind a live instance to a declared palette; `PaletteId::NONE` unbinds.
    /// An unknown instance is `UnknownInstance`, an undeclared palette
    /// `UnknownPalette`; both leave the state unchanged.
    pub fn bind_palette(&mut self, instance: InstanceId, palette: PaletteId) -> (r: Result<
        (),
        VoleError,
    >)
        requires
            old(self).wf(),
        ensures
            final(self).wf(),
            r is Ok <==> has_id(old(self).insts(), instance.0) && (palette.0 == 0 || old(
                self,
            ).pals().contains_key(palette.0)),
            r matches Err(e) ==> final(self).binds() == old(self).binds() && e == if !has_id(
                old(self).insts(),
                instance.0,
            ) {
                VoleError::UnknownInstance
            } else {
                VoleError::UnknownPalette
            },
            r is Ok ==> final(self).binds() == if palette.0 == 0 {
                old(self).binds().remove(instance.0)
            } else {
                old(self).binds().insert(instance.0, palette.0)
            },
            final(self).bg() == old(self).bg(),
            final(self).iv() == old(self).iv(),
            final(self).objs() == old(self).objs(),
            final(self).ovl() == old(self).ovl(),
            final(self).pals() == old(self).pals(),
            final(self).insts() == old(self).insts(),
            final(self).vels() == old(self).vels(),
            final(self).trajs() == old(self).trajs(),
    {
        if self.find(instance).is_none() {
            return Err(VoleError::UnknownInstance);
        }
        if palette.0 == 0 {
            self.bindings.remove(&instance.0);
        } else {
            if !self.palettes.contains_key(&palette.0) {
                return Err(VoleError::UnknownPalette);
            }
            self.bindings.insert(instance.0, palette.0);
        }
        proof {
            assert forall|k: u32| #[trigger] self.binds().contains_key(k) implies has_id(self.insts(), k)
                && self.pals().contains_key(self.binds()[k]) by {
                if k != instance.0 {
                    assert(old(self).binds().contains_key(k));
                }
            }
            assert forall|k: u32| #[trigger] self.pals().contains_key(k) implies k != 0
                && self.pals()[k]@.len() > 0 by {
                assert(old(self).pals().contains_key(k));
            }
            lemma_wf_motion(*old(self), *self);
        }
        Ok(())
    }

    /// Patch palette entries with `(index, value)` pairs in strictly
    /// ascending index order; every index must lie inside the palette. The
    /// first fault decides the error (`NonCanonicalEncoding` for an index not
    /// above its predecessor, `OutOfBounds` for one past the palette) and the
    /// palette is left untouched; an undeclared palette is `UnknownPalette`.
    pub fn patch_palette(&mut self, id: PaletteId, changes: &[(u8, u8)]) -> (r: Result<(), VoleError>)
        requires
            old(self).wf(),
        ensures
            final(self).wf(),
            !old(self).pals().contains_key(id.0) ==> r == Err::<(), VoleError>(VoleError::UnknownPalette),
            old(self).pals().contains_key(id.0) ==> {
                let len = old(self).pals()[id.0]@.len();
                &&& r is Ok <==> patch_ok(changes@, len)
                &&& r matches Err(e) ==> first_patch_fault(changes@, len, e)
            },
            r is Err ==> final(self).pals() == old(self).pals(),
            r is Ok ==> {
                &&& final(self).pals().dom() == old(self).pals().dom()
                &&& final(self).pals()[id.0]@ == apply_patch(old(self).pals()[id.0]@, changes@)
                &&& forall|k: u32|
                    k != id.0 && #[trigger] old(self).pals().contains_key(k) ==> final(self).pals()[k]
                        == old(self).pals()[k]
            },
            final(self).bg() == old(self).bg(),
            final(self).iv() == old(self).iv(),
            final(self).objs() == old(self).objs(),
            final(self).ovl() == old(self).ovl(),
            final(self).binds() == old(self).binds(),
            final(self).insts() == old(self).insts(),
            final(self).vels() == old(self).vels(),
            final(self).trajs() == old(self).trajs(),
    {
        let len = match self.palettes.get(&id.0) {
            Some(e) => e.len(),
            None => {
                return Err(VoleError::UnknownPalette);
            },
        };
        let ghost glen = len as nat;
        let n = changes.len();
        let mut k = 0usize;
        while k < n
            invariant
                k <= n,
                n == changes@.len(),
                forall|j: int| 0 <= j < k ==> #[trigger] patch_fault(changes@, glen, j) is None,
                glen == len,
                *self == *old(self),
                old(self).wf(),
                old(self).pals().contains_key(id.0),
                glen == old(self).pals()[id.0]@.len(),
            decreases n - k,
        {
            let (idx, _v) = changes[k];
            if k > 0 && idx <= changes[k - 1].0 {
                proof {
                    assert(patch_fault(changes@, glen, k as int) == Some(VoleError::NonCanonicalEncoding));
                }
                return Err(VoleError::NonCanonicalEncoding);
            }
            if (idx as usize) >= len {
                proof {
                    assert(patch_fault(changes@, glen, k as int) == Some(VoleError::OutOfBounds));
                }
                return Err(VoleError::OutOfBounds);
            }
            k = k + 1;
        }
        let mut entries = match self.palettes.remove(&id.0) {
            Some(e) => e,
            None => {
                return Err(VoleError::UnknownPalette);
            },
        };
        let ghost orig = entries@;
        let mut k = 0usize;
        while k < n
            invariant
                k <= n,
                n == changes@.len(),
                orig.len() == glen,
                patch_ok(changes@, glen),
                entries@ == apply_patch(orig, changes@.subrange(0, k as int)),
                entries@.len() == glen,
            decreases n - k,
        {
            let (idx, v) = changes[k];
            proof {
                assert(patch_fault(changes@, glen, k as int) is None);
                assert(changes@.subrange(0, k + 1).drop_last() =~= changes@.subrange(0, k as int));
            }
            entries.set(idx as usize, v);
            k = k + 1;
        }
        proof {
            assert(changes@.subrange(0, n as int) =~= changes@);
        }
        self.palettes.insert(id.0, entries);
        proof {
            assert forall|k: u32| #[trigger] self.pals().contains_key(k) implies k != 0
                && self.pals()[k]@.len() > 0 by {
                assert(old(self).pals().contains_key(k));
            }
            assert forall|k: u32| #[trigger] self.binds().contains_key(k) implies has_id(self.insts(), k)
                && self.pals().contains_key(self.binds()[k]) by {
                assert(old(self).binds().contains_key(k));
            }
            lemma_wf_motion(*old(self), *self);
            assert(self.pals().dom() =~= old(self).pals().dom());
        }
        Ok(())
    }

    /// Set a batch of overlay points given in canonical (strictly ascending
    /// coordinate) order; the order is validated before any point is
    /// applied, and a non-canonical batch is `NonCanonicalEncoding` with the
    /// overlay unchanged.
    pub fn overlay_batch(&mut self, pts: &[(i64, i64, u8)]) -> (r: Result<(), VoleError>)
        requires
            old(self).wf(),
        ensures
            final(self).wf(),
            r is Ok <==> overlay_canonical(pts@),
            r matches Err(e) ==> e == VoleError::NonCanonicalEncoding,
            final(self).ovl() == if r is Ok {
                apply_overlay(old(self).ovl(), pts@)
            } else {
                old(self).ovl()
            },
            final(self).bg() == old(self).bg(),
            final(self).iv() == old(self).iv(),
            final(self).objs() == old(self).objs(),
            final(self).pals() == old(self).pals(),
            final(self).binds() == old(self).binds(),
            final(self).insts() == old(self).insts(),
            final(self).vels() == old(self).vels(),
            final(self).trajs() == old(self).trajs(),
    {
        let n = pts.len();
        let mut k = 1usize;
        while k < n
            invariant
                1 <= k,
                n == pts@.len(),
                forall|j: int| 0 < j < k && j < n ==> key_lt((pts@[j - 1].0, pts@[j - 1].1), (#[trigger] pts@[j].0, pts@[j].1)),
                *self == *old(self),
                old(self).wf(),
            decreases n - k,
        {
            let (px, py, _) = pts[k - 1];
            let (x, y, _) = pts[k];
            if !(px < x || (px == x && py < y)) {
                return Err(VoleError::NonCanonicalEncoding);
            }
            k = k + 1;
        }
        let mut k = 0usize;
        while k < n
            invariant
                k <= n,
                n == pts@.len(),
                self.ovl() == apply_overlay(old(self).ovl(), pts@.subrange(0, k as int)),
                self.bg() == old(self).bg(),
                self.iv() == old(self).iv(),
                self.objs() == old(self).objs(),
                self.pals() == old(self).pals(),
                self.binds() == old(self).binds(),
                self.insts() == old(self).insts(),
                self.vels() == old(self).vels(),
                self.trajs() == old(self).trajs(),
            decreases n - k,
        {
            let (x, y, v) = pts[k];
            proof {
                assert(pts@.subrange(0, k + 1).drop_last() =~= pts@.subrange(0, k as int));
            }
            self.overlay.insert((x, y), v);
            k = k + 1;
        }
        proof {
            assert(pts@.subrange(0, n as int) =~= pts@);
            lemma_wf_frame(*old(self), *self);
        }
        Ok(())
    }

    /// Apply every active translation exactly once, in paint order:
    /// `x += vx; y += vy` with checked arithmetic. An overflow is
    /// `ArithmeticOverflow`; instances before the failing one have moved, the
    /// failing one keeps whatever part of the step fit (its column), later
    /// ones are untouched.
    pub fn advance_translations(&mut self) -> (r: Result<(), VoleError>)
        requires
            old(self).wf(),
        ensures
            final(self).wf(),
            r is Ok <==> forall|i: int|
                0 <= i < old(self).insts().len() ==> #[trigger] translate(old(self).insts()[i], old(self).vels()) is Some,
            final(self).insts().len() == old(self).insts().len(),
            r is Ok ==> forall|i: int|
                0 <= i < old(self).insts().len() ==> translate(old(self).insts()[i], old(self).vels())
                    == Some(#[trigger] final(self).insts()[i]),
            r is Err ==> r == Err::<(), VoleError>(VoleError::ArithmeticOverflow) && exists|k: int|
                0 <= k < old(self).insts().len() && translate(old(self).insts()[k], old(self).vels())
                    is None && final(self).insts()[k] == translate_partial(old(self).insts()[k], old(self).vels())
                    && (forall|j: int|
                    0 <= j < k ==> translate(old(self).insts()[j], old(self).vels()) == Some(
                        #[trigger] final(self).insts()[j],
                    )) && (forall|j: int|
                    k < j < old(self).insts().len() ==> #[trigger] final(self).insts()[j] == old(self).insts()[j]),
            final(self).same_tables(*old(self)),
            final(self).vels() == old(self).vels(),
            final(self).trajs() == old(self).trajs(),
    {
        let n = self.instances.len();
        let mut i = 0usize;
        while i < n
            invariant
                i <= n,
                n == old(self).insts().len(),
                self.insts().len() == n,
                forall|j: int| 0 <= j < i ==> translate(old(self).insts()[j], old(self).vels()) == Some(#[trigger] self.insts()[j]),
                forall|j: int| i <= j < n ==> #[trigger] self.insts()[j] == old(self).insts()[j],
                self.same_tables(*old(self)),
                self.vels() == old(self).vels(),
                self.trajs() == old(self).trajs(),
                old(self).wf(),
            decreases n - i,
        {
            let inst = self.instances[i];
            let ghost before = self.instances@;
            match self.velocities.get(&inst.id.0) {
                None => {},
                Some(v) => {
                    let (vx, vy) = *v;
                    if !(vx == 0 && vy == 0) {
                        match inst.x.checked_add(vx) {
                            None => {
                                proof {
                                    lemma_wf_same_ids(*old(self), *self);
                                    assert(translate(old(self).insts()[i as int], old(self).vels()) is None);
                                    assert(self.insts()[i as int] == translate_partial(old(self).insts()[i as int], old(self).vels()));
                                }
                                return Err(VoleError::ArithmeticOverflow);
                            },
                            Some(nx) => {
                                self.instances.set(i, Instance { x: nx, ..inst });
                                match inst.y.checked_add(vy) {
                                    None => {
                                        proof {
                                            assert forall|j: int| i < j < n implies #[trigger] self.insts()[j] == old(self).insts()[j] by {
                                                assert(self.insts()[j] == before[j]);
                                            }
                                            assert forall|j: int| 0 <= j < i implies translate(old(self).insts()[j], old(self).vels()) == Some(#[trigger] self.insts()[j]) by {
                                                assert(self.insts()[j] == before[j]);
                                            }
                                            lemma_wf_same_ids(*old(self), *self);
                                            assert(translate(old(self).insts()[i as int], old(self).vels()) is None);
                                            assert(self.insts()[i as int] == translate_partial(old(self).insts()[i as int], old(self).vels()));
                                        }
                                        return Err(VoleError::ArithmeticOverflow);
                                    },
                                    Some(ny) => {
                                        self.instances.set(i, Instance { x: nx, y: ny, ..inst });
                                    },
                                }
                            },
                        }
                    }
                },
            }
            i = i + 1;
        }
        proof {
            lemma_wf_same_ids(*old(self), *self);
        }
        Ok(())
    }

    /// Step every active trajectory exactly once, in paint order: the
    /// position advances by the current velocity, an acceleration segment
    /// then gains its acceleration, and a segment whose advances are spent
    /// hands over to the next one; a program whose final segment is spent
    /// deactivates. Any overflow is `ArithmeticOverflow` and leaves the state
    /// unchanged.
    pub fn advance_trajectories(&mut self) -> (r: Result<(), VoleError>)
        requires
            old(self).wf(),
        ensures
            final(self).wf(),
            r is Ok <==> forall|i: int|
                0 <= i < old(self).insts().len() && old(self).trajs().contains_key(
                    #[trigger] old(self).insts()[i].id.0,
                ) ==> traj_step_ok(old(self).insts()[i], old(self).trajs()[old(self).insts()[i].id.0]),
            r matches Err(e) ==> e == VoleError::ArithmeticOverflow && final(self).same(*old(self)),
            r is Ok ==> {
                &&& final(self).insts().len() == old(self).insts().len()
                &&& forall|k: u32| #[trigger] final(self).trajs().contains_key(k) ==> old(self).trajs().contains_key(k)
                &&& forall|i: int| 0 <= i < old(self).insts().len() ==> {
                    let inst = old(self).insts()[i];
                    let id = inst.id.0;
                    if old(self).trajs().contains_key(id) {
                        let t = old(self).trajs()[id];
                        &&& #[trigger] final(self).insts()[i] == traj_moved(inst, t)
                        &&& match traj_next(t, traj_vel_after(t)->0) {
                            None => !final(self).trajs().contains_key(id),
                            Some((sg, rm, v)) => final(self).trajs().contains_key(id) && final(self).trajs()[id].prog() == t.prog()
                                && final(self).trajs()[id].seg_ix() == sg && final(self).trajs()[id].rem() == rm
                                && final(self).trajs()[id].vel() == v,
                        }
                    } else {
                        final(self).insts()[i] == inst
                    }
                }
            },
            final(self).same_tables(*old(self)),
            final(self).vels() == old(self).vels(),
    {
        let n = self.instances.len();
        let mut new_insts: Vec<Instance> = Vec::new();
        let mut new_trajs: BTreeMap<u32, InstanceTrajectory> = BTreeMap::new();
        let mut i = 0usize;
        while i < n
            invariant
                i <= n,
                n == self.insts().len(),
                *self == *old(self),
                old(self).wf(),
                new_insts@.len() == i,
                forall|k: u32| #[trigger] new_trajs@.contains_key(k) ==> exists|j: int| 0 <= j < i && self.insts()[j].id.0 == k,
                forall|k: u32| #[trigger] new_trajs@.contains_key(k) ==> self.trajs().contains_key(k) && new_trajs@[k].live(),
                forall|j: int| 0 <= j < i && self.trajs().contains_key(#[trigger] self.insts()[j].id.0) ==> traj_step_ok(self.insts()[j], self.trajs()[self.insts()[j].id.0]),
                forall|j: int| 0 <= j < i ==> {
                    let inst = self.insts()[j];
                    let id = inst.id.0;
                    if self.trajs().contains_key(id) {
                        let t = self.trajs()[id];
                        &&& #[trigger] new_insts@[j] == traj_moved(inst, t)
                        &&& match traj_next(t, traj_vel_after(t)->0) {
                            None => !new_trajs@.contains_key(id),
                            Some((sg, rm, v)) => new_trajs@.contains_key(id) && new_trajs@[id].prog() == t.prog()
                                && new_trajs@[id].seg_ix() == sg && new_trajs@[id].rem() == rm
                                && new_trajs@[id].vel() == v,
                        }
                    } else {
                        new_insts@[j] == inst
                    }
                },
            decreases n - i,
        {
            let inst = self.instances[i];
            let ghost gi = i as int;
            let ghost prev_insts = new_insts@;
            let ghost prev_trajs = new_trajs@;
            proof {
                assert forall|j: int| 0 <= j < gi implies self.insts()[j].id.0 != inst.id.0 by {
                    assert(self.insts()[j].id != self.insts()[gi].id);
                }
                assert(!prev_trajs.contains_key(inst.id.0));
            }
            match self.trajectories.get(&inst.id.0) {
                None => {
                    new_insts.push(inst);
                },
                Some(t) => {
                    proof {
                        assert(self.trajs().contains_key(inst.id.0));
                        assert(t.live());
                        assert(program_canonical(t.prog()));
                    }
                    let nx = match inst.x.checked_add(t.vx) {
                        Some(v) => v,
                        None => {
                            return Err(VoleError::ArithmeticOverflow);
                        },
                    };
                    let ny = match inst.y.checked_add(t.vy) {
                        Some(v) => v,
                        None => {
                            return Err(VoleError::ArithmeticOverflow);
                        },
                    };
                    let (nvx, nvy) = match t.program[t.seg] {
                        TrajectorySegment::Linear { .. } => (t.vx, t.vy),
                        TrajectorySegment::Accel { ax, ay, .. } => {
                            let a = match t.vx.checked_add(ax) {
                                Some(v) => v,
                                None => {
                                    return Err(VoleError::ArithmeticOverflow);
                                },
                            };
                            let b = match t.vy.checked_add(ay) {
                                Some(v) => v,
                                None => {
                                    return Err(VoleError::ArithmeticOverflow);
                                },
                            };
                            (a, b)
                        },
                    };
                    proof {
                        assert(traj_vel_after(*t) == Some((nvx, nvy)));
                    }
                    new_insts.push(Instance { x: nx, y: ny, ..inst });
                    proof {
                        assert(new_insts@[gi] == traj_moved(inst, *t));
                        assert(self.insts()[gi] == inst);
                    }
                    if t.remaining > 1 {
                        let nt = InstanceTrajectory {
                            program: copy_program(t.program.as_slice()),
                            seg: t.seg,
                            remaining: t.remaining - 1,
                            vx: nvx,
                            vy: nvy,
                        };
                        proof {
                            assert(nt.live());
                            assert(traj_next(*t, (nvx, nvy)) == Some((nt.seg_ix(), nt.rem(), nt.vel())));
                        }
                        new_trajs.insert(inst.id.0, nt);
                    } else if t.seg < t.program.len() - 1 {
                        let nxt = t.program[t.seg + 1];
                        let (v0x, v0y) = match nxt {
                            TrajectorySegment::Linear { vx, vy, .. } => (vx, vy),
                            TrajectorySegment::Accel { vx0, vy0, .. } => (vx0, vy0),
                        };
                        let nt = InstanceTrajectory {
                            program: copy_program(t.program.as_slice()),
                            seg: t.seg + 1,
                            remaining: nxt.steps(),
                            vx: v0x,
                            vy: v0y,
                        };
                        proof {
                            assert(seg_canonical(t.prog()[t.seg_ix() + 1]));
                            assert(nt.live());
                            assert(traj_next(*t, (nvx, nvy)) == Some((nt.seg_ix(), nt.rem(), nt.vel())));
                        }
                        new_trajs.insert(inst.id.0, nt);
                    } else {
                        proof {
                            assert(traj_next(*t, (nvx, nvy)) is None);
                        }
                    }
                },
            }
            proof {
                assert forall|j: int| 0 <= j < gi implies #[trigger] new_insts@[j] == prev_insts[j]
                    && (new_trajs@.contains_key(self.insts()[j].id.0) == prev_trajs.contains_key(self.insts()[j].id.0))
                    && (prev_trajs.contains_key(self.insts()[j].id.0) ==> new_trajs@[self.insts()[j].id.0] == prev_trajs[self.insts()[j].id.0]) by {
                    assert(self.insts()[j].id.0 != inst.id.0);
                }
                assert forall|k: u32| #[trigger] new_trajs@.contains_key(k) implies exists|j: int| 0 <= j < gi + 1 && self.insts()[j].id.0 == k by {
                    if k != inst.id.0 {
                        assert(prev_trajs.contains_key(k));
                    } else {
                        assert(self.insts()[gi].id.0 == k);
                    }
                }
            }
            i = i + 1;
        }
        let ghost pre = *self;
        self.instances = new_insts;
        self.trajectories = new_trajs;
        proof {
            assert forall|j: int| 0 <= j < n implies (#[trigger] self.insts()[j]).id == pre.insts()[j].id
                && self.insts()[j].object_id == pre.insts()[j].object_id by {
            }
            lemma_wf_step(pre, *self);
        }
        Ok(())
    }

    /// The declared object ids, each once (the table walks them in
    /// ascending id order).
    pub fn objects(&self) -> (r: Vec<ObjectId>)
        ensures
            r@.len() == self.objs().len(),
            forall|i: int| 0 <= i < r@.len() ==> self.objs().contains_key(#[trigger] r@[i].0),
            forall|k: u32| #[trigger] self.objs().contains_key(k) ==> r@.contains(ObjectId(k)),
    {
        let mut out: Vec<ObjectId> = Vec::new();
        for kv in it: self.objects.iter()
            invariant
                out@.len() == it.index(),
                it.seq() == spec_btree_map_iter(&self.objects).remaining(),
                forall|j: int| 0 <= j < it.index() ==> #[trigger] out@[j] == ObjectId(*it.seq()[j].0),
        {
            out.push(ObjectId(*kv.0));
        }
        proof {
            let v = spec_btree_map_iter(&self.objects).remaining();
            assert forall|k: u32| #[trigger] self.objs().contains_key(k) implies out@.contains(ObjectId(k)) by {
                assert(v.contains((&k, &self.objs()[k])));
                let j = choose|j: int| 0 <= j < v.len() && v[j] == (&k, &self.objs()[k]);
                assert(out@[j] == ObjectId(k));
            }
        }
        out
    }

    /// The overlay points `(x, y, value)`, each coordinate once (the table
    /// walks them in canonical coordinate order).
    pub fn overlay_iter(&self) -> (r: Vec<(i64, i64, u8)>)
        ensures
            r@.len() == self.ovl().len(),
            forall|i: int|
                0 <= i < r@.len() ==> self.ovl().contains_key(((#[trigger] r@[i]).0, r@[i].1))
                    && self.ovl()[(r@[i].0, r@[i].1)] == r@[i].2,
            forall|x: i64, y: i64| #[trigger] self.ovl().contains_key((x, y)) ==> r@.contains(
                (x, y, self.ovl()[(x, y)]),
            ),
    {
        let mut out: Vec<(i64, i64, u8)> = Vec::new();
        for kv in it: self.overlay.iter()
            invariant
                out@.len() == it.index(),
                it.seq() == spec_btree_map_iter(&self.overlay).remaining(),
                forall|j: int|
                    0 <= j < it.index() ==> #[trigger] out@[j] == ((*it.seq()[j].0).0, (*it.seq()[j].0).1, *it.seq()[j].1),
        {
            let (k, v) = kv;
            out.push((k.0, k.1, *v));
        }
        proof {
            let v = spec_btree_map_iter(&self.overlay).remaining();
            assert forall|i: int| 0 <= i < out@.len() implies self.ovl().contains_key(((#[trigger] out@[i]).0, out@[i].1))
                && self.ovl()[(out@[i].0, out@[i].1)] == out@[i].2 by {
                assert(self.ovl().contains_key(*v[i].0));
            }
            assert forall|x: i64, y: i64| #[trigger] self.ovl().contains_key((x, y)) implies out@.contains(
                (x, y, self.ovl()[(x, y)]),
            ) by {
                assert(v.contains((&(x, y), &self.ovl()[(x, y)])));
                let j = choose|j: int| 0 <= j < v.len() && v[j] == (&(x, y), &self.ovl()[(x, y)]);
                assert(out@[j] == (x, y, self.ovl()[(x, y)]));
            }
        }
        out
    }

}

/// The invariant only depends on the instances, the per-instance tables, the
/// palette table and which objects are declared: a state that agrees on
/// those and declares at least the same objects is well-formed too.
proof fn lemma_wf_frame(a: State, b: State)
    requires
        a.wf(),
        a.insts() == b.insts(),
        a.vels() == b.vels(),
        a.trajs() == b.trajs(),
        a.pals() == b.pals(),
        a.binds() == b.binds(),
        forall|k: u32| a.objs().contains_key(k) ==> #[trigger] b.objs().contains_key(k),
    ensures
        b.wf(),
{
    assert forall|i: int| 0 <= i < b.insts().len() implies b.objs().contains_key(
        (#[trigger] b.insts()[i]).object_id.0,
    ) by {
        assert(a.objs().contains_key(a.insts()[i].object_id.0));
    }
    assert forall|k: u32| #[trigger] b.vels().contains_key(k) implies has_id(b.insts(), k)
        && b.vels()[k] != (0i64, 0i64) && !b.trajs().contains_key(k) by {
        assert(a.vels().contains_key(k));
    }
    assert forall|k: u32| #[trigger] b.trajs().contains_key(k) implies has_id(b.insts(), k)
        && b.trajs()[k].live() by {
        assert(a.trajs().contains_key(k));
    }
    assert forall|k: u32| #[trigger] b.binds().contains_key(k) implies has_id(b.insts(), k)
        && b.pals().contains_key(b.binds()[k]) by {
        assert(a.binds().contains_key(k));
    }
    assert forall|k: u32| #[trigger] b.pals().contains_key(k) implies k != 0 && b.pals()[k]@.len()
        > 0 by {
        assert(a.pals().contains_key(k));
    }
}

/// A state whose instance list changed keeps the invariant when the new list
/// has distinct ids, paints only declared objects, and keeps every id that
/// was live.
proof fn lemma_wf_reinst(a: State, b: State)
    requires
        a.wf(),
        ids_unique(b.insts()),
        forall|i: int|
            0 <= i < b.insts().len() ==> b.objs().contains_key((#[trigger] b.insts()[i]).object_id.0),
        forall|k: u32| has_id(a.insts(), k) ==> #[trigger] has_id(b.insts(), k),
        a.vels() == b.vels(),
        a.trajs() == b.trajs(),
        a.pals() == b.pals(),
        a.binds() == b.binds(),
    ensures
        b.wf(),
{
    assert forall|k: u32| #[trigger] b.vels().contains_key(k) implies has_id(b.insts(), k)
        && b.vels()[k] != (0i64, 0i64) && !b.trajs().contains_key(k) by {
        assert(a.vels().contains_key(k));
    }
    assert forall|k: u32| #[trigger] b.trajs().contains_key(k) implies has_id(b.insts(), k)
        && b.trajs()[k].live() by {
        assert(a.trajs().contains_key(k));
    }
    assert forall|k: u32| #[trigger] b.binds().contains_key(k) implies has_id(b.insts(), k)
        && b.pals().contains_key(b.binds()[k]) by {
        assert(a.binds().contains_key(k));
    }
    assert forall|k: u32| #[trigger] b.pals().contains_key(k) implies k != 0 && b.pals()[k]@.len()
        > 0 by {
        assert(a.pals().contains_key(k));
    }
}

/// The motion and object parts of the invariant carry over to a state with
/// the same instances, objects, translations and trajectories.
proof fn lemma_wf_motion(a: State, b: State)
    requires
        a.wf(),
        a.insts() == b.insts(),
        a.objs() == b.objs(),
        a.vels() == b.vels(),
        a.trajs() == b.trajs(),
        forall|k: u32| #[trigger]
            b.binds().contains_key(k) ==> has_id(b.insts(), k) && b.pals().contains_key(b.binds()[k]),
        forall|k: u32| #[trigger] b.pals().contains_key(k) ==> k != 0 && b.pals()[k]@.len() > 0,
    ensures
        b.wf(),
{
    assert forall|i: int| 0 <= i < b.insts().len() implies b.objs().contains_key(
        (#[trigger] b.insts()[i]).object_id.0,
    ) by {
        assert(a.objs().contains_key(a.insts()[i].object_id.0));
    }
    assert forall|k: u32| #[trigger] b.vels().contains_key(k) implies has_id(b.insts(), k)
        && b.vels()[k] != (0i64, 0i64) && !b.trajs().contains_key(k) by {
        assert(a.vels().contains_key(k));
    }
    assert forall|k: u32| #[trigger] b.trajs().contains_key(k) implies has_id(b.insts(), k)
        && b.trajs()[k].live() by {
        assert(a.trajs().contains_key(k));
    }
}

/// The palette and object parts of the invariant carry over to a state with
/// the same instances, objects, palettes and bindings.
proof fn lemma_wf_pals_binds(a: State, b: State)
    requires
        a.wf(),
        a.insts() == b.insts(),
        a.objs() == b.objs(),
        a.pals() == b.pals(),
        a.binds() == b.binds(),
        forall|k: u32| #[trigger]
            b.vels().contains_key(k) ==> has_id(b.insts(), k) && b.vels()[k] != (0i64, 0i64)
                && !b.trajs().contains_key(k),
        forall|k: u32| #[trigger]
            b.trajs().contains_key(k) ==> has_id(b.insts(), k) && b.trajs()[k].live(),
    ensures
        b.wf(),
{
    assert forall|i: int| 0 <= i < b.insts().len() implies b.objs().contains_key(
        (#[trigger] b.insts()[i]).object_id.0,
    ) by {
        assert(a.objs().contains_key(a.insts()[i].object_id.0));
    }
    assert forall|k: u32| #[trigger] b.binds().contains_key(k) implies has_id(b.insts(), k)
        && b.pals().contains_key(b.binds()[k]) by {
        assert(a.binds().contains_key(k));
    }
    assert forall|k: u32| #[trigger] b.pals().contains_key(k) implies k != 0 && b.pals()[k]@.len()
        > 0 by {
        assert(a.pals().contains_key(k));
    }
}

/// Dropping trajectories keeps the invariant.
proof fn lemma_wf_shrink_trajs(a: State, b: State)
    requires
        a.wf(),
        a.insts() == b.insts(),
        a.objs() == b.objs(),
        a.pals() == b.pals(),
        a.binds() == b.binds(),
        a.vels() == b.vels(),
        forall|k: u32| #[trigger]
            b.trajs().contains_key(k) ==> a.trajs().contains_key(k) && b.trajs()[k] == a.trajs()[k],
    ensures
        b.wf(),
{
    assert forall|k: u32| #[trigger] b.vels().contains_key(k) implies has_id(b.insts(), k)
        && b.vels()[k] != (0i64, 0i64) && !b.trajs().contains_key(k) by {
        assert(a.vels().contains_key(k));
    }
    assert forall|k: u32| #[trigger] b.trajs().contains_key(k) implies has_id(b.insts(), k)
        && b.trajs()[k].live() by {
        assert(a.trajs().contains_key(k));
    }
    lemma_wf_pals_binds(a, b);
}

/// Copy of a trajectory program.
fn copy_program(p: &[TrajectorySegment]) -> (r: Vec<TrajectorySegment>)
    ensures
        r@ == p@,
{
    let mut out: Vec<TrajectorySegment> = Vec::new();
    let n = p.len();
    let mut i = 0usize;
    while i < n
        invariant
            i <= n,
            n == p@.len(),
            out@ == p@.subrange(0, i as int),
        decreases n - i,
    {
        out.push(p[i]);
        proof {
            assert(out@ =~= p@.subrange(0, i + 1));
        }
        i = i + 1;
    }
    proof {
        assert(out@ =~= p@);
    }
    out
}

/// Moving instances (same ids and objects at each position) keeps the
/// invariant.
proof fn lemma_wf_same_ids(a: State, b: State)
    requires
        a.wf(),
        a.insts().len() == b.insts().len(),
        forall|j: int|
            0 <= j < a.insts().len() ==> (#[trigger] b.insts()[j]).id == a.insts()[j].id
                && b.insts()[j].object_id == a.insts()[j].object_id,
        a.objs() == b.objs(),
        a.vels() == b.vels(),
        a.trajs() == b.trajs(),
        a.pals() == b.pals(),
        a.binds() == b.binds(),
    ensures
        b.wf(),
{
    assert forall|k: u32| has_id(a.insts(), k) implies #[trigger] has_id(b.insts(), k) by {
        let j = choose|j: int| 0 <= j < a.insts().len() && (#[trigger] a.insts()[j]).id.0 == k;
        assert(b.insts()[j].id.0 == k);
    }
    assert forall|i: int, j: int|
        0 <= i < b.insts().len() && 0 <= j < b.insts().len() && i != j implies (#[trigger] b.insts()[i]).id
        != (#[trigger] b.insts()[j]).id by {
        assert(a.insts()[i].id != a.insts()[j].id);
    }
    assert forall|i: int| 0 <= i < b.insts().len() implies b.objs().contains_key(
        (#[trigger] b.insts()[i]).object_id.0,
    ) by {
        assert(a.objs().contains_key(a.insts()[i].object_id.0));
    }
    lemma_wf_reinst(a, b);
}

/// After a trajectory step (same ids and objects at each position, live
/// trajectories on a subset of the old keys) the invariant holds.
proof fn lemma_wf_step(a: State, b: State)
    requires
        a.wf(),
        a.insts().len() == b.insts().len(),
        forall|j: int|
            0 <= j < a.insts().len() ==> (#[trigger] b.insts()[j]).id == a.insts()[j].id
                && b.insts()[j].object_id == a.insts()[j].object_id,
        a.objs() == b.objs(),
        a.vels() == b.vels(),
        a.pals() == b.pals(),
        a.binds() == b.binds(),
        forall|k: u32| #[trigger] b.trajs().contains_key(k) ==> a.trajs().contains_key(k) && b.trajs()[k].live(),
    ensures
        b.wf(),
{
    assert forall|k: u32| has_id(a.insts(), k) implies #[trigger] has_id(b.insts(), k) by {
        let j = choose|j: int| 0 <= j < a.insts().len() && (#[trigger] a.insts()[j]).id.0 == k;
        assert(b.insts()[j].id.0 == k);
    }
    assert forall|i: int, j: int|
        0 <= i < b.insts().len() && 0 <= j < b.insts().len() && i != j implies (#[trigger] b.insts()[i]).id
        != (#[trigger] b.insts()[j]).id by {
        assert(a.insts()[i].id != a.insts()[j].id);
    }
    assert forall|i: int| 0 <= i < b.insts().len() implies b.objs().contains_key(
        (#[trigger] b.insts()[i]).object_id.0,
    ) by {
        assert(a.objs().contains_key(a.insts()[i].object_id.0));
    }
    assert forall|k: u32| #[trigger] b.vels().contains_key(k) implies has_id(b.insts(), k)
        && b.vels()[k] != (0i64, 0i64) && !b.trajs().contains_key(k) by {
        assert(a.vels().contains_key(k));
        assert(has_id(a.insts(), k));
    }
    assert forall|k: u32| #[trigger] b.trajs().contains_key(k) implies has_id(b.insts(), k)
        && b.trajs()[k].live() by {
        assert(a.trajs().contains_key(k));
        assert(has_id(a.insts(), k));
    }
    assert forall|k: u32| #[trigger] b.binds().contains_key(k) implies has_id(b.insts(), k)
        && b.pals().contains_key(b.binds()[k]) by {
        assert(a.binds().contains_key(k));
        assert(has_id(a.insts(), k));
    }
    assert forall|k: u32| #[trigger] b.pals().contains_key(k) implies k != 0 && b.pals()[k]@.len()
        > 0 by {
        assert(a.pals().contains_key(k));
    }
}

/// Where an instance at `(x, y)` stands after `k` trajectory advances,
/// stepped one at a time as [`State::advance_trajectories`] steps them:
/// each advance moves by the current velocity, then the velocity gains the
/// segment's acceleration and the segment hands over when spent. `None`
/// when a step leaves `i64` or the program ends before `k` advances.
pub open spec fn walk_from(
    p: Seq<TrajectorySegment>,
    s: int,
    rem: u64,
    v: (i64, i64),
    x: i64,
    y: i64,
    k: nat,
) -> Option<(i64, i64)>
    decreases k,
{
    if k == 0 {
        Some((x, y))
    } else if !(0 <= s < p.len()) || !(fits64(x + v.0) && fits64(y + v.1)) {
        None
    } else {
        let nx = (x + v.0) as i64;
        let ny = (y + v.1) as i64;
        if k == 1 {
            Some((nx, ny))
        } else {
            let v2 = match p[s] {
                TrajectorySegment::Linear { .. } => Some(v),
                TrajectorySegment::Accel { ax, ay, .. } => if fits64(v.0 + ax) && fits64(v.1 + ay) {
                    Some(((v.0 + ax) as i64, (v.1 + ay) as i64))
                } else {
                    None
                },
            };
            match v2 {
                None => None,
                Some(v2) => if rem > 1 {
                    walk_from(p, s, (rem - 1) as u64, v2, nx, ny, (k - 1) as nat)
                } else if s + 1 < p.len() {
                    walk_from(p, s + 1, seg_steps(p[s + 1]), seg_v0(p[s + 1]), nx, ny, (k - 1) as nat)
                } else {
                    None
                },
            }
        }
    }
}

/// Closed-form displacement of a segment after `m` advances, per axis.
pub open spec fn disp(sg: TrajectorySegment, m: int) -> (int, int) {
    match sg {
        TrajectorySegment::Linear { vx, vy, .. } => (m * vx, m * vy),
        TrajectorySegment::Accel { vx0, vy0, ax, ay, .. } => (
            m * vx0 + ((m * (m - 1)) / 2) * ax,
            m * vy0 + ((m * (m - 1)) / 2) * ay,
        ),
    }
}

/// Velocity of a segment after `m` advances.
pub open spec fn vel_at(sg: TrajectorySegment, m: int) -> (int, int) {
    match sg {
        TrajectorySegment::Linear { vx, vy, .. } => (vx as int, vy as int),
        TrajectorySegment::Accel { vx0, vy0, ax, ay, .. } => (vx0 + m * ax, vy0 + m * ay),
    }
}

/// One advance adds the current velocity to the displacement.
proof fn lemma_disp_step(sg: TrajectorySegment, m: int)
    requires
        m >= 0,
    ensures
        disp(sg, m + 1).0 == disp(sg, m).0 + vel_at(sg, m).0,
        disp(sg, m + 1).1 == disp(sg, m).1 + vel_at(sg, m).1,
{
    assert(((m + 1) * m) / 2 == (m * (m - 1)) / 2 + m) by (nonlinear_arith)
        requires
            m >= 0,
    ;
    match sg {
        TrajectorySegment::Linear { vx, vy, .. } => {
            assert((m + 1) * vx == m * vx + vx) by (nonlinear_arith);
            assert((m + 1) * vy == m * vy + vy) by (nonlinear_arith);
        },
        TrajectorySegment::Accel { vx0, vy0, ax, ay, .. } => {
            let t0 = (m * (m - 1)) / 2;
            let t1 = ((m + 1) * m) / 2;
            assert(t1 * ax == t0 * ax + m * ax) by (nonlinear_arith)
                requires
                    t1 == t0 + m,
            ;
            assert(t1 * ay == t0 * ay + m * ay) by (nonlinear_arith)
                requires
                    t1 == t0 + m,
            ;
            assert((m + 1) * vx0 == m * vx0 + vx0) by (nonlinear_arith);
            assert((m + 1) * vy0 == m * vy0 + vy0) by (nonlinear_arith);
        },
    }
}

/// A defined closed-form displacement is the closed form.
proof fn lemma_seg_delta_is_disp(sg: TrajectorySegment, n: nat)
    requires
        seg_delta(sg, n) is Some,
    ensures
        seg_delta(sg, n)->Some_0.0 == disp(sg, n as int).0,
        seg_delta(sg, n)->Some_0.1 == disp(sg, n as int).1,
{
    if n == 0 {
        match sg {
            TrajectorySegment::Linear { vx, vy, .. } => {
                assert(0 * vx == 0 && 0 * vy == 0) by (nonlinear_arith);
            },
            TrajectorySegment::Accel { vx0, vy0, ax, ay, .. } => {
                assert(0 * vx0 + ((0 * (0 - 1)) / 2) * ax == 0) by (nonlinear_arith);
                assert(0 * vy0 + ((0 * (0 - 1)) / 2) * ay == 0) by (nonlinear_arith);
            },
        }
    }
}

/// Stepping from `m` advances into segment `s` reaches what the closed form
/// gives from the segment's start.
proof fn lemma_walk_closed(
    p: Seq<TrajectorySegment>,
    s: int,
    m: int,
    xs: i64,
    ys: i64,
    x: i64,
    y: i64,
    v: (i64, i64),
    k: nat,
)
    requires
        program_canonical(p),
        0 <= s < p.len(),
        0 <= m < seg_steps(p[s]),
        k >= 1,
        m + k <= u64::MAX,
        x == xs + disp(p[s], m).0,
        y == ys + disp(p[s], m).1,
        v.0 == vel_at(p[s], m).0,
        v.1 == vel_at(p[s], m).1,
        walk_from(p, s, (seg_steps(p[s]) - m) as u64, v, x, y, k) is Some,
        pos_from(p, s, xs, ys, (m + k) as u64) is Some,
    ensures
        walk_from(p, s, (seg_steps(p[s]) - m) as u64, v, x, y, k) == pos_from(p, s, xs, ys, (m + k) as u64),
    decreases k,
{
    let sg = p[s];
    let st = seg_steps(sg);
    lemma_disp_step(sg, m);
    let nx = (x + v.0) as i64;
    let ny = (y + v.1) as i64;
    let left = (m + k) as u64;
    if k == 1 {
        let n = m + 1;
        lemma_seg_delta_is_disp(sg, n as nat);
    } else {
        let rem = (st - m) as u64;
        if rem > 1 {
            let v2: (i64, i64) = match sg {
                TrajectorySegment::Linear { .. } => v,
                TrajectorySegment::Accel { ax, ay, .. } => ((v.0 + ax) as i64, (v.1 + ay) as i64),
            };
            match sg {
                TrajectorySegment::Linear { .. } => {},
                TrajectorySegment::Accel { ax, ay, .. } => {
                    assert(vel_at(sg, m + 1).0 == vel_at(sg, m).0 + ax) by (nonlinear_arith)
                        requires
                            vel_at(sg, m + 1).0 == sg->vx0 + (m + 1) * ax,
                            vel_at(sg, m).0 == sg->vx0 + m * ax,
                    ;
                    assert(vel_at(sg, m + 1).1 == vel_at(sg, m).1 + ay) by (nonlinear_arith)
                        requires
                            vel_at(sg, m + 1).1 == sg->vy0 + (m + 1) * ay,
                            vel_at(sg, m).1 == sg->vy0 + m * ay,
                    ;
                },
            }
            assert((st - (m + 1)) as u64 == (rem - 1) as u64);
            lemma_walk_closed(p, s, m + 1, xs, ys, nx, ny, v2, (k - 1) as nat);
            assert((m + 1 + (k - 1)) as u64 == left);
        } else {
            assert(m + 1 == st);
            assert(s + 1 < p.len());
            let n = st as nat;
            assert(seg_delta(sg, n) is Some);
            lemma_seg_delta_is_disp(sg, n);
            let nsg = p[s + 1];
            assert(seg_canonical(nsg));
            assert(disp(nsg, 0).0 == 0 && disp(nsg, 0).1 == 0) by (nonlinear_arith)
                requires
                    disp(nsg, 0) == (match nsg {
                        TrajectorySegment::Linear { vx, vy, .. } => (0 * vx, 0 * vy),
                        TrajectorySegment::Accel { vx0, vy0, ax, ay, .. } => (
                            0 * vx0 + ((0 * (0 - 1)) / 2) * ax,
                            0 * vy0 + ((0 * (0 - 1)) / 2) * ay,
                        ),
                    }),
            ;
            match nsg {
                TrajectorySegment::Linear { .. } => {},
                TrajectorySegment::Accel { ax, ay, .. } => {
                    assert(0 * ax == 0 && 0 * ay == 0) by (nonlinear_arith);
                },
            }
            lemma_walk_closed(p, s + 1, 0, nx, ny, nx, ny, seg_v0(nsg), (k - 1) as nat);
        }
    }
}

/// Stepping a freshly attached trajectory one advance at a time agrees
/// with the closed-form position: wherever both the stepped walk and
/// [`crate::trajectory::position_after`]'s closed form are defined after
/// `k` advances, they give the same position.
pub proof fn law_stepping_matches_closed_form(p: Seq<TrajectorySegment>, x0: i64, y0: i64, k: u64)
    requires
        program_canonical(p),
        p.len() >= 1,
        k >= 1,
        walk_from(p, 0, seg_steps(p[0]), seg_v0(p[0]), x0, y0, k as nat) is Some,
        pos_from(p, 0, x0, y0, k) is Some,
    ensures
        walk_from(p, 0, seg_steps(p[0]), seg_v0(p[0]), x0, y0, k as nat) == pos_from(p, 0, x0, y0, k),
{
    let sg = p[0];
    assert(seg_canonical(sg));
    match sg {
        TrajectorySegment::Linear { vx, vy, .. } => {
            assert(0 * vx == 0 && 0 * vy == 0) by (nonlinear_arith);
        },
        TrajectorySegment::Accel { vx0, vy0, ax, ay, .. } => {
            assert(0 * vx0 + ((0 * (0 - 1)) / 2) * ax == 0) by (nonlinear_arith);
            assert(0 * vy0 + ((0 * (0 - 1)) / 2) * ay == 0) by (nonlinear_arith);
            assert(0 * ax == 0 && 0 * ay == 0) by (nonlinear_arith);
        },
    }
    lemma_walk_closed(p, 0, 0, x0, y0, x0, y0, seg_v0(sg), k as nat);
    assert((0 + k) as u64 == k);
}

} // verus!
