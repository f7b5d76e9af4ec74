//! Multi-plane procedural core.
//!
//! A plane program is an object table, live instances painted in order over
//! a background, a persistent overlay above them, and interval groups that
//! change that state and then edit the rendered canvas. Everything works in
//! the canonical `u32` sample domain of a plane (any bit depth 1..=16, any
//! plane geometry); each plane of a video is an independent program.
//!
//! Replay semantics:
//!
//! * render = background fill, then every instance in paint order
//!   (fill/raster overwrite, clipped), then the persistent overlay
//!   (authoritative, above all instances; out-of-canvas points dropped);
//! * an interval group applies its state transitions in listed order,
//!   renders the base, then applies its canvas ops in listed order —
//!   COPY_RECT reads the plane's *previous* observation, and the residual
//!   op is self-contained (sparse overwrite points in a RAW or rANS block,
//!   values in the plane's active domain);
//! * object declarations may appear in interval groups: immutable content,
//!   ids never reused, bounded by the active limits.

use std::collections::BTreeMap;
use std::collections::BTreeSet;

use vstd::prelude::*;
use vstd::std_specs::btree::spec_btree_map_iter;
use vstd::std_specs::iter::IteratorSpec;

use crate::error::VoleError;
use crate::limits::Limits;
use crate::media::layout::Component;
use crate::media::picture::{sample_at, Picture};
use crate::media::epoch::{observation_fits, plane_matches, VideoEpoch};
use crate::media::gen::{get_le4, le4, push_le4, read4, word_coeff};
use crate::media::plane::{data_len, data_samples, holdable, BitDepth, Plane, PlaneData};
use crate::rans::{decode_block, decode_block_spec, encode_block, encode_block_spec};
use crate::pixel::{in_clipped_rect, lemma_pixel_distinct, lemma_pixel_index};

verus! {

broadcast use vstd::laws_cmp::group_laws_cmp;

/// Object id in one plane program.
#[derive(Debug, Clone, Copy, PartialEq, Eq, Structural, PartialOrd, Ord, Hash)]
pub struct PlaneObjectId(pub u32);

/// Instance id in one plane program.
#[derive(Debug, Clone, Copy, PartialEq, Eq, Structural, PartialOrd, Ord, Hash)]
pub struct PlaneInstanceId(pub u32);

/// Immutable object content of one plane: a uniform fill or raster samples.
#[derive(Debug, Clone, PartialEq, Eq)]
pub enum PlaneContent {
    /// Uniform fill: paints its value over the object's clipped box.
    Fill(u32),
    /// Raster samples (canonical tight storage matching the object depth).
    Raster(PlaneData),
}

/// An immutable plane object.
#[derive(Debug, Clone, PartialEq, Eq)]
pub struct PlaneObject {
    /// Object width in plane samples.
    pub width: u32,
    /// Object height in plane samples.
    pub height: u32,
    /// Content.
    pub content: PlaneContent,
}

/// A live instance in a plane program (paint order).
#[derive(Debug, Clone, Copy, PartialEq, Eq, Structural)]
pub struct PlaneInstance {
    /// Instance id.
    pub id: PlaneInstanceId,
    /// Object id (must be declared).
    pub object: PlaneObjectId,
    /// Top-left placement in plane coordinates.
    pub x: i64,
    /// Top-left placement in plane coordinates.
    pub y: i64,
}

/// One per-plane transition or canvas op of an interval group.
#[derive(Debug, Clone, PartialEq, Eq)]
pub enum PlaneOp {
    /// Declare an immutable object (allowed before intervals and inside
    /// interval groups). Duplicate ids are `DuplicateId`.
    DeclareObject {
        /// Object id.
        id: PlaneObjectId,
        /// Object.
        object: PlaneObject,
    },
    /// Create an instance (`UnknownObject` when the object is not declared).
    CreateInstance {
        /// Instance id.
        id: PlaneInstanceId,
        /// Object id.
        object: PlaneObjectId,
        /// Placement x.
        x: i64,
        /// Placement y.
        y: i64,
    },
    /// Set an instance's absolute position (`UnknownInstance`).
    SetPosition {
        /// Instance id.
        id: PlaneInstanceId,
        /// New x.
        x: i64,
        /// New y.
        y: i64,
    },
    /// Clear every live instance (ids become free for reuse).
    ClearInstances,
    /// Clear every persistent overlay point.
    ClearOverlay,
    /// Add overlay points (strictly ascending by `(x, y)`; out-of-canvas
    /// points are dropped at render).
    PatchOverlay {
        /// Points.
        points: Vec<(i64, i64, u32)>,
    },
    /// COPY_RECT from the plane's immediately previous observation.
    CopyRect {
        /// Source left.
        src_x: i64,
        /// Source top.
        src_y: i64,
        /// Copy width.
        width: u32,
        /// Copy height.
        height: u32,
        /// Destination left.
        dst_x: i64,
        /// Destination top.
        dst_y: i64,
    },
    /// Per-observation sparse residual (self-contained overwrite points).
    Residual {
        /// The residual block (RAW or rANS byte container; the decoded
        /// payload is a strictly sorted list of `(x i32, y i32, v u16)`
        /// records, `v` inside the plane's active depth).
        block: Vec<u8>,
    },
}

/// A per-plane procedural program: initial state plus interval groups.
/// Objects are keyed by their id's number.
#[derive(Debug, Clone)]
pub struct PlaneProgram {
    /// Initial background sample (in the plane's active domain).
    pub background: u32,
    /// Declared objects (initial), by id.
    pub objects: BTreeMap<u32, PlaneObject>,
    /// Initial instances (paint order).
    pub instances: Vec<PlaneInstance>,
    /// Initial persistent overlay (sorted by `(x, y)`).
    pub overlay: Vec<(i64, i64, u32)>,
    /// Interval groups: `(t, ops)`, `t` strictly increasing from 1.
    pub intervals: Vec<(u64, Vec<PlaneOp>)>,
}

impl PlaneObject {
    /// A uniform fill object (validated against the plane depth when a
    /// program is checked or the object is declared).
    pub fn fill(width: u32, height: u32, value: u32) -> (r: Self)
        ensures
            r == (PlaneObject { width, height, content: PlaneContent::Fill(value) }),
    {
        PlaneObject { width, height, content: PlaneContent::Fill(value) }
    }

    /// A raster object from `u32`-domain samples (tight row-major):
    /// `InvalidSamples` unless there are `width × height` samples, each
    /// inside `depth`.
    pub fn raster(width: u32, height: u32, depth: BitDepth, samples: &[u32]) -> (r: Result<Self, VoleError>)
        ensures
            r is Ok <==> samples@.len() == width * height && forall|k: int|
                0 <= k < samples@.len() ==> #[trigger] samples@[k] <= depth.max(),
            r matches Err(e) ==> e == VoleError::InvalidSamples,
            r matches Ok(o) ==> o.width == width && o.height == height && o.content is Raster && (
            o.content->Raster_0 is U8 <==> depth.b() <= 8) && data_samples(o.content->Raster_0)
                == samples@,
    {
        proof {
            lemma_u32_product(width, height);
        }
        let count = (width as u64) * (height as u64);
        if samples.len() as u64 != count {
            return Err(VoleError::InvalidSamples);
        }
        let max = depth.max_sample();
        let byte = depth.is_byte_depth();
        let mut narrow: Vec<u8> = Vec::new();
        let mut wide: Vec<u16> = Vec::new();
        let mut i = 0usize;
        while i < samples.len()
            invariant
                i <= samples@.len(),
                max == depth.max(),
                max <= 0xffff,
                byte <==> depth.b() <= 8,
                byte ==> max <= 0xff,
                forall|k: int| 0 <= k < i ==> #[trigger] samples@[k] <= max,
                byte ==> narrow@.len() == i && forall|k: int| 0 <= k < i ==> #[trigger] narrow@[k] as u32 == samples@[k],
                !byte ==> wide@.len() == i && forall|k: int| 0 <= k < i ==> #[trigger] wide@[k] as u32 == samples@[k],
            decreases samples@.len() - i,
        {
            let v = samples[i];
            if v > max {
                return Err(VoleError::InvalidSamples);
            }
            if byte {
                narrow.push(v as u8);
            } else {
                wide.push(v as u16);
            }
            i = i + 1;
        }
        let data = if byte {
            PlaneData::U8(narrow)
        } else {
            PlaneData::U16(wide)
        };
        assert(data_samples(data) =~= samples@);
        Ok(PlaneObject { width, height, content: PlaneContent::Raster(data) })
    }
}

impl PlaneProgram {
    /// An empty program (background `bg`; no objects/instances/overlay).
    pub fn new(background: u32) -> (r: Self)
        ensures
            r.background == background,
            r.objects@ == Map::<u32, PlaneObject>::empty(),
            r.instances@.len() == 0,
            r.overlay@.len() == 0,
            r.intervals@.len() == 0,
    {
        PlaneProgram {
            background,
            objects: BTreeMap::new(),
            instances: Vec::new(),
            overlay: Vec::new(),
            intervals: Vec::new(),
        }
    }
}

/// The product of two `u32` values fits a `u64`.
proof fn lemma_u32_product(a: u32, b: u32)
    ensures
        a * b <= u64::MAX,
{
    vstd::arithmetic::mul::lemma_mul_upper_bound(a as int, 0xffff_ffff, b as int, 0xffff_ffff);
}

/// Once a prefix of an overlay list has a fault, every longer prefix has
/// the same one.
proof fn lemma_points_fault_stable(ps: Seq<(i64, i64, u32)>, max: nat, a: int, b: int)
    requires
        0 <= a <= b,
        points_fault(ps, max, a) is Some,
    ensures
        points_fault(ps, max, b) == points_fault(ps, max, a),
    decreases b - a,
{
    if a < b {
        lemma_points_fault_stable(ps, max, a, b - 1);
    }
}

/// The content of an object as values: its box, its fill value (for a
/// fill) or its raster samples and storage width.
pub struct ObjModel {
    /// Box width.
    pub width: u32,
    /// Box height.
    pub height: u32,
    /// The fill value of a fill object.
    pub fill: Option<u32>,
    /// Whether raster samples are stored one byte each.
    pub narrow: bool,
    /// Raster samples (row-major).
    pub samples: Seq<u32>,
}

/// An object's content as values.
pub open spec fn obj_model(o: PlaneObject) -> ObjModel {
    match o.content {
        PlaneContent::Fill(v) => ObjModel { width: o.width, height: o.height, fill: Some(v), narrow: false, samples: Seq::empty() },
        PlaneContent::Raster(d) => ObjModel {
            width: o.width,
            height: o.height,
            fill: None,
            narrow: d is U8,
            samples: data_samples(d),
        },
    }
}

/// Whether object content is valid at a plane depth: a nonempty box and
/// content inside the depth (raster samples tight, in the depth's storage
/// width).
pub open spec fn model_ok(m: ObjModel, depth: BitDepth) -> bool {
    &&& m.width * m.height > 0
    &&& match m.fill {
        Some(v) => v <= depth.max(),
        None => {
            &&& m.samples.len() == m.width * m.height
            &&& (m.narrow <==> depth.b() <= 8)
            &&& forall|k: int| 0 <= k < m.samples.len() ==> #[trigger] m.samples[k] <= depth.max()
        },
    }
}

/// Whether an object is valid at a plane depth.
pub open spec fn object_ok(o: PlaneObject, depth: BitDepth) -> bool {
    model_ok(obj_model(o), depth)
}

/// Lexicographic `(x, y)` order: `a <= b`.
pub open spec fn key_le(a: (i64, i64), b: (i64, i64)) -> bool {
    a.0 < b.0 || (a.0 == b.0 && a.1 <= b.1)
}

/// The first fault among the first `n` points of an overlay list: a value
/// above `max` (`InvalidSamples`) or a position not strictly after the
/// previous one (`NonCanonicalEncoding`).
pub open spec fn points_fault(ps: Seq<(i64, i64, u32)>, max: nat, n: int) -> Option<VoleError>
    decreases n,
{
    if n <= 0 {
        None
    } else {
        match points_fault(ps, max, n - 1) {
            Some(e) => Some(e),
            None => if ps[n - 1].2 > max {
                Some(VoleError::InvalidSamples)
            } else if n >= 2 && key_le((ps[n - 1].0, ps[n - 1].1), (ps[n - 2].0, ps[n - 2].1)) {
                Some(VoleError::NonCanonicalEncoding)
            } else {
                None
            },
        }
    }
}

/// Whether interval `i` has a positive index above its predecessor's.
pub open spec fn interval_ok(iv: Seq<(u64, Vec<PlaneOp>)>, i: int) -> bool {
    iv[i].0 > 0 && (i > 0 ==> iv[i].0 > iv[i - 1].0)
}

/// Whether interval indices are positive and strictly increasing.
pub open spec fn intervals_ordered(iv: Seq<(u64, Vec<PlaneOp>)>) -> bool {
    forall|i: int| 0 <= i < iv.len() ==> #[trigger] interval_ok(iv, i)
}

/// The error a program's initial values give at a plane depth, if any.
pub open spec fn program_fault(prog: PlaneProgram, depth: BitDepth, limits: Limits) -> Option<VoleError> {
    if prog.background > depth.max() {
        Some(VoleError::InvalidSamples)
    } else if prog.objects@.len() > limits.max_objects {
        Some(VoleError::DimensionTooLarge)
    } else if prog.instances@.len() > limits.max_instances {
        Some(VoleError::DimensionTooLarge)
    } else if prog.overlay@.len() > limits.max_overlay_points {
        Some(VoleError::DimensionTooLarge)
    } else if !intervals_ordered(prog.intervals@) {
        Some(VoleError::NonConsecutiveInterval)
    } else if exists|k: u32| #[trigger] prog.objects@.contains_key(k) && !object_ok(prog.objects@[k], depth) {
        Some(VoleError::InvalidSamples)
    } else if exists|i: int|
        0 <= i < prog.instances@.len() && !prog.objects@.contains_key(#[trigger] prog.instances@[i].object.0) {
        Some(VoleError::UnknownObject)
    } else if exists|i: int, j: int|
        0 <= i < j < prog.instances@.len() && #[trigger] prog.instances@[i].id == #[trigger] prog.instances@[j].id {
        Some(VoleError::DuplicateId)
    } else {
        points_fault(prog.overlay@, depth.max(), prog.overlay@.len() as int)
    }
}

/// Validate an object's content against a plane depth (`InvalidSamples`).
#[verifier::loop_isolation(false)]
pub fn check_object_depth(obj: &PlaneObject, depth: BitDepth) -> (r: Result<(), VoleError>)
    ensures
        r is Ok <==> object_ok(*obj, depth),
        r matches Err(e) ==> e == VoleError::InvalidSamples,
{
    proof {
        lemma_u32_product(obj.width, obj.height);
    }
    let count = (obj.width as u64) * (obj.height as u64);
    if count == 0 {
        return Err(VoleError::InvalidSamples);
    }
    let max = depth.max_sample();
    match &obj.content {
        PlaneContent::Fill(v) => {
            if *v > max {
                return Err(VoleError::InvalidSamples);
            }
        },
        PlaneContent::Raster(PlaneData::U8(v)) => {
            if v.len() as u64 != count || !depth.is_byte_depth() {
                return Err(VoleError::InvalidSamples);
            }
            let mut i = 0usize;
            while i < v.len()
                invariant
                    i <= v@.len(),
                    max == depth.max(),
                    forall|k: int| 0 <= k < i ==> #[trigger] v@[k] as u32 <= max,
                decreases v@.len() - i,
            {
                if v[i] as u32 > max {
                    assert(data_samples(PlaneData::U8(*v))[i as int] == v@[i as int] as u32);
                    return Err(VoleError::InvalidSamples);
                }
                i = i + 1;
            }
        },
        PlaneContent::Raster(PlaneData::U16(v)) => {
            if v.len() as u64 != count || depth.is_byte_depth() {
                return Err(VoleError::InvalidSamples);
            }
            let mut i = 0usize;
            while i < v.len()
                invariant
                    i <= v@.len(),
                    max == depth.max(),
                    forall|k: int| 0 <= k < i ==> #[trigger] v@[k] as u32 <= max,
                decreases v@.len() - i,
            {
                if v[i] as u32 > max {
                    assert(data_samples(PlaneData::U16(*v))[i as int] == v@[i as int] as u32);
                    return Err(VoleError::InvalidSamples);
                }
                i = i + 1;
            }
        },
    }
    Ok(())
}

/// Check an overlay point list: values inside `depth`, positions strictly
/// ascending by `(x, y)`; the first failing point decides the error.
fn check_points(points: &[(i64, i64, u32)], depth: BitDepth) -> (r: Result<(), VoleError>)
    ensures
        match points_fault(points@, depth.max(), points@.len() as int) {
            Some(e) => r == Err::<(), VoleError>(e),
            None => r is Ok,
        },
{
    let max = depth.max_sample();
    let mut i = 0usize;
    while i < points.len()
        invariant
            i <= points@.len(),
            max == depth.max(),
            points_fault(points@, depth.max(), i as int) is None,
        decreases points@.len() - i,
    {
        let (x, y, v) = points[i];
        if v > max {
            proof {
                assert(points_fault(points@, depth.max(), i + 1) == Some(VoleError::InvalidSamples));
                lemma_points_fault_stable(points@, depth.max(), i + 1, points@.len() as int);
            }
            return Err(VoleError::InvalidSamples);
        }
        if i > 0 {
            let (px, py, _) = points[i - 1];
            if x < px || (x == px && y <= py) {
                proof {
                    assert(points_fault(points@, depth.max(), i + 1) == Some(VoleError::NonCanonicalEncoding));
                    lemma_points_fault_stable(points@, depth.max(), i + 1, points@.len() as int);
                }
                return Err(VoleError::NonCanonicalEncoding);
            }
        }
        i = i + 1;
    }
    Ok(())
}

/// Validate a program's initial values against a plane depth: background
/// and content inside the depth, table sizes inside `limits`, interval
/// indices positive and strictly increasing, instances of declared objects
/// with distinct ids, and the overlay strictly sorted. The error is the
/// first failing check in that order.
#[verifier::loop_isolation(false)]
pub fn check_program_depth(prog: &PlaneProgram, depth: BitDepth, limits: &Limits) -> (r: Result<(), VoleError>)
    ensures
        match program_fault(*prog, depth, *limits) {
            Some(e) => r == Err::<(), VoleError>(e),
            None => r is Ok,
        },
{
    if prog.background > depth.max_sample() {
        return Err(VoleError::InvalidSamples);
    }
    if prog.objects.len() as u64 > limits.max_objects as u64 {
        return Err(VoleError::DimensionTooLarge);
    }
    if prog.instances.len() as u64 > limits.max_instances as u64 {
        return Err(VoleError::DimensionTooLarge);
    }
    if prog.overlay.len() as u64 > limits.max_overlay_points as u64 {
        return Err(VoleError::DimensionTooLarge);
    }
    let mut i = 0usize;
    while i < prog.intervals.len()
        invariant
            i <= prog.intervals@.len(),
            forall|j: int| 0 <= j < i ==> #[trigger] interval_ok(prog.intervals@, j),
        decreases prog.intervals@.len() - i,
    {
        let t = prog.intervals[i].0;
        if t == 0 || (i > 0 && t <= prog.intervals[i - 1].0) {
            proof {
                assert(!interval_ok(prog.intervals@, i as int));
            }
            return Err(VoleError::NonConsecutiveInterval);
        }
        i = i + 1;
    }
    for kv in it: prog.objects.iter()
        invariant
            it.seq() == spec_btree_map_iter(&prog.objects).remaining(),
            forall|j: int| 0 <= j < it.index() ==> object_ok(*(#[trigger] it.seq()[j]).1, depth),
    {
        let (k, obj) = kv;
        match check_object_depth(obj, depth) {
            Ok(()) => {},
            Err(e) => {
                proof {
                    let v = spec_btree_map_iter(&prog.objects).remaining();
                    assert(kv == v[it.index() as int]);
                    assert(prog.objects@.contains_key(*v[it.index() as int].0));
                    assert(!object_ok(prog.objects@[*k], depth));
                }
                return Err(e);
            },
        }
    }
    proof {
        let v = spec_btree_map_iter(&prog.objects).remaining();
        assert forall|k: u32| #[trigger] prog.objects@.contains_key(k) implies object_ok(prog.objects@[k], depth) by {
            assert(v.contains((&k, &prog.objects@[k])));
            let j = choose|j: int| 0 <= j < v.len() && v[j] == (&k, &prog.objects@[k]);
            assert(object_ok(*v[j].1, depth));
        }
    }
    let mut i = 0usize;
    while i < prog.instances.len()
        invariant
            i <= prog.instances@.len(),
            forall|j: int| 0 <= j < i ==> prog.objects@.contains_key(#[trigger] prog.instances@[j].object.0),
        decreases prog.instances@.len() - i,
    {
        if !prog.objects.contains_key(&prog.instances[i].object.0) {
            proof {
                assert(!prog.objects@.contains_key(prog.instances@[i as int].object.0));
            }
            return Err(VoleError::UnknownObject);
        }
        i = i + 1;
    }
    let mut seen: BTreeSet<u32> = BTreeSet::new();
    let mut i = 0usize;
    while i < prog.instances.len()
        invariant
            i <= prog.instances@.len(),
            forall|a: int, b: int| 0 <= a < b < i ==> #[trigger] prog.instances@[a].id != #[trigger] prog.instances@[b].id,
            forall|k: u32| seen@.contains(k) <==> exists|j: int| 0 <= j < i && #[trigger] prog.instances@[j].id.0 == k,
        decreases prog.instances@.len() - i,
    {
        let id = prog.instances[i].id.0;
        if !seen.insert(id) {
            proof {
                let j = choose|j: int| 0 <= j < i && #[trigger] prog.instances@[j].id.0 == id;
                assert(prog.instances@[j].id == prog.instances@[i as int].id);
            }
            return Err(VoleError::DuplicateId);
        }
        proof {
            assert forall|a: int, b: int| 0 <= a < b < i + 1 implies #[trigger] prog.instances@[a].id
                != #[trigger] prog.instances@[b].id by {
                if b == i {
                    if prog.instances@[a].id == prog.instances@[b].id {
                        assert(prog.instances@[a].id.0 == id);
                    }
                }
            }
        }
        i = i + 1;
    }
    check_points(prog.overlay.as_slice(), depth)
}

/// Runtime state of one plane replay: background, objects, instances (paint
/// order) and the persistent overlay.
#[derive(Debug, Clone)]
pub struct PlaneState {
    background: u32,
    objects: BTreeMap<u32, PlaneObject>,
    instances: Vec<PlaneInstance>,
    overlay: Vec<(i64, i64, u32)>,
}

/// The abstract state of a plane replay.
#[verifier::ext_equal]
pub struct StateModel {
    /// Background sample.
    pub bg: u32,
    /// Declared objects by id.
    pub objs: Map<u32, ObjModel>,
    /// Live instances in paint order.
    pub insts: Seq<PlaneInstance>,
    /// Overlay points in insertion order.
    pub ovl: Seq<(i64, i64, u32)>,
}

impl PlaneState {
    /// The abstract state.
    pub closed spec fn model(self) -> StateModel {
        StateModel {
            bg: self.background,
            objs: self.objects@.map_values(|o: PlaneObject| obj_model(o)),
            insts: self.instances@,
            ovl: self.overlay@,
        }
    }
}

/// The sample object content `m` placed at `(ix, iy)` paints at `(x, y)`,
/// if its box covers that position.
pub open spec fn cover(m: ObjModel, ix: int, iy: int, x: int, y: int) -> Option<u32> {
    if ix <= x < ix + m.width && iy <= y < iy + m.height {
        Some(
            match m.fill {
                Some(v) => v,
                None => m.samples[(y - iy) * m.width + (x - ix)],
            },
        )
    } else {
        None
    }
}

/// Sample `(x, y)` after painting the first `n` instances over `bg`: the
/// last instance of a declared object that covers the position wins.
pub open spec fn painted(objs: Map<u32, ObjModel>, insts: Seq<PlaneInstance>, bg: u32, n: int, x: int, y: int) -> u32
    decreases n,
{
    if n <= 0 {
        bg
    } else {
        let i = insts[n - 1];
        if objs.contains_key(i.object.0) && cover(objs[i.object.0], i.x as int, i.y as int, x, y) is Some {
            cover(objs[i.object.0], i.x as int, i.y as int, x, y)->0
        } else {
            painted(objs, insts, bg, n - 1, x, y)
        }
    }
}

/// The value of the last of the first `n` overlay points at `(x, y)`.
pub open spec fn overlay_at(ov: Seq<(i64, i64, u32)>, n: int, x: int, y: int) -> Option<u32>
    decreases n,
{
    if n <= 0 {
        None
    } else if ov[n - 1].0 == x && ov[n - 1].1 == y {
        Some(ov[n - 1].2)
    } else {
        overlay_at(ov, n - 1, x, y)
    }
}

/// Rendered sample `(x, y)` of a state: the overlay over the painted
/// instances over the background.
pub open spec fn rendered(s: StateModel, x: int, y: int) -> u32 {
    match overlay_at(s.ovl, s.ovl.len() as int, x, y) {
        Some(v) => v,
        None => painted(s.objs, s.insts, s.bg, s.insts.len() as int, x, y),
    }
}

/// Whether object content cannot be painted at depth maximum `max`: a fill
/// value above it, or raster samples off the box or above it.
pub open spec fn paint_refused(m: ObjModel, max: nat) -> bool {
    match m.fill {
        Some(v) => v > max,
        None => m.samples.len() != m.width * m.height || exists|k: int|
            0 <= k < m.samples.len() && #[trigger] m.samples[k] > max,
    }
}

/// The first fault while painting the first `n` instances: more instances
/// than `budget`, or an instance of a declared object that cannot be
/// painted.
pub open spec fn paint_fault(objs: Map<u32, ObjModel>, insts: Seq<PlaneInstance>, max: nat, budget: nat, n: int) -> Option<VoleError>
    decreases n,
{
    if n <= 0 {
        None
    } else {
        match paint_fault(objs, insts, max, budget, n - 1) {
            Some(e) => Some(e),
            None => if n > budget {
                Some(VoleError::MaterializationBudgetExceeded)
            } else if objs.contains_key(insts[n - 1].object.0) && paint_refused(objs[insts[n - 1].object.0], max) {
                Some(VoleError::InvalidSamples)
            } else {
                None
            },
        }
    }
}

/// Whether some overlay point inside a `w × h` canvas has a value above
/// `max`.
pub open spec fn overlay_refused(ov: Seq<(i64, i64, u32)>, w: int, h: int, max: nat) -> bool {
    exists|i: int| 0 <= i < ov.len() && 0 <= (#[trigger] ov[i]).0 < w && 0 <= ov[i].1 < h && ov[i].2 > max
}

/// The error rendering a state at `w × h` and `depth` gives, if any.
pub open spec fn render_error(s: StateModel, w: u32, h: u32, depth: BitDepth, limits: Limits) -> Option<VoleError> {
    if !limits.canvas_ok(w, h) {
        Some(VoleError::DimensionTooLarge)
    } else if w * h > usize::MAX {
        Some(VoleError::ArithmeticOverflow)
    } else if s.bg > depth.max() {
        Some(VoleError::InvalidSamples)
    } else {
        match paint_fault(s.objs, s.insts, depth.max(), limits.max_instances as nat, s.insts.len() as int) {
            Some(e) => Some(e),
            None => if overlay_refused(s.ovl, w as int, h as int, depth.max()) {
                Some(VoleError::InvalidSamples)
            } else {
                None
            },
        }
    }
}

/// Whether `p` is the rendering of `s`: a single Gray plane of `w × h` at
/// `depth` whose every sample is the rendered one.
pub open spec fn is_rendering(p: Plane, s: StateModel, w: u32, h: u32, depth: BitDepth) -> bool {
    &&& p.comp() == Component::Gray
    &&& p.w() == w
    &&& p.h() == h
    &&& p.depth() == depth
    &&& p.sx() == 0
    &&& p.sy() == 0
    &&& p.samples().len() == w * h
    &&& forall|x: int, y: int| 0 <= x < w && 0 <= y < h ==> #[trigger] sample_at(p, x, y) == rendered(s, x, y)
}

/// Placements farther than this from the origin never reach a canvas.
const FAR: i64 = 0x100_0000_0000;

/// A placement clamped to `FAR`: the same pixels of any canvas are covered.
fn near(v: i64) -> (r: i64)
    ensures
        r <= FAR,
        v <= FAR ==> r == v,
        v > FAR ==> r == FAR,
{
    if v > FAR {
        FAR
    } else {
        v
    }
}

/// Inside a canvas, the clipped rectangle is the rectangle.
proof fn lemma_clip_is_rect(w: int, h: int, x0: int, y0: int, x1: int, y1: int, x: int, y: int)
    requires
        0 <= x < w,
        0 <= y < h,
        x0 <= x1,
        y0 <= y1,
    ensures
        in_clipped_rect(w, h, x0, y0, x1, y1, x, y) <==> (x0 <= x < x1 && y0 <= y < y1),
{
}

/// A placement beyond `FAR` covers the same canvas pixels as `FAR` itself:
/// none.
proof fn lemma_cover_near(o: ObjModel, ix: int, iy: int, x: int, y: int)
    requires
        0 <= x <= u32::MAX,
        0 <= y <= u32::MAX,
    ensures
        cover(o, ix, iy, x, y) == cover(
            o,
            if ix > FAR { FAR as int } else { ix },
            if iy > FAR { FAR as int } else { iy },
            x,
            y,
        ),
{
}

/// Render the current state of one plane at `(width, height, depth)`:
/// background, instances in paint order (clipped overwrite), then the
/// persistent overlay (authoritative), all in the plane's sample domain.
/// Errors: a canvas outside `limits` (`DimensionTooLarge`), a background
/// or painted value above the depth (`InvalidSamples`), more instances than
/// `limits` allow (`MaterializationBudgetExceeded`), the first fault in
/// paint order deciding.
#[verifier::loop_isolation(false)]
pub fn render_plane(state: &PlaneState, width: u32, height: u32, depth: BitDepth, limits: &Limits) -> (r: Result<Plane, VoleError>)
    ensures
        match render_error(state.model(), width, height, depth, *limits) {
            Some(e) => r == Err::<Plane, VoleError>(e),
            None => r matches Ok(p) && is_rendering(p, state.model(), width, height, depth),
        },
{
    let ghost s = state.model();
    limits.check_canvas(width, height)?;
    proof {
        lemma_u32_product(width, height);
    }
    let n64 = (width as u64) * (height as u64);
    if n64 > usize::MAX as u64 {
        return Err(VoleError::ArithmeticOverflow);
    }
    let n = n64 as usize;
    let max = depth.max_sample();
    if state.background > max {
        return Err(VoleError::InvalidSamples);
    }
    let data = if depth.is_byte_depth() {
        PlaneData::U8(vec![state.background as u8; n])
    } else {
        PlaneData::U16(vec![state.background as u16; n])
    };
    proof {
        assert forall|k: int| 0 <= k < n implies #[trigger] data_samples(data)[k] == state.background by {}
    }
    let plane = match Plane::new(Component::Gray, width, height, depth, 0, 0, data) {
        Ok(p) => p,
        Err(e) => {
            return Err(e);
        },
    };
    let mut pic = Picture::of_plane(plane);
    proof {
        assert forall|x: int, y: int| 0 <= x < width && 0 <= y < height implies #[trigger] sample_at(pic.pls()[0], x, y)
            == painted(s.objs, s.insts, s.bg, 0, x, y) by {
            lemma_pixel_index(x, y, width as int, height as int);
        }
    }
    let mut j = 0usize;
    while j < state.instances.len()
        invariant
            j <= s.insts.len(),
            max == depth.max(),
            pic.pls().len() == 1,
            pic.pls()[0].comp() == Component::Gray,
            pic.pls()[0].w() == width,
            pic.pls()[0].h() == height,
            pic.pls()[0].depth() == depth,
            pic.pls()[0].sx() == 0,
            pic.pls()[0].sy() == 0,
            pic.pls()[0].samples().len() == width * height,
            paint_fault(s.objs, s.insts, depth.max(), limits.max_instances as nat, j as int) is None,
            forall|x: int, y: int|
                0 <= x < width && 0 <= y < height ==> #[trigger] sample_at(pic.pls()[0], x, y) == painted(
                    s.objs,
                    s.insts,
                    s.bg,
                    j as int,
                    x,
                    y,
                ),
        decreases s.insts.len() - j,
    {
        let inst = state.instances[j];
        if j as u64 + 1 > limits.max_instances as u64 {
            proof {
                lemma_paint_fault_stable(s.objs, s.insts, depth.max(), limits.max_instances as nat, j + 1, s.insts.len() as int);
            }
            return Err(VoleError::MaterializationBudgetExceeded);
        }
        let ghost before = pic.pls()[0];
        match state.objects.get(&inst.object.0) {
            None => {},
            Some(obj) => {
                let dx = near(inst.x);
                let dy = near(inst.y);
                match &obj.content {
                    PlaneContent::Fill(v) => {
                        match pic.fill_rect_clipped(0, *v, dx, dy, dx + obj.width as i64, dy + obj.height as i64) {
                            Ok(()) => {},
                            Err(e) => {
                                proof {
                                    lemma_paint_fault_stable(s.objs, s.insts, depth.max(), limits.max_instances as nat, j + 1, s.insts.len() as int);
                                }
                                return Err(e);
                            },
                        }
                        proof {
                            assert forall|x: int, y: int| 0 <= x < width && 0 <= y < height implies #[trigger] sample_at(pic.pls()[0], x, y)
                                == painted(s.objs, s.insts, s.bg, j + 1, x, y) by {
                                lemma_clip_is_rect(width as int, height as int, dx as int, dy as int, dx + obj.width, dy + obj.height, x, y);
                                lemma_cover_near(obj_model(*obj), inst.x as int, inst.y as int, x, y);
                            }
                        }
                    },
                    PlaneContent::Raster(d) => {
                        let samples = widen(d);
                        match pic.blit(0, samples.as_slice(), obj.width, obj.height, dx, dy) {
                            Ok(()) => {},
                            Err(e) => {
                                proof {
                                    if samples@.len() == obj.width * obj.height {
                                        let k = choose|k: int| 0 <= k < samples@.len() && !(samples@[k] <= depth.max());
                                        assert(obj_model(*obj).samples[k] > depth.max());
                                    }
                                    lemma_paint_fault_stable(s.objs, s.insts, depth.max(), limits.max_instances as nat, j + 1, s.insts.len() as int);
                                }
                                return Err(e);
                            },
                        }
                        proof {
                            assert forall|x: int, y: int| 0 <= x < width && 0 <= y < height implies #[trigger] sample_at(pic.pls()[0], x, y)
                                == painted(s.objs, s.insts, s.bg, j + 1, x, y) by {
                                lemma_cover_near(obj_model(*obj), inst.x as int, inst.y as int, x, y);
                            }
                        }
                    },
                }
            },
        }
        j = j + 1;
    }
    let mut k = 0usize;
    while k < state.overlay.len()
        invariant
            k <= s.ovl.len(),
            max == depth.max(),
            pic.pls().len() == 1,
            pic.pls()[0].comp() == Component::Gray,
            pic.pls()[0].w() == width,
            pic.pls()[0].h() == height,
            pic.pls()[0].depth() == depth,
            pic.pls()[0].sx() == 0,
            pic.pls()[0].sy() == 0,
            pic.pls()[0].samples().len() == width * height,
            paint_fault(s.objs, s.insts, depth.max(), limits.max_instances as nat, s.insts.len() as int) is None,
            forall|i: int| 0 <= i < k ==> !(0 <= (#[trigger] s.ovl[i]).0 < width && 0 <= s.ovl[i].1 < height && s.ovl[i].2 > depth.max()),
            forall|x: int, y: int|
                0 <= x < width && 0 <= y < height ==> #[trigger] sample_at(pic.pls()[0], x, y) == match overlay_at(s.ovl, k as int, x, y) {
                    Some(v) => v,
                    None => painted(s.objs, s.insts, s.bg, s.insts.len() as int, x, y),
                },
        decreases s.ovl.len() - k,
    {
        let (px, py, v) = state.overlay[k];
        if px >= 0 && py >= 0 && px < width as i64 && py < height as i64 {
            let ghost before = pic.pls()[0];
            let res = pic.put(0, px as u32, py as u32, v);
            if res.is_err() {
                proof {
                    assert(0 <= s.ovl[k as int].0 < width && 0 <= s.ovl[k as int].1 < height && s.ovl[k as int].2 > depth.max());
                }
                return Err(VoleError::InvalidSamples);
            }
            proof {
                assert(pic.pls()[0].samples() == before.samples().update(py * width + px, v));
                lemma_pixel_index(px as int, py as int, width as int, height as int);
                assert forall|x: int, y: int| 0 <= x < width && 0 <= y < height implies #[trigger] sample_at(pic.pls()[0], x, y)
                    == match overlay_at(s.ovl, k + 1, x, y) {
                    Some(v) => v,
                    None => painted(s.objs, s.insts, s.bg, s.insts.len() as int, x, y),
                } by {
                    lemma_pixel_distinct(x, y, px as int, py as int, width as int);
                    lemma_pixel_index(x, y, width as int, height as int);
                    assert(sample_at(before, x, y) == before.samples()[y * width + x]);
                }
            }
        } else {
            proof {
                assert forall|x: int, y: int| 0 <= x < width && 0 <= y < height implies #[trigger] sample_at(pic.pls()[0], x, y)
                    == match overlay_at(s.ovl, k + 1, x, y) {
                    Some(v) => v,
                    None => painted(s.objs, s.insts, s.bg, s.insts.len() as int, x, y),
                } by {}
            }
        }
        k = k + 1;
    }
    let mut planes = pic.into_planes();
    match planes.pop() {
        Some(p) => Ok(p),
        None => Err(VoleError::GeometryMismatch),
    }
}

/// The samples of a payload, widened to `u32`.
fn widen(d: &PlaneData) -> (r: Vec<u32>)
    ensures
        r@ == data_samples(*d),
{
    let mut out: Vec<u32> = Vec::new();
    match d {
        PlaneData::U8(v) => {
            let mut i = 0usize;
            while i < v.len()
                invariant
                    i <= v@.len(),
                    out@ == v@.subrange(0, i as int).map_values(|x: u8| x as u32),
                decreases v@.len() - i,
            {
                out.push(v[i] as u32);
                proof {
                    assert(out@ =~= v@.subrange(0, i + 1).map_values(|x: u8| x as u32));
                }
                i = i + 1;
            }
            proof {
                assert(v@.subrange(0, v@.len() as int) =~= v@);
            }
        },
        PlaneData::U16(v) => {
            let mut i = 0usize;
            while i < v.len()
                invariant
                    i <= v@.len(),
                    out@ == v@.subrange(0, i as int).map_values(|x: u16| x as u32),
                decreases v@.len() - i,
            {
                out.push(v[i] as u32);
                proof {
                    assert(out@ =~= v@.subrange(0, i + 1).map_values(|x: u16| x as u32));
                }
                i = i + 1;
            }
            proof {
                assert(v@.subrange(0, v@.len() as int) =~= v@);
            }
        },
    }
    out
}

/// Once painting has a fault, every longer prefix has the same one.
proof fn lemma_paint_fault_stable(objs: Map<u32, ObjModel>, insts: Seq<PlaneInstance>, max: nat, budget: nat, a: int, b: int)
    requires
        0 <= a <= b,
        paint_fault(objs, insts, max, budget, a) is Some,
    ensures
        paint_fault(objs, insts, max, budget, b) == paint_fault(objs, insts, max, budget, a),
    decreases b - a,
{
    if a < b {
        lemma_paint_fault_stable(objs, insts, max, budget, a, b - 1);
    }
}

/// The first live instance with id `id` at or after position `i`.
pub open spec fn inst_index(insts: Seq<PlaneInstance>, id: PlaneInstanceId, i: int) -> Option<int>
    decreases insts.len() - i,
{
    if i < 0 || i >= insts.len() {
        None
    } else if insts[i].id == id {
        Some(i)
    } else {
        inst_index(insts, id, i + 1)
    }
}

/// Whether an overlay list has a point at `(x, y)`.
pub open spec fn has_point(ov: Seq<(i64, i64, u32)>, x: i64, y: i64) -> bool {
    exists|j: int| 0 <= j < ov.len() && (#[trigger] ov[j]).0 == x && ov[j].1 == y
}

/// A point moved to a new value when it sits at `q`'s position.
pub open spec fn patched(p: (i64, i64, u32), q: (i64, i64, u32)) -> (i64, i64, u32) {
    if p.0 == q.0 && p.1 == q.1 {
        q
    } else {
        p
    }
}

/// The overlay after patching, in order, each of the first `n` points: a
/// point at a position the overlay holds overwrites its value, any other
/// point is appended.
pub open spec fn overlay_added(ov: Seq<(i64, i64, u32)>, pts: Seq<(i64, i64, u32)>, n: int) -> Seq<(i64, i64, u32)>
    decreases n,
{
    if n <= 0 {
        ov
    } else {
        let prev = overlay_added(ov, pts, n - 1);
        if has_point(prev, pts[n - 1].0, pts[n - 1].1) {
            prev.map_values(|p: (i64, i64, u32)| patched(p, pts[n - 1]))
        } else {
            prev.push(pts[n - 1])
        }
    }
}

/// One state transition of an interval group (canvas ops leave the state
/// as it is).
pub open spec fn step_op(s: StateModel, op: PlaneOp, limits: Limits, depth: BitDepth) -> Result<StateModel, VoleError> {
    match op {
        PlaneOp::DeclareObject { id, object } => if !object_ok(object, depth) {
            Err(VoleError::InvalidSamples)
        } else if s.objs.contains_key(id.0) {
            Err(VoleError::DuplicateId)
        } else if s.objs.len() >= limits.max_objects {
            Err(VoleError::DimensionTooLarge)
        } else {
            Ok(StateModel { objs: s.objs.insert(id.0, obj_model(object)), ..s })
        },
        PlaneOp::CreateInstance { id, object, x, y } => if !s.objs.contains_key(object.0) {
            Err(VoleError::UnknownObject)
        } else if inst_index(s.insts, id, 0) is Some {
            Err(VoleError::DuplicateId)
        } else if s.insts.len() >= limits.max_instances {
            Err(VoleError::DimensionTooLarge)
        } else {
            Ok(StateModel { insts: s.insts.push(PlaneInstance { id, object, x, y }), ..s })
        },
        PlaneOp::SetPosition { id, x, y } => match inst_index(s.insts, id, 0) {
            None => Err(VoleError::UnknownInstance),
            Some(i) => Ok(StateModel { insts: s.insts.update(i, PlaneInstance { x, y, ..s.insts[i] }), ..s }),
        },
        PlaneOp::ClearInstances => Ok(StateModel { insts: Seq::empty(), ..s }),
        PlaneOp::ClearOverlay => Ok(StateModel { ovl: Seq::empty(), ..s }),
        PlaneOp::PatchOverlay { points } => match points_fault(points@, depth.max(), points@.len() as int) {
            Some(e) => Err(e),
            None => {
                let added = overlay_added(s.ovl, points@, points@.len() as int);
                if added.len() > limits.max_overlay_points {
                    Err(VoleError::DimensionTooLarge)
                } else {
                    Ok(StateModel { ovl: added, ..s })
                }
            },
        },
        _ => Ok(s),
    }
}

/// The state after the first `n` transitions of `ops`, or the first error.
pub open spec fn apply_ops(s: StateModel, ops: Seq<PlaneOp>, n: int, limits: Limits, depth: BitDepth) -> Result<StateModel, VoleError>
    decreases n,
{
    if n <= 0 {
        Ok(s)
    } else {
        match apply_ops(s, ops, n - 1, limits, depth) {
            Err(e) => Err(e),
            Ok(t) => step_op(t, ops[n - 1], limits, depth),
        }
    }
}

/// Once the transitions fail, every longer prefix fails the same way.
proof fn lemma_apply_ops_stable(s: StateModel, ops: Seq<PlaneOp>, a: int, b: int, limits: Limits, depth: BitDepth)
    requires
        0 <= a <= b,
        apply_ops(s, ops, a, limits, depth) is Err,
    ensures
        apply_ops(s, ops, b, limits, depth) == apply_ops(s, ops, a, limits, depth),
    decreases b - a,
{
    if a < b {
        lemma_apply_ops_stable(s, ops, a, b - 1, limits, depth);
    }
}

/// A found instance index is in range and carries the id; none before it
/// at or after `i` does.
proof fn lemma_inst_index(insts: Seq<PlaneInstance>, id: PlaneInstanceId, i: int)
    requires
        0 <= i,
    ensures
        inst_index(insts, id, i) matches Some(j) ==> i <= j < insts.len() && insts[j].id == id,
        inst_index(insts, id, i) is None <==> forall|j: int| i <= j < insts.len() ==> #[trigger] insts[j].id != id,
    decreases insts.len() - i,
{
    if i < insts.len() && insts[i].id != id {
        lemma_inst_index(insts, id, i + 1);
    }
}

/// A copy of an object with the same content.
fn copy_object(o: &PlaneObject) -> (r: PlaneObject)
    ensures
        obj_model(r) == obj_model(*o),
{
    let content = match &o.content {
        PlaneContent::Fill(v) => PlaneContent::Fill(*v),
        PlaneContent::Raster(d) => PlaneContent::Raster(crate::media::plane::copy_data(d)),
    };
    PlaneObject { width: o.width, height: o.height, content }
}

/// Patch each point in order: overwrite the value at a held position,
/// append any other point.
fn add_points(overlay: &mut Vec<(i64, i64, u32)>, points: &[(i64, i64, u32)])
    ensures
        final(overlay)@ == overlay_added(old(overlay)@, points@, points@.len() as int),
{
    let ghost ov0 = overlay@;
    let mut i = 0usize;
    while i < points.len()
        invariant
            i <= points@.len(),
            overlay@ == overlay_added(ov0, points@, i as int),
        decreases points@.len() - i,
    {
        let q = points[i];
        let x = q.0;
        let y = q.1;
        let ghost prev = overlay@;
        let mut found = false;
        let mut j = 0usize;
        while j < overlay.len()
            invariant
                j <= overlay@.len(),
                x == q.0,
                y == q.1,
                overlay@.len() == prev.len(),
                forall|k: int| 0 <= k < j ==> #[trigger] overlay@[k] == patched(prev[k], q),
                forall|k: int| j <= k < prev.len() ==> #[trigger] overlay@[k] == prev[k],
                found <==> exists|k: int| 0 <= k < j && (#[trigger] prev[k]).0 == x && prev[k].1 == y,
            decreases overlay@.len() - j,
        {
            proof {
                assert(overlay@[j as int] == prev[j as int]);
            }
            let cur = overlay[j];
            if cur.0 == x && cur.1 == y {
                overlay.set(j, q);
                found = true;
                proof {
                    assert(prev[j as int].0 == q.0 && prev[j as int].1 == q.1);
                    assert(overlay@[j as int] == q);
                }
            } else {
                proof {
                    assert(!(prev[j as int].0 == q.0 && prev[j as int].1 == q.1));
                }
            }
            j = j + 1;
        }
        if !found {
            proof {
                assert(overlay@ =~= prev);
                assert(!has_point(prev, x, y));
            }
            overlay.push(q);
        } else {
            proof {
                assert(has_point(prev, x, y));
                assert(overlay@ =~= prev.map_values(|p: (i64, i64, u32)| patched(p, q)));
            }
        }
        i = i + 1;
    }
}

/// Apply the state transitions of one interval group, in listed order
/// (canvas ops are left for after rendering). The first failing transition
/// decides the error.
fn apply_state_ops(state: &mut PlaneState, ops: &[PlaneOp], limits: &Limits, depth: BitDepth) -> (r: Result<(), VoleError>)
    ensures
        match apply_ops(old(state).model(), ops@, ops@.len() as int, *limits, depth) {
            Ok(m) => r is Ok && final(state).model() == m,
            Err(e) => r == Err::<(), VoleError>(e),
        },
{
    let ghost s0 = state.model();
    let mut i = 0usize;
    while i < ops.len()
        invariant
            i <= ops@.len(),
            apply_ops(s0, ops@, i as int, *limits, depth) == Ok::<StateModel, VoleError>(state.model()),
            s0 == old(state).model(),
        decreases ops@.len() - i,
    {
        let ghost pre = state.model();
        let res = apply_one(state, &ops[i], limits, depth);
        proof {
            assert(apply_ops(s0, ops@, i + 1, *limits, depth) == step_op(pre, ops@[i as int], *limits, depth));
        }
        match res {
            Ok(()) => {},
            Err(e) => {
                proof {
                    assert(step_op(pre, ops@[i as int], *limits, depth) == Err::<StateModel, VoleError>(e));
                    lemma_apply_ops_stable(s0, ops@, i + 1, ops@.len() as int, *limits, depth);
                    assert(apply_ops(s0, ops@, ops@.len() as int, *limits, depth) == Err::<StateModel, VoleError>(e));
                }
                return Err(e);
            },
        }
        i = i + 1;
    }
    Ok(())
}

/// Apply one state transition.
#[verifier::loop_isolation(false)]
fn apply_one(state: &mut PlaneState, op: &PlaneOp, limits: &Limits, depth: BitDepth) -> (r: Result<(), VoleError>)
    ensures
        match step_op(old(state).model(), *op, *limits, depth) {
            Ok(m) => r is Ok && final(state).model() == m,
            Err(e) => r == Err::<(), VoleError>(e),
        },
{
    let ghost s = state.model();
    match op {
        PlaneOp::DeclareObject { id, object } => {
            check_object_depth(object, depth)?;
            if state.objects.contains_key(&id.0) {
                return Err(VoleError::DuplicateId);
            }
            proof {
                assert(s.objs.dom() =~= state.objects@.dom());
            }
            if state.objects.len() as u64 >= limits.max_objects as u64 {
                return Err(VoleError::DimensionTooLarge);
            }
            let c = copy_object(object);
            state.objects.insert(id.0, c);
            proof {
                assert(state.model().objs =~= s.objs.insert(id.0, obj_model(*object)));
                assert(state.model() =~= StateModel { objs: s.objs.insert(id.0, obj_model(*object)), ..s });
            }
            Ok(())
        },
        PlaneOp::CreateInstance { id, object, x, y } => {
            if !state.objects.contains_key(&object.0) {
                return Err(VoleError::UnknownObject);
            }
            proof {
                lemma_inst_index(s.insts, *id, 0);
            }
            let mut j = 0usize;
            while j < state.instances.len()
                invariant
                    j <= s.insts.len(),
                    state.model() == s,
                    forall|q: int| 0 <= q < j ==> #[trigger] s.insts[q].id != *id,
                decreases s.insts.len() - j,
            {
                if state.instances[j].id == *id {
                    return Err(VoleError::DuplicateId);
                }
                j = j + 1;
            }
            if state.instances.len() as u64 >= limits.max_instances as u64 {
                return Err(VoleError::DimensionTooLarge);
            }
            state.instances.push(PlaneInstance { id: *id, object: *object, x: *x, y: *y });
            proof {
                assert(state.model() =~= StateModel { insts: s.insts.push(PlaneInstance { id: *id, object: *object, x: *x, y: *y }), ..s });
            }
            Ok(())
        },
        PlaneOp::SetPosition { id, x, y } => {
            proof {
                lemma_inst_index(s.insts, *id, 0);
            }
            let mut j = 0usize;
            while j < state.instances.len()
                invariant
                    j <= s.insts.len(),
                    state.model() == s,
                    forall|q: int| 0 <= q < j ==> #[trigger] s.insts[q].id != *id,
                decreases s.insts.len() - j,
            {
                if state.instances[j].id == *id {
                    proof {
                        assert(inst_index(s.insts, *id, 0) == Some(j as int)) by {
                            lemma_first_inst(s.insts, *id, 0, j as int);
                        }
                    }
                    let inst = state.instances[j];
                    state.instances.set(j, PlaneInstance { id: inst.id, object: inst.object, x: *x, y: *y });
                    proof {
                        assert(state.model() =~= StateModel {
                            insts: s.insts.update(j as int, PlaneInstance { x: *x, y: *y, ..s.insts[j as int] }),
                            ..s
                        });
                    }
                    return Ok(());
                }
                j = j + 1;
            }
            Err(VoleError::UnknownInstance)
        },
        PlaneOp::ClearInstances => {
            state.instances.clear();
            proof {
                assert(state.model() =~= StateModel { insts: Seq::empty(), ..s });
            }
            Ok(())
        },
        PlaneOp::ClearOverlay => {
            state.overlay.clear();
            proof {
                assert(state.model() =~= StateModel { ovl: Seq::empty(), ..s });
            }
            Ok(())
        },
        PlaneOp::PatchOverlay { points } => {
            check_points(points.as_slice(), depth)?;
            add_points(&mut state.overlay, points.as_slice());
            if state.overlay.len() as u64 > limits.max_overlay_points as u64 {
                return Err(VoleError::DimensionTooLarge);
            }
            proof {
                assert(state.model() =~= StateModel { ovl: overlay_added(s.ovl, points@, points@.len() as int), ..s });
            }
            Ok(())
        },
        _ => Ok(()),
    }
}

/// The first instance carrying `id` at or after `i` is at `j` when none
/// before `j` carries it.
proof fn lemma_first_inst(insts: Seq<PlaneInstance>, id: PlaneInstanceId, i: int, j: int)
    requires
        0 <= i <= j < insts.len(),
        insts[j].id == id,
        forall|q: int| i <= q < j ==> #[trigger] insts[q].id != id,
    ensures
        inst_index(insts, id, i) == Some(j),
    decreases j - i,
{
    if i < j {
        lemma_first_inst(insts, id, i + 1, j);
    }
}

/// Row-major samples of a `w × h` rendering of a state.
pub open spec fn render_seq(s: StateModel, w: int, h: int) -> Seq<u32> {
    Seq::new((w * h) as nat, |i: int| rendered(s, i % w, i / w))
}

/// Sample `(x, y)` after COPY_RECT of the `cw × ch` box at `(sx, sy)` of
/// `prev` to `(dx, dy)` over `base`: written where both the source and
/// destination positions are inside the `w × h` plane.
pub open spec fn copy_value(
    base: Seq<u32>,
    prev: Seq<u32>,
    w: int,
    h: int,
    sx: int,
    sy: int,
    cw: int,
    ch: int,
    dx: int,
    dy: int,
    x: int,
    y: int,
) -> u32 {
    let sj = x - dx;
    let si = y - dy;
    if 0 <= sj < cw && 0 <= si < ch && 0 <= sx + sj < w && 0 <= sy + si < h {
        prev[(sy + si) * w + sx + sj]
    } else {
        base[y * w + x]
    }
}

/// The canvas after COPY_RECT.
pub open spec fn copy_seq(base: Seq<u32>, prev: Seq<u32>, w: int, h: int, sx: int, sy: int, cw: int, ch: int, dx: int, dy: int) -> Seq<u32> {
    Seq::new(base.len(), |i: int| copy_value(base, prev, w, h, sx, sy, cw, ch, dx, dy, i % w, i / w))
}

/// Residual record `k`: `x` (`i32` LE at `10k`).
pub open spec fn rec_x(p: Seq<u8>, k: int) -> i64 {
    word_coeff(read4(p, 10 * k))
}

/// Residual record `k`: `y` (`i32` LE at `10k + 4`).
pub open spec fn rec_y(p: Seq<u8>, k: int) -> i64 {
    word_coeff(read4(p, 10 * k + 4))
}

/// Residual record `k`: value (`u16` LE at `10k + 8`).
pub open spec fn rec_v(p: Seq<u8>, k: int) -> u32 {
    (p[10 * k + 8] + 256 * p[10 * k + 9]) as u32
}

/// The first fault among the first `n` residual records of a `w × h`
/// plane: a position off the plane or not strictly after the previous one
/// (`NonCanonicalEncoding`), or a value above `max` (`InvalidSamples`).
pub open spec fn residual_fault(p: Seq<u8>, w: int, h: int, max: nat, n: int) -> Option<VoleError>
    decreases n,
{
    if n <= 0 {
        None
    } else {
        match residual_fault(p, w, h, max, n - 1) {
            Some(e) => Some(e),
            None => {
                let k = n - 1;
                if rec_x(p, k) < 0 || rec_y(p, k) < 0 || rec_x(p, k) >= w || rec_y(p, k) >= h {
                    Some(VoleError::NonCanonicalEncoding)
                } else if k > 0 && key_le((rec_x(p, k), rec_y(p, k)), (rec_x(p, k - 1), rec_y(p, k - 1))) {
                    Some(VoleError::NonCanonicalEncoding)
                } else if rec_v(p, k) > max {
                    Some(VoleError::InvalidSamples)
                } else {
                    None
                }
            },
        }
    }
}

/// The canvas after overwriting the first `n` residual records.
pub open spec fn residual_put(c: Seq<u32>, p: Seq<u8>, w: int, n: int) -> Seq<u32>
    decreases n,
{
    if n <= 0 {
        c
    } else {
        residual_put(c, p, w, n - 1).update(rec_y(p, n - 1) * w + rec_x(p, n - 1), rec_v(p, n - 1))
    }
}

/// The canvas after a residual block, or its error: the block's decode
/// error, a payload not made of 10-byte records (`NonCanonicalEncoding`),
/// or the first faulty record.
pub open spec fn residual_result(c: Seq<u32>, block: Seq<u8>, w: int, h: int, depth: BitDepth, limits: Limits) -> Result<Seq<u32>, VoleError> {
    match decode_block_spec(block, limits.max_residual_bytes) {
        Err(e) => Err(e),
        Ok(p) => if p.len() % 10 != 0 {
            Err(VoleError::NonCanonicalEncoding)
        } else {
            match residual_fault(p, w, h, depth.max(), (p.len() / 10) as int) {
                Some(e) => Err(e),
                None => Ok(residual_put(c, p, w, (p.len() / 10) as int)),
            }
        },
    }
}

/// One canvas op over `base`, reading `prev` (state transitions leave the
/// canvas as it is).
pub open spec fn canvas_step(base: Seq<u32>, prev: Seq<u32>, op: PlaneOp, w: int, h: int, depth: BitDepth, limits: Limits) -> Result<Seq<u32>, VoleError> {
    match op {
        PlaneOp::CopyRect { src_x, src_y, width, height, dst_x, dst_y } => Ok(
            copy_seq(base, prev, w, h, src_x as int, src_y as int, width as int, height as int, dst_x as int, dst_y as int),
        ),
        PlaneOp::Residual { block } => residual_result(base, block@, w, h, depth, limits),
        _ => Ok(base),
    }
}

/// The canvas after the canvas ops among the first `n` ops, in order.
pub open spec fn canvas_ops(base: Seq<u32>, prev: Seq<u32>, ops: Seq<PlaneOp>, n: int, w: int, h: int, depth: BitDepth, limits: Limits) -> Result<Seq<u32>, VoleError>
    decreases n,
{
    if n <= 0 {
        Ok(base)
    } else {
        match canvas_ops(base, prev, ops, n - 1, w, h, depth, limits) {
            Err(e) => Err(e),
            Ok(c) => canvas_step(c, prev, ops[n - 1], w, h, depth, limits),
        }
    }
}

/// How many leading intervals, from position `k` on, have an index at most
/// `idx` (replay stops at the first later one).
pub open spec fn live_count(iv: Seq<(u64, Vec<PlaneOp>)>, idx: u64, k: int) -> int
    decreases iv.len() - k,
{
    if k < 0 || k >= iv.len() || iv[k].0 > idx {
        k
    } else {
        live_count(iv, idx, k + 1)
    }
}

/// The state and canvas after the initial rendering and the first `k`
/// interval groups, or the first error.
pub open spec fn replay(
    s0: StateModel,
    iv: Seq<(u64, Vec<PlaneOp>)>,
    k: int,
    w: u32,
    h: u32,
    depth: BitDepth,
    limits: Limits,
) -> Result<(StateModel, Seq<u32>), VoleError>
    decreases k,
{
    if k <= 0 {
        match render_error(s0, w, h, depth, limits) {
            Some(e) => Err(e),
            None => Ok((s0, render_seq(s0, w as int, h as int))),
        }
    } else {
        match replay(s0, iv, k - 1, w, h, depth, limits) {
            Err(e) => Err(e),
            Ok((s, prev)) => match apply_ops(s, iv[k - 1].1@, iv[k - 1].1@.len() as int, limits, depth) {
                Err(e) => Err(e),
                Ok(t) => match render_error(t, w, h, depth, limits) {
                    Some(e) => Err(e),
                    None => match canvas_ops(
                        render_seq(t, w as int, h as int),
                        prev,
                        iv[k - 1].1@,
                        iv[k - 1].1@.len() as int,
                        w as int,
                        h as int,
                        depth,
                        limits,
                    ) {
                        Err(e) => Err(e),
                        Ok(c) => Ok((t, c)),
                    },
                },
            },
        }
    }
}

/// The initial state of a program.
pub open spec fn initial_state(prog: PlaneProgram) -> StateModel {
    StateModel {
        bg: prog.background,
        objs: prog.objects@.map_values(|o: PlaneObject| obj_model(o)),
        insts: prog.instances@,
        ovl: prog.overlay@,
    }
}

/// Observation `idx` of a single-plane program as samples, or its error.
pub open spec fn materialized(prog: PlaneProgram, w: u32, h: u32, depth: BitDepth, idx: u64, limits: Limits) -> Result<Seq<u32>, VoleError> {
    match replay(initial_state(prog), prog.intervals@, live_count(prog.intervals@, idx, 0), w, h, depth, limits) {
        Err(e) => Err(e),
        Ok((_, c)) => Ok(c),
    }
}

/// Whether `p` is a Gray `w × h` plane at `depth` holding samples `c`.
pub open spec fn gray_plane_of(p: Plane, w: u32, h: u32, depth: BitDepth, c: Seq<u32>) -> bool {
    &&& p.comp() == Component::Gray
    &&& p.w() == w
    &&& p.h() == h
    &&& p.depth() == depth
    &&& p.sx() == 0
    &&& p.sy() == 0
    &&& p.samples() == c
}

/// A copy of a vector of plain values.
fn copy_vec<T: Copy>(v: &Vec<T>) -> (r: Vec<T>)
    ensures
        r@ == v@,
{
    let mut out: Vec<T> = Vec::new();
    let mut i = 0usize;
    while i < v.len()
        invariant
            i <= v@.len(),
            out@ == v@.subrange(0, i as int),
        decreases v@.len() - i,
    {
        out.push(v[i]);
        proof {
            assert(out@ =~= v@.subrange(0, i + 1));
        }
        i = i + 1;
    }
    proof {
        assert(v@.subrange(0, v@.len() as int) =~= v@);
    }
    out
}

/// The samples of a plane, row-major.
pub(crate) fn plane_samples(p: &Plane) -> (r: Vec<u32>)
    ensures
        r@ == p.samples(),
        forall|k: int| 0 <= k < r@.len() ==> #[trigger] r@[k] <= holdable(p.depth()),
{
    let n = p.sample_len();
    let mut out: Vec<u32> = Vec::new();
    let mut i = 0usize;
    while i < n
        invariant
            i <= n,
            n == p.samples().len(),
            out@ == p.samples().subrange(0, i as int),
            forall|k: int| 0 <= k < i ==> #[trigger] out@[k] <= holdable(p.depth()),
        decreases n - i,
    {
        out.push(p.sample(i));
        proof {
            assert(out@ =~= p.samples().subrange(0, i + 1));
        }
        i = i + 1;
    }
    proof {
        assert(p.samples().subrange(0, n as int) =~= p.samples());
    }
    out
}

/// A Gray `w × h` plane at `depth` over samples that fit its storage.
fn gray_plane(w: u32, h: u32, depth: BitDepth, c: &Vec<u32>) -> (r: Result<Plane, VoleError>)
    requires
        w > 0,
        h > 0,
        c@.len() == w * h,
        forall|k: int| 0 <= k < c@.len() ==> #[trigger] c@[k] <= holdable(depth),
    ensures
        r matches Ok(p) && gray_plane_of(p, w, h, depth, c@),
{
    let byte = depth.is_byte_depth();
    let max = depth.max_sample();
    let mut narrow: Vec<u8> = Vec::new();
    let mut wide: Vec<u16> = Vec::new();
    let mut i = 0usize;
    while i < c.len()
        invariant
            i <= c@.len(),
            byte <==> depth.b() <= 8,
            max == depth.max(),
            max <= 0xffff,
            forall|k: int| 0 <= k < c@.len() ==> #[trigger] c@[k] <= holdable(depth),
            byte ==> narrow@.len() == i && forall|k: int| 0 <= k < i ==> #[trigger] narrow@[k] as u32 == c@[k],
            !byte ==> wide@.len() == i && forall|k: int| 0 <= k < i ==> #[trigger] wide@[k] as u32 == c@[k],
        decreases c@.len() - i,
    {
        if byte {
            narrow.push(c[i] as u8);
        } else {
            wide.push(c[i] as u16);
        }
        i = i + 1;
    }
    let data = if byte {
        PlaneData::U8(narrow)
    } else {
        PlaneData::U16(wide)
    };
    assert(data_samples(data) =~= c@);
    Plane::new(Component::Gray, w, h, depth, 0, 0, data)
}

/// COPY_RECT over a canvas of `w × h` samples, reading `prev`.
#[verifier::loop_isolation(false)]
fn copy_canvas(
    base: &Vec<u32>,
    prev: &Vec<u32>,
    w: u32,
    h: u32,
    depth: BitDepth,
    sx: i64,
    sy: i64,
    cw: u32,
    ch: u32,
    dx: i64,
    dy: i64,
) -> (r: Vec<u32>)
    requires
        base@.len() == w * h,
        prev@.len() == w * h,
        forall|k: int| 0 <= k < base@.len() ==> #[trigger] base@[k] <= holdable(depth),
        forall|k: int| 0 <= k < prev@.len() ==> #[trigger] prev@[k] <= holdable(depth),
    ensures
        r@ == copy_seq(base@, prev@, w as int, h as int, sx as int, sy as int, cw as int, ch as int, dx as int, dy as int),
        forall|k: int| 0 <= k < r@.len() ==> #[trigger] r@[k] <= holdable(depth),
{
    let blen = base.len();
    let mut out: Vec<u32> = Vec::new();
    let mut y = 0u32;
    while y < h
        invariant
            y <= h,
            blen == w * h,
            out@.len() == y * w,
            forall|i: int| 0 <= i < out@.len() ==> #[trigger] out@[i] <= holdable(depth),
            forall|i: int| 0 <= i < out@.len() ==> #[trigger] out@[i] == copy_value(
                base@, prev@, w as int, h as int, sx as int, sy as int, cw as int, ch as int, dx as int, dy as int, i % (w as int), i / (w as int),
            ),
        decreases h - y,
    {
        let mut x = 0u32;
        while x < w
            invariant
                x <= w,
                y < h,
                out@.len() == y * w + x,
                forall|i: int| 0 <= i < out@.len() ==> #[trigger] out@[i] <= holdable(depth),
                forall|i: int| 0 <= i < out@.len() ==> #[trigger] out@[i] == copy_value(
                    base@, prev@, w as int, h as int, sx as int, sy as int, cw as int, ch as int, dx as int, dy as int, i % (w as int), i / (w as int),
                ),
            decreases w - x,
        {
            let sj = x as i128 - dx as i128;
            let si = y as i128 - dy as i128;
            let px = sx as i128 + sj;
            let py = sy as i128 + si;
            proof {
                lemma_pixel_index(x as int, y as int, w as int, h as int);
                vstd::arithmetic::div_mod::lemma_fundamental_div_mod_converse((y * w + x) as int, w as int, y as int, x as int);
                vstd::arithmetic::mul::lemma_mul_is_commutative(w as int, y as int);
            }
            let v = if 0 <= sj && sj < cw as i128 && 0 <= si && si < ch as i128 && 0 <= px && px < w as i128 && 0 <= py && py < h as i128 {
                proof {
                    lemma_pixel_index(px as int, py as int, w as int, h as int);
                    vstd::arithmetic::mul::lemma_mul_is_commutative(w as int, py as int);
                }
                prev[(py as usize) * (w as usize) + (px as usize)]
            } else {
                base[(y as usize) * (w as usize) + (x as usize)]
            };
            out.push(v);
            x = x + 1;
        }
        proof {
            vstd::arithmetic::mul::lemma_mul_is_distributive_add_other_way(w as int, y as int, 1);
        }
        y = y + 1;
    }
    proof {
        vstd::arithmetic::mul::lemma_mul_is_commutative(w as int, h as int);
        assert(out@ =~= copy_seq(base@, prev@, w as int, h as int, sx as int, sy as int, cw as int, ch as int, dx as int, dy as int));
    }
    out
}

/// Once the residual records have a fault, every longer prefix has the
/// same one.
proof fn lemma_residual_fault_stable(p: Seq<u8>, w: int, h: int, max: nat, a: int, b: int)
    requires
        0 <= a <= b,
        residual_fault(p, w, h, max, a) is Some,
    ensures
        residual_fault(p, w, h, max, b) == residual_fault(p, w, h, max, a),
    decreases b - a,
{
    if a < b {
        lemma_residual_fault_stable(p, w, h, max, a, b - 1);
    }
}

/// Apply a residual block to a canvas of `w × h` samples: decode the block,
/// then overwrite each `(x, y, v)` record in order.
#[verifier::loop_isolation(false)]
fn apply_residual(canvas: &mut Vec<u32>, block: &[u8], w: u32, h: u32, depth: BitDepth, limits: &Limits) -> (r: Result<(), VoleError>)
    requires
        old(canvas)@.len() == w * h,
        forall|k: int| 0 <= k < old(canvas)@.len() ==> #[trigger] old(canvas)@[k] <= holdable(depth),
    ensures
        final(canvas)@.len() == w * h,
        forall|k: int| 0 <= k < final(canvas)@.len() ==> #[trigger] final(canvas)@[k] <= holdable(depth),
        match residual_result(old(canvas)@, block@, w as int, h as int, depth, *limits) {
            Ok(c) => r is Ok && final(canvas)@ == c,
            Err(e) => r == Err::<(), VoleError>(e),
        },
{
    let ghost c0 = canvas@;
    let payload = decode_block(block, limits.max_residual_bytes)?;
    if payload.len() % 10 != 0 {
        return Err(VoleError::NonCanonicalEncoding);
    }
    let max = depth.max_sample();
    let n = payload.len() / 10;
    let ghost p = payload@;
    let clen = canvas.len();
    let mut px: i64 = 0;
    let mut py: i64 = 0;
    let mut k = 0usize;
    while k < n
        invariant
            k <= n,
            n == p.len() / 10,
            p.len() % 10 == 0,
            max == depth.max(),
            max <= holdable(depth),
            canvas@.len() == w * h,
            clen == w * h,
            forall|i: int| 0 <= i < canvas@.len() ==> #[trigger] canvas@[i] <= holdable(depth),
            residual_fault(p, w as int, h as int, depth.max(), k as int) is None,
            canvas@ == residual_put(c0, p, w as int, k as int),
            k > 0 ==> px == rec_x(p, k - 1) && py == rec_y(p, k - 1),
        decreases n - k,
    {
        let at = k * 10;
        let x = (get_le4(payload.as_slice(), at) as i32) as i64;
        let y = (get_le4(payload.as_slice(), at + 4) as i32) as i64;
        let v = payload[at + 8] as u32 + 256 * (payload[at + 9] as u32);
        if x < 0 || y < 0 || x >= w as i64 || y >= h as i64 {
            proof {
                lemma_residual_fault_stable(p, w as int, h as int, depth.max(), k + 1, n as int);
            }
            return Err(VoleError::NonCanonicalEncoding);
        }
        if k > 0 && (x < px || (x == px && y <= py)) {
            proof {
                lemma_residual_fault_stable(p, w as int, h as int, depth.max(), k + 1, n as int);
            }
            return Err(VoleError::NonCanonicalEncoding);
        }
        if v > max {
            proof {
                lemma_residual_fault_stable(p, w as int, h as int, depth.max(), k + 1, n as int);
            }
            return Err(VoleError::InvalidSamples);
        }
        proof {
            lemma_pixel_index(x as int, y as int, w as int, h as int);
            vstd::arithmetic::mul::lemma_mul_is_commutative(w as int, y as int);
        }
        canvas.set((y as usize) * (w as usize) + (x as usize), v);
        px = x;
        py = y;
        k = k + 1;
    }
    Ok(())
}

/// Whether the interval at position `k` is replayed when every one before
/// it is: how many are replayed does not change from `a` to `k`.
proof fn lemma_live_count(iv: Seq<(u64, Vec<PlaneOp>)>, idx: u64, a: int, k: int)
    requires
        0 <= a <= k <= iv.len(),
        forall|j: int| a <= j < k ==> (#[trigger] iv[j]).0 <= idx,
    ensures
        live_count(iv, idx, a) == live_count(iv, idx, k),
        live_count(iv, idx, k) >= k,
    decreases k - a,
{
    if a < k {
        lemma_live_count(iv, idx, a + 1, k);
    } else {
        lemma_live_count_floor(iv, idx, k);
    }
}

/// The replay stops no earlier than where it starts looking.
proof fn lemma_live_count_floor(iv: Seq<(u64, Vec<PlaneOp>)>, idx: u64, k: int)
    requires
        0 <= k,
    ensures
        live_count(iv, idx, k) >= k,
    decreases iv.len() - k,
{
    if k < iv.len() && iv[k].0 <= idx {
        lemma_live_count_floor(iv, idx, k + 1);
    }
}

/// Once the replay fails, every longer replay fails the same way.
proof fn lemma_replay_stable(s0: StateModel, iv: Seq<(u64, Vec<PlaneOp>)>, a: int, b: int, w: u32, h: u32, depth: BitDepth, limits: Limits)
    requires
        0 <= a <= b,
        replay(s0, iv, a, w, h, depth, limits) is Err,
    ensures
        replay(s0, iv, b, w, h, depth, limits) == replay(s0, iv, a, w, h, depth, limits),
    decreases b - a,
{
    if a < b {
        lemma_replay_stable(s0, iv, a, b - 1, w, h, depth, limits);
    }
}

/// Once the canvas ops fail, every longer prefix fails the same way.
proof fn lemma_canvas_ops_stable(base: Seq<u32>, prev: Seq<u32>, ops: Seq<PlaneOp>, a: int, b: int, w: int, h: int, depth: BitDepth, limits: Limits)
    requires
        0 <= a <= b,
        canvas_ops(base, prev, ops, a, w, h, depth, limits) is Err,
    ensures
        canvas_ops(base, prev, ops, b, w, h, depth, limits) == canvas_ops(base, prev, ops, a, w, h, depth, limits),
    decreases b - a,
{
    if a < b {
        lemma_canvas_ops_stable(base, prev, ops, a, b - 1, w, h, depth, limits);
    }
}

/// A rendering's samples are the rendered sequence.
proof fn lemma_rendering_seq(p: Plane, s: StateModel, w: u32, h: u32, depth: BitDepth)
    requires
        is_rendering(p, s, w, h, depth),
    ensures
        p.samples() == render_seq(s, w as int, h as int),
{
    assert forall|i: int| 0 <= i < w * h implies #[trigger] p.samples()[i] == render_seq(s, w as int, h as int)[i] by {
        let x = i % (w as int);
        let y = i / (w as int);
        vstd::arithmetic::div_mod::lemma_fundamental_div_mod(i, w as int);
        vstd::arithmetic::div_mod::lemma_div_pos_is_pos(i, w as int);
        vstd::arithmetic::div_mod::lemma_div_by_multiple_is_strongly_ordered(i, (w * h) as int, h as int, w as int);
        vstd::arithmetic::mul::lemma_mul_is_commutative(w as int, y);
        assert(y < h) by (nonlinear_arith)
            requires
                i == w * y + x,
                0 <= x,
                i < w * h,
                w > 0,
        ;
        assert(sample_at(p, x, y) == rendered(s, x, y));
    }
    assert(p.samples() =~= render_seq(s, w as int, h as int));
}

/// Materialize observation `idx` of a single-plane program: replay the
/// initial state and every leading interval with index at most `idx`
/// (state transitions, then the rendering, then canvas ops per group,
/// COPY reading the plane's previous observation).
#[verifier::loop_isolation(false)]
pub fn materialize_plane(prog: &PlaneProgram, width: u32, height: u32, depth: BitDepth, idx: u64, limits: &Limits) -> (r: Result<Plane, VoleError>)
    ensures
        match materialized(*prog, width, height, depth, idx, *limits) {
            Ok(c) => r matches Ok(p) && gray_plane_of(p, width, height, depth, c),
            Err(e) => r == Err::<Plane, VoleError>(e),
        },
{
    let ghost s0 = initial_state(*prog);
    let ghost iv = prog.intervals@;
    let mut state = PlaneState {
        background: prog.background,
        objects: prog.objects.clone(),
        instances: copy_vec(&prog.instances),
        overlay: copy_vec(&prog.overlay),
    };
    proof {
        assert(state.model() =~= s0);
        lemma_live_count_floor(iv, idx, 0);
    }
    let first = match render_plane(&state, width, height, depth, limits) {
        Ok(p) => p,
        Err(e) => {
            proof {
                lemma_replay_stable(s0, iv, 0, live_count(iv, idx, 0), width, height, depth, *limits);
            }
            return Err(e);
        },
    };
    proof {
        lemma_rendering_seq(first, s0, width, height, depth);
    }
    let mut prev = plane_samples(&first);
    let mut k = 0usize;
    while k < prog.intervals.len() && prog.intervals[k].0 <= idx
        invariant
            k <= iv.len(),
            iv == prog.intervals@,
            limits.canvas_ok(width, height),
            prev@.len() == width * height,
            forall|i: int| 0 <= i < prev@.len() ==> #[trigger] prev@[i] <= holdable(depth),
            forall|j: int| 0 <= j < k ==> (#[trigger] iv[j]).0 <= idx,
            replay(s0, iv, k as int, width, height, depth, *limits) == Ok::<(StateModel, Seq<u32>), VoleError>((state.model(), prev@)),
        decreases iv.len() - k,
    {
        proof {
            lemma_live_count(iv, idx, 0, k + 1);
        }
        let ops = &prog.intervals[k].1;
        let ghost pre = state.model();
        match apply_state_ops(&mut state, ops.as_slice(), limits, depth) {
            Ok(()) => {},
            Err(e) => {
                proof {
                    lemma_replay_stable(s0, iv, k + 1, live_count(iv, idx, 0), width, height, depth, *limits);
                }
                return Err(e);
            },
        }
        let base = match render_plane(&state, width, height, depth, limits) {
            Ok(p) => p,
            Err(e) => {
                proof {
                    lemma_replay_stable(s0, iv, k + 1, live_count(iv, idx, 0), width, height, depth, *limits);
                }
                return Err(e);
            },
        };
        proof {
            lemma_rendering_seq(base, state.model(), width, height, depth);
        }
        let ghost b0 = base.samples();
        let mut canvas = plane_samples(&base);
        let mut j = 0usize;
        while j < ops.len()
            invariant
                j <= ops@.len(),
                ops@ == iv[k as int].1@,
                prev@.len() == width * height,
                forall|i: int| 0 <= i < prev@.len() ==> #[trigger] prev@[i] <= holdable(depth),
                canvas@.len() == width * height,
                forall|i: int| 0 <= i < canvas@.len() ==> #[trigger] canvas@[i] <= holdable(depth),
                canvas_ops(b0, prev@, ops@, j as int, width as int, height as int, depth, *limits) == Ok::<Seq<u32>, VoleError>(canvas@),
            decreases ops@.len() - j,
        {
            match &ops[j] {
                PlaneOp::CopyRect { src_x, src_y, width: cw, height: ch, dst_x, dst_y } => {
                    canvas = copy_canvas(&canvas, &prev, width, height, depth, *src_x, *src_y, *cw, *ch, *dst_x, *dst_y);
                },
                PlaneOp::Residual { block } => {
                    match apply_residual(&mut canvas, block.as_slice(), width, height, depth, limits) {
                        Ok(()) => {},
                        Err(e) => {
                            proof {
                                lemma_canvas_ops_stable(b0, prev@, ops@, j + 1, ops@.len() as int, width as int, height as int, depth, *limits);
                                lemma_replay_stable(s0, iv, k + 1, live_count(iv, idx, 0), width, height, depth, *limits);
                            }
                            return Err(e);
                        },
                    }
                },
                _ => {},
            }
            j = j + 1;
        }
        prev = canvas;
        k = k + 1;
    }
    proof {
        lemma_live_count(iv, idx, 0, k as int);
    }
    gray_plane(width, height, depth, &prev)
}

/// Little-endian bytes of a `u16`.
pub open spec fn le2(v: u16) -> Seq<u8> {
    seq![(v % 256) as u8, (v / 256) as u8]
}

/// The residual record of a point: `x` and `y` as `i32` LE, `v` as `u16`
/// LE.
pub open spec fn record_bytes(pt: (i32, i32, u16)) -> Seq<u8> {
    le4(pt.0 as u32) + le4(pt.1 as u32) + le2(pt.2)
}

/// The records of the first `n` points, concatenated.
pub open spec fn records_bytes(pts: Seq<(i32, i32, u16)>, n: int) -> Seq<u8>
    decreases n,
{
    if n <= 0 {
        Seq::empty()
    } else {
        records_bytes(pts, n - 1) + record_bytes(pts[n - 1])
    }
}

/// Whether points are strictly ascending by `(x, y)`.
pub open spec fn points_ascending(pts: Seq<(i32, i32, u16)>) -> bool {
    forall|i: int|
        0 < i < pts.len() ==> !key_le(((#[trigger] pts[i]).0 as i64, pts[i].1 as i64), (pts[i - 1].0 as i64, pts[i - 1].1 as i64))
}

/// Encode a residual block for a list of points strictly ascending by
/// `(x, y)` (`NonCanonicalEncoding` otherwise): the 10-byte records in
/// order, in a RAW or rANS block.
pub fn encode_plane_residual(points: &[(i32, i32, u16)]) -> (r: Result<Vec<u8>, VoleError>)
    ensures
        r is Ok <==> points_ascending(points@),
        r matches Ok(b) ==> b@ == encode_block_spec(records_bytes(points@, points@.len() as int)),
        r matches Err(e) ==> e == VoleError::NonCanonicalEncoding,
{
    let mut body: Vec<u8> = Vec::new();
    let mut i = 0usize;
    while i < points.len()
        invariant
            i <= points@.len(),
            body@ == records_bytes(points@, i as int),
            forall|j: int|
                0 < j < i ==> !key_le(((#[trigger] points@[j]).0 as i64, points@[j].1 as i64), (points@[j - 1].0 as i64, points@[j - 1].1 as i64)),
        decreases points@.len() - i,
    {
        let (x, y, v) = points[i];
        if i > 0 {
            let (qx, qy, _) = points[i - 1];
            if (x as i64) < (qx as i64) || ((x as i64) == (qx as i64) && (y as i64) <= (qy as i64)) {
                return Err(VoleError::NonCanonicalEncoding);
            }
        }
        push_le4(&mut body, x as u32);
        push_le4(&mut body, y as u32);
        body.push((v % 256) as u8);
        body.push((v / 256) as u8);
        proof {
            assert(body@ =~= records_bytes(points@, i as int) + record_bytes(points@[i as int]));
        }
        i = i + 1;
    }
    Ok(encode_block(body.as_slice()))
}

/// The frozen default limits.
pub open spec fn default_limits() -> Limits {
    Limits {
        max_width: 16384,
        max_height: 16384,
        max_canvas_bytes: 1u64 << 28u64,
        max_object_bytes: 1u64 << 26u64,
        max_objects: 65536,
        max_instances: 65536,
        max_overlay_points: 1u32 << 20u32,
        max_residual_bytes: 1u64 << 28u64,
        max_trajectory_segments: 256,
        max_frames: 1u64 << 24u64,
        max_stream_bytes: 0x1_0000_0000u64,
        max_checkpoint_distance: 1u64 << 24u64,
        max_transitions_per_interval: 1u32 << 20u32,
        max_copy_area: 1u64 << 28u64,
    }
}

/// A multi-plane video program: an epoch plus one independent plane program
/// per epoch plane. Observations are aligned: each plane steps its own
/// interval group per observation.
#[derive(Debug)]
pub struct MultiPlaneProgram {
    /// The epoch declaring the plane table and interpretation.
    pub epoch: VideoEpoch,
    /// One program per epoch plane (count must equal the epoch's plane
    /// count).
    pub planes: Vec<PlaneProgram>,
}

/// The first fault among the first `n` plane programs against the epoch's
/// depths.
pub open spec fn planes_fault(e: VideoEpoch, planes: Seq<PlaneProgram>, n: int) -> Option<VoleError>
    decreases n,
{
    if n <= 0 {
        None
    } else {
        match planes_fault(e, planes, n - 1) {
            Some(x) => Some(x),
            None => program_fault(planes[n - 1], e.tmpls()[n - 1].bit_depth, default_limits()),
        }
    }
}

/// A point fault is never an integrity fault.
pub proof fn lemma_points_fault_not_integrity(ps: Seq<(i64, i64, u32)>, max: nat, n: int)
    ensures
        points_fault(ps, max, n) != Some(VoleError::IntegrityMismatch),
    decreases n,
{
    if n > 0 {
        lemma_points_fault_not_integrity(ps, max, n - 1);
    }
}

/// A plane program fault is never an integrity fault.
pub proof fn lemma_planes_fault_not_integrity(e: VideoEpoch, planes: Seq<PlaneProgram>, n: int)
    ensures
        planes_fault(e, planes, n) != Some(VoleError::IntegrityMismatch),
    decreases n,
{
    if n > 0 {
        lemma_planes_fault_not_integrity(e, planes, n - 1);
        let prog = planes[n - 1];
        lemma_points_fault_not_integrity(prog.overlay@, e.tmpls()[n - 1].bit_depth.max(), prog.overlay@.len() as int);
    }
}

/// The samples of observation `idx` of the first `n` planes, or the first
/// plane's error (a plane beyond the epoch's table is `GeometryMismatch`).
pub open spec fn observation_samples(e: VideoEpoch, planes: Seq<PlaneProgram>, idx: u64, n: int) -> Result<Seq<Seq<u32>>, VoleError>
    decreases n,
{
    if n <= 0 {
        Ok(Seq::empty())
    } else {
        match observation_samples(e, planes, idx, n - 1) {
            Err(x) => Err(x),
            Ok(prev) => if n - 1 >= e.tmpls().len() {
                Err(VoleError::GeometryMismatch)
            } else {
                match materialized(planes[n - 1], e.dims(n - 1).0, e.dims(n - 1).1, e.tmpls()[n - 1].bit_depth, idx, default_limits()) {
                    Err(x) => Err(x),
                    Ok(c) => Ok(prev.push(c)),
                }
            },
        }
    }
}

/// Once one plane fails, every longer prefix fails the same way.
proof fn lemma_observation_stable(e: VideoEpoch, planes: Seq<PlaneProgram>, idx: u64, a: int, b: int)
    requires
        0 <= a <= b,
        observation_samples(e, planes, idx, a) is Err,
    ensures
        observation_samples(e, planes, idx, b) == observation_samples(e, planes, idx, a),
    decreases b - a,
{
    if a < b {
        lemma_observation_stable(e, planes, idx, a, b - 1);
    }
}

/// Once one plane program fails, every longer prefix fails the same way.
proof fn lemma_planes_fault_stable(e: VideoEpoch, planes: Seq<PlaneProgram>, a: int, b: int)
    requires
        0 <= a <= b,
        planes_fault(e, planes, a) is Some,
    ensures
        planes_fault(e, planes, b) == planes_fault(e, planes, a),
    decreases b - a,
{
    if a < b {
        lemma_planes_fault_stable(e, planes, a, b - 1);
    }
}

/// The last interval index of a program, or 0 without intervals.
pub open spec fn last_interval(p: PlaneProgram) -> u64 {
    if p.intervals@.len() == 0 {
        0
    } else {
        p.intervals@.last().0
    }
}

/// The largest last interval index among the first `n` programs.
pub open spec fn max_last(planes: Seq<PlaneProgram>, n: int) -> u64
    decreases n,
{
    if n <= 0 {
        0
    } else {
        let m = max_last(planes, n - 1);
        let l = last_interval(planes[n - 1]);
        if l > m {
            l
        } else {
            m
        }
    }
}

impl MultiPlaneProgram {
    /// Validate: the plane count matches the epoch (`GeometryMismatch`) and
    /// every plane program's initial values fit the plane's depth under the
    /// default limits (the first failing plane decides the error).
    pub fn new(epoch: VideoEpoch, planes: Vec<PlaneProgram>) -> (r: Result<Self, VoleError>)
        ensures
            planes@.len() != epoch.tmpls().len() ==> r == Err::<Self, VoleError>(VoleError::GeometryMismatch),
            planes@.len() == epoch.tmpls().len() ==> match planes_fault(epoch, planes@, planes@.len() as int) {
                Some(e) => r == Err::<Self, VoleError>(e),
                None => r matches Ok(m) && m.epoch == epoch && m.planes@ == planes@,
            },
    {
        let limits = Limits::default();
        if planes.len() != epoch.plane_count() {
            return Err(VoleError::GeometryMismatch);
        }
        let tmpls = epoch.planes();
        let mut i = 0usize;
        while i < planes.len()
            invariant
                i <= planes@.len(),
                planes@.len() == epoch.tmpls().len(),
                tmpls@ == epoch.tmpls(),
                limits == default_limits(),
                planes_fault(epoch, planes@, i as int) is None,
            decreases planes@.len() - i,
        {
            match check_program_depth(&planes[i], tmpls[i].bit_depth, &limits) {
                Ok(()) => {},
                Err(e) => {
                    proof {
                        lemma_planes_fault_stable(epoch, planes@, i + 1, planes@.len() as int);
                    }
                    return Err(e);
                },
            }
            i = i + 1;
        }
        Ok(MultiPlaneProgram { epoch, planes })
    }

    /// Materialize observation `idx` as a [`Picture`] matching the epoch:
    /// each plane from its own program at its own geometry and depth. The
    /// first failing plane decides the error; a plane count off the epoch's
    /// is `GeometryMismatch`.
    #[verifier::rlimit(30)]
    pub fn materialize_observation(&self, idx: u64) -> (r: Result<Picture, VoleError>)
        ensures
            match observation_samples(self.epoch, self.planes@, idx, self.planes@.len() as int) {
                Err(e) => r == Err::<Picture, VoleError>(e),
                Ok(cs) => if self.planes@.len() != self.epoch.tmpls().len() {
                    r == Err::<Picture, VoleError>(VoleError::GeometryMismatch)
                } else {
                    r matches Ok(pic) && observation_fits(self.epoch, pic.pls()) && forall|i: int|
                        0 <= i < cs.len() ==> (#[trigger] pic.pls()[i]).samples() == cs[i]
                },
            },
    {
        let limits = Limits::default();
        let tmpls = self.epoch.planes();
        let mut out: Vec<Plane> = Vec::new();
        let ghost mut cs: Seq<Seq<u32>> = Seq::empty();
        let mut i = 0usize;
        while i < self.planes.len()
            invariant
                i <= self.planes@.len(),
                tmpls@ == self.epoch.tmpls(),
                limits == default_limits(),
                observation_samples(self.epoch, self.planes@, idx, i as int) == Ok::<Seq<Seq<u32>>, VoleError>(cs),
                out@.len() == i,
                cs.len() == i,
                i <= tmpls@.len(),
                forall|j: int| 0 <= j < tmpls@.len() ==> (#[trigger] tmpls@[j]).subsample_x <= 1 && tmpls@[j].subsample_y <= 1,
                forall|j: int| 0 <= j < i ==> plane_matches(tmpls@[j], self.epoch.dims(j), #[trigger] out@[j]),
                forall|j: int| 0 <= j < i ==> (#[trigger] out@[j]).samples() == cs[j],
            decreases self.planes@.len() - i,
        {
            let (pw, ph) = match self.epoch.plane_dimensions(i) {
                Ok(d) => d,
                Err(e) => {
                    proof {
                        lemma_observation_stable(self.epoch, self.planes@, idx, i + 1, self.planes@.len() as int);
                    }
                    return Err(e);
                },
            };
            let t = tmpls[i];
            let plane = match materialize_plane(&self.planes[i], pw, ph, t.bit_depth, idx, &limits) {
                Ok(p) => p,
                Err(e) => {
                    proof {
                        lemma_observation_stable(self.epoch, self.planes@, idx, i + 1, self.planes@.len() as int);
                    }
                    return Err(e);
                },
            };
            let ghost c = plane.samples();
            let (_, _, _, data) = plane.into_parts();
            let q = match Plane::new(t.component, pw, ph, t.bit_depth, t.subsample_x, t.subsample_y, data) {
                Ok(q) => q,
                Err(e) => {
                    return Err(e);
                },
            };
            out.push(q);
            proof {
                cs = cs.push(c);
            }
            i = i + 1;
        }
        Picture::from_planes(&self.epoch, out)
    }

    /// The number of materializable observations: one more than the
    /// largest last interval index over planes (each program starts at
    /// observation 0).
    pub fn observation_count(&self) -> (r: u64)
        requires
            max_last(self.planes@, self.planes@.len() as int) < u64::MAX,
        ensures
            r == max_last(self.planes@, self.planes@.len() as int) + 1,
    {
        let mut m: u64 = 0;
        let mut i = 0usize;
        while i < self.planes.len()
            invariant
                i <= self.planes@.len(),
                m == max_last(self.planes@, i as int),
            decreases self.planes@.len() - i,
        {
            let n = self.planes[i].intervals.len();
            let l = if n == 0 {
                0
            } else {
                self.planes[i].intervals[n - 1].0
            };
            if l > m {
                m = l;
            }
            i = i + 1;
        }
        m + 1
    }
}

/// Materialize every observation as pictures, in order; the first failing
/// observation decides the error.
pub fn materialize_all_observations(prog: &MultiPlaneProgram) -> (r: Result<Vec<Picture>, VoleError>)
    requires
        max_last(prog.planes@, prog.planes@.len() as int) < u64::MAX,
    ensures
        r matches Ok(v) ==> v@.len() == max_last(prog.planes@, prog.planes@.len() as int) + 1 && forall|i: int|
            0 <= i < v@.len() ==> observation_fits(prog.epoch, (#[trigger] v@[i]).pls()) && observation_samples(
                prog.epoch,
                prog.planes@,
                i as u64,
                prog.planes@.len() as int,
            ) == Ok::<Seq<Seq<u32>>, VoleError>(Seq::new(v@[i].pls().len(), |j: int| v@[i].pls()[j].samples())),
        r is Err ==> exists|i: u64|
            i <= max_last(prog.planes@, prog.planes@.len() as int) && (#[trigger] observation_samples(
                prog.epoch,
                prog.planes@,
                i,
                prog.planes@.len() as int,
            ) is Err || prog.planes@.len() != prog.epoch.tmpls().len()),
{
    let count = prog.observation_count();
    let mut out: Vec<Picture> = Vec::new();
    let mut idx: u64 = 0;
    while idx < count
        invariant
            idx <= count,
            count == max_last(prog.planes@, prog.planes@.len() as int) + 1,
            out@.len() == idx,
            forall|i: int|
                0 <= i < idx ==> observation_fits(prog.epoch, (#[trigger] out@[i]).pls()) && observation_samples(
                    prog.epoch,
                    prog.planes@,
                    i as u64,
                    prog.planes@.len() as int,
                ) == Ok::<Seq<Seq<u32>>, VoleError>(Seq::new(out@[i].pls().len(), |j: int| out@[i].pls()[j].samples())),
        decreases count - idx,
    {
        let pic = match prog.materialize_observation(idx) {
            Ok(p) => p,
            Err(e) => {
                proof {
                    assert(observation_samples(prog.epoch, prog.planes@, idx, prog.planes@.len() as int) is Err
                        || prog.planes@.len() != prog.epoch.tmpls().len());
                }
                return Err(e);
            },
        };
        proof {
            let cs = observation_samples(prog.epoch, prog.planes@, idx, prog.planes@.len() as int)->Ok_0;
            lemma_observation_len(prog.epoch, prog.planes@, idx, prog.planes@.len() as int);
            assert(Seq::new(pic.pls().len(), |j: int| pic.pls()[j].samples()) =~= cs);
        }
        out.push(pic);
        idx = idx + 1;
    }
    Ok(out)
}

/// A successful observation has one sample sequence per plane.
pub proof fn lemma_observation_len(e: VideoEpoch, planes: Seq<PlaneProgram>, idx: u64, n: int)
    requires
        0 <= n,
    ensures
        observation_samples(e, planes, idx, n) matches Ok(cs) ==> cs.len() == n,
    decreases n,
{
    if n > 0 {
        lemma_observation_len(e, planes, idx, n - 1);
    }
}

} // verus!
