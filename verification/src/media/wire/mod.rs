//! The multi-plane core container of one epoch.
//!
//! ```text
//! File := Header MediaDescriptor PlaneBlock* Integrity
//! ```
//!
//! * `Header` (24 bytes): magic `"VOLE"`, reserved `0`, `format_version = 2`
//!   (`u16`), `universe_id = 2` (`u32`), `limit_profile = 1`, feature bits
//!   (`u32`, none defined), coded `width`, `height` (`u32`);
//! * `MediaDescriptor` (tag `0x11`): layout code, per-plane component and
//!   depth table, chroma location, color description, SAR, orientation and
//!   field structure;
//! * `PlaneBlock` (tag `0x10`, one per epoch plane, ascending index): the
//!   plane program — background, object declarations (ascending id),
//!   initial instances, overlay and interval groups of ops;
//! * `Integrity`: the last 32 bytes are BLAKE3 over every preceding byte.
//!
//! Every integer is little-endian; coordinates are `i32` words bounded by
//! `±MAX_COORD`. Every count and length is bounded by the default
//! [`Limits`]; unknown codes, tags and non-canonical encodings fail closed
//! with typed errors.

pub mod codes;

use vstd::prelude::*;

use std::collections::BTreeMap;

use vstd::std_specs::btree::spec_btree_map_iter;
use vstd::std_specs::iter::IteratorSpec;

use crate::error::VoleError;
use crate::integrity::{blake3_digest, blake3_of};
use crate::limits::Limits;
use crate::media::encode::payload_bytes;
use crate::media::color::ColorDescription;
use crate::media::epoch::{EpochId, PlaneTemplate, VideoEpoch};
use crate::media::meta::SampleAspectRatio;
use crate::media::layout::{layout_planes, PixelLayout};
use crate::media::gen::{le4, le8, push_le4};
use crate::media::plane::{data_len, data_samples, le_bytes_of, words_of_le, BitDepth, PlaneData};
use crate::media::procedural::{
    default_limits, le2, MultiPlaneProgram, PlaneContent, PlaneInstance, PlaneObject, PlaneOp,
    PlaneProgram,
};
use codes::{
    chroma_code, chroma_code_spec, chroma_of, component_code, component_code_spec, component_of,
    field_code, field_of, layout_code, layout_of, matrix_code, matrix_of, orientation_code,
    orientation_of, primaries_code, primaries_of, range_code, range_of, transfer_code, transfer_of, field_code_spec, layout_code_spec, matrix_code_spec,
    orientation_code_spec, primaries_code_spec, range_code_spec, transfer_code_spec,
    OBJECT_FILL, OBJECT_RASTER, OP_CLEAR_INSTANCES, OP_CLEAR_OVERLAY, OP_COPY_RECT,
    OP_CREATE_INSTANCE, OP_DECLARE_OBJECT, OP_PATCH_OVERLAY, OP_RESIDUAL, OP_SET_POSITION,
    TAG_DESCRIPTOR, TAG_PLANE,
};

verus! {

broadcast use vstd::laws_cmp::group_laws_cmp;

/// Feature bits of the container (none defined; unknown bits fail closed).
pub const V2_FEATURES: u32 = 0;

/// Canonical coordinate bound: `|x|, |y| ≤ 2^24`.
pub const MAX_COORD: i64 = 16777216;

/// Whether a coordinate passes the bound when bounds are checked (`c`).
pub open spec fn cok(c: bool, v: i64) -> bool {
    !c || coord_ok(v)
}

/// Whether a coordinate is inside the canonical bound.
pub open spec fn coord_ok(v: i64) -> bool {
    -MAX_COORD <= v <= MAX_COORD
}

/// The `i32` two's-complement wire word of an in-bound coordinate.
pub open spec fn coord_word(v: i64) -> u32 {
    if v >= 0 {
        v as u32
    } else {
        (v + 0x1_0000_0000) as u32
    }
}

/// Check a coordinate against the canonical bound.
fn check_coord(v: i64) -> (r: Result<(), VoleError>)
    ensures
        r is Ok <==> coord_ok(v),
        r matches Err(e) ==> e == VoleError::NonCanonicalEncoding,
{
    if v < -MAX_COORD || v > MAX_COORD {
        return Err(VoleError::NonCanonicalEncoding);
    }
    Ok(())
}

/// The wire word of an in-bound coordinate.
fn word_of_coord(v: i64) -> (r: u32)
    requires
        coord_ok(v),
    ensures
        r == coord_word(v),
{
    if v >= 0 {
        v as u32
    } else {
        (v + 0x1_0000_0000) as u32
    }
}

// ---------------------------------------------------------------------------
// The canonical encoding
// ---------------------------------------------------------------------------

/// Content record of an object.
pub open spec fn enc_content(c: PlaneContent) -> Seq<u8> {
    match c {
        PlaneContent::Fill(v) => seq![OBJECT_FILL] + le4(v),
        PlaneContent::Raster(d) => seq![OBJECT_RASTER] + le8(payload_bytes(d) as u64) + match d {
            PlaneData::U8(v) => v@,
            PlaneData::U16(v) => le_bytes_of(v@),
        },
    }
}

/// Object record: id, width, height, content.
pub open spec fn enc_object(id: u32, o: PlaneObject) -> Seq<u8> {
    le4(id) + le4(o.width) + le4(o.height) + enc_content(o.content)
}

/// Whether an object can be written at plane depth `d`: nonempty, a fill
/// inside the depth, or a raster of exactly `width × height` samples in
/// the depth's storage and range.
pub open spec fn object_writable(o: PlaneObject, d: BitDepth) -> bool {
    &&& o.width > 0
    &&& o.height > 0
    &&& match o.content {
        PlaneContent::Fill(v) => v <= d.max(),
        PlaneContent::Raster(data) => {
            &&& data_len(data) == o.width * o.height
            &&& (data is U8 <==> d.b() <= 8)
            &&& forall|i: int| 0 <= i < data_len(data) ==> #[trigger] data_samples(data)[i] <= d.max()
            &&& payload_bytes(data) <= u64::MAX
        },
    }
}

/// Point record: `x`, `y` coordinate words and the value.
pub open spec fn enc_point(p: (i64, i64, u32)) -> Seq<u8> {
    le4(coord_word(p.0)) + le4(coord_word(p.1)) + le4(p.2)
}

/// Whether a point can be written at depth `d`.
pub open spec fn point_writable(p: (i64, i64, u32), d: BitDepth, c: bool) -> bool {
    cok(c, p.0) && cok(c, p.1) && p.2 <= d.max()
}

/// Records of a point list.
pub open spec fn enc_points(s: Seq<(i64, i64, u32)>) -> Seq<u8>
    decreases s.len(),
{
    if s.len() == 0 {
        Seq::empty()
    } else {
        enc_points(s.drop_last()) + enc_point(s.last())
    }
}

/// Instance record: id, object id, coordinate words.
pub open spec fn enc_instance(i: PlaneInstance) -> Seq<u8> {
    le4(i.id.0) + le4(i.object.0) + le4(coord_word(i.x)) + le4(coord_word(i.y))
}

/// Records of an instance list.
pub open spec fn enc_instances(s: Seq<PlaneInstance>) -> Seq<u8>
    decreases s.len(),
{
    if s.len() == 0 {
        Seq::empty()
    } else {
        enc_instances(s.drop_last()) + enc_instance(s.last())
    }
}

/// Record of one op.
pub open spec fn enc_op(op: PlaneOp) -> Seq<u8> {
    match op {
        PlaneOp::DeclareObject { id, object } => seq![OP_DECLARE_OBJECT] + enc_object(id.0, object),
        PlaneOp::CreateInstance { id, object, x, y } => seq![OP_CREATE_INSTANCE] + le4(id.0) + le4(
            object.0,
        ) + le4(coord_word(x)) + le4(coord_word(y)),
        PlaneOp::SetPosition { id, x, y } => seq![OP_SET_POSITION] + le4(id.0) + le4(coord_word(x))
            + le4(coord_word(y)),
        PlaneOp::ClearInstances => seq![OP_CLEAR_INSTANCES],
        PlaneOp::ClearOverlay => seq![OP_CLEAR_OVERLAY],
        PlaneOp::PatchOverlay { points } => seq![OP_PATCH_OVERLAY] + le4(points@.len() as u32)
            + enc_points(points@),
        PlaneOp::CopyRect { src_x, src_y, width, height, dst_x, dst_y } => seq![OP_COPY_RECT] + le4(
            coord_word(src_x),
        ) + le4(coord_word(src_y)) + le4(width) + le4(height) + le4(coord_word(dst_x)) + le4(
            coord_word(dst_y),
        ),
        PlaneOp::Residual { block } => seq![OP_RESIDUAL] + le8(block@.len() as u64) + block@,
    }
}

/// Whether an op can be written at depth `d`.
pub open spec fn op_writable(op: PlaneOp, d: BitDepth, c: bool) -> bool {
    match op {
        PlaneOp::DeclareObject { object, .. } => object_writable(object, d),
        PlaneOp::CreateInstance { x, y, .. } => cok(c, x) && cok(c, y),
        PlaneOp::SetPosition { x, y, .. } => cok(c, x) && cok(c, y),
        PlaneOp::ClearInstances => true,
        PlaneOp::ClearOverlay => true,
        PlaneOp::PatchOverlay { points } => points@.len() <= u32::MAX && forall|i: int|
            0 <= i < points@.len() ==> point_writable(#[trigger] points@[i], d, c),
        PlaneOp::CopyRect { src_x, src_y, dst_x, dst_y, .. } => cok(c, src_x) && cok(c, src_y)
            && cok(c, dst_x) && cok(c, dst_y),
        PlaneOp::Residual { block } => block@.len() <= default_limits().max_residual_bytes,
    }
}

/// Records of an op list.
pub open spec fn enc_ops(s: Seq<PlaneOp>) -> Seq<u8>
    decreases s.len(),
{
    if s.len() == 0 {
        Seq::empty()
    } else {
        enc_ops(s.drop_last()) + enc_op(s.last())
    }
}

/// Record of one interval group: `t`, op count, ops.
pub open spec fn enc_interval(iv: (u64, Vec<PlaneOp>)) -> Seq<u8> {
    le8(iv.0) + le4(iv.1@.len() as u32) + enc_ops(iv.1@)
}

/// Records of the interval groups.
pub open spec fn enc_intervals(s: Seq<(u64, Vec<PlaneOp>)>) -> Seq<u8>
    decreases s.len(),
{
    if s.len() == 0 {
        Seq::empty()
    } else {
        enc_intervals(s.drop_last()) + enc_interval(s.last())
    }
}

/// Whether ids are strictly ascending.
pub open spec fn ascending(s: Seq<u32>) -> bool {
    forall|i: int, j: int| 0 <= i < j < s.len() ==> s[i] < s[j]
}

/// The ids of a map in ascending order.
pub open spec fn ascending_keys(m: Map<u32, PlaneObject>) -> Seq<u32> {
    choose|s: Seq<u32>| ascending(s) && forall|k: u32| s.contains(k) <==> m.dom().contains(k)
}

/// The entries of an object map in ascending id order.
pub open spec fn map_entries(m: Map<u32, PlaneObject>) -> Seq<(u32, PlaneObject)> {
    ascending_keys(m).map_values(|k: u32| (k, m[k]))
}

/// The declared objects of a program in ascending id order.
pub open spec fn object_entries(p: PlaneProgram) -> Seq<(u32, PlaneObject)> {
    map_entries(p.objects@)
}

/// Two ascending id sequences with the same members are equal.
proof fn lemma_ascending_unique(a: Seq<u32>, b: Seq<u32>)
    requires
        ascending(a),
        ascending(b),
        forall|k: u32| a.contains(k) <==> b.contains(k),
    ensures
        a == b,
    decreases a.len(),
{
    if a.len() == 0 {
        if b.len() > 0 {
            assert(b.contains(b[0]));
        }
        assert(a =~= b);
    } else {
        assert(a.contains(a[0]));
        assert(b.len() > 0);
        assert(b.contains(b[0]));
        let ia = choose|i: int| 0 <= i < a.len() && a[i] == b[0];
        let ib = choose|i: int| 0 <= i < b.len() && b[i] == a[0];
        assert(a[0] <= a[ia]);
        assert(b[0] <= b[ib]);
        assert(a[0] == b[0]);
        let (a1, b1) = (a.drop_first(), b.drop_first());
        assert forall|k: u32| a1.contains(k) <==> b1.contains(k) by {
            if a1.contains(k) {
                let i = choose|i: int| 0 <= i < a1.len() && a1[i] == k;
                assert(a[i + 1] == k);
                assert(b.contains(k));
                let j = choose|j: int| 0 <= j < b.len() && b[j] == k;
                assert(a[0] < a[i + 1]);
                assert(j != 0);
                assert(b1[j - 1] == k);
            }
            if b1.contains(k) {
                let i = choose|i: int| 0 <= i < b1.len() && b1[i] == k;
                assert(b[i + 1] == k);
                assert(a.contains(k));
                let j = choose|j: int| 0 <= j < a.len() && a[j] == k;
                assert(b[0] < b[i + 1]);
                assert(j != 0);
                assert(a1[j - 1] == k);
            }
        }
        lemma_ascending_unique(a1, b1);
        assert(a =~= seq![a[0]] + a1);
        assert(b =~= seq![b[0]] + b1);
    }
}

/// An ascending enumeration of a map's ids is its `ascending_keys`.
proof fn lemma_ascending_keys_is(m: Map<u32, PlaneObject>, s: Seq<u32>)
    requires
        ascending(s),
        forall|k: u32| s.contains(k) <==> m.dom().contains(k),
    ensures
        ascending_keys(m) == s,
{
    let t = ascending_keys(m);
    assert(ascending(t) && forall|k: u32| t.contains(k) <==> m.dom().contains(k));
    lemma_ascending_unique(t, s);
}

/// `ascending_keys` enumerates exactly the ids of a finite map.
proof fn lemma_ascending_keys_len(m: Map<u32, PlaneObject>)
    requires
        m.dom().finite(),
    ensures
        ascending(ascending_keys(m)),
        forall|k: u32| ascending_keys(m).contains(k) <==> m.dom().contains(k),
        ascending_keys(m).len() == m.dom().len(),
{
    lemma_ascending_exists(m.dom());
    let s = ascending_keys(m);
    assert(ascending(s) && forall|k: u32| s.contains(k) <==> m.dom().contains(k));
    assert(s.no_duplicates()) by {
        assert forall|i: int, j: int| 0 <= i < s.len() && 0 <= j < s.len() && i != j implies s[i] != s[j] by {
            if i < j {
                assert(s[i] < s[j]);
            } else {
                assert(s[j] < s[i]);
            }
        }
    }
    s.unique_seq_to_set();
    assert(s.to_set() =~= m.dom());
}

/// Every finite id set has an ascending enumeration.
proof fn lemma_ascending_exists(d: Set<u32>)
    requires
        d.finite(),
    ensures
        exists|s: Seq<u32>| ascending(s) && forall|k: u32| s.contains(k) <==> d.contains(k),
    decreases d.len(),
{
    if d.len() == 0 {
        let s = Seq::<u32>::empty();
        assert(d =~= Set::empty());
        assert(ascending(s) && forall|k: u32| s.contains(k) <==> d.contains(k));
    } else {
        lemma_has_max(d);
        let top = choose|k: u32| d.contains(k) && forall|j: u32| d.contains(j) ==> j <= k;
        let rest = d.remove(top);
        lemma_ascending_exists(rest);
        let s0 = choose|s: Seq<u32>| ascending(s) && forall|k: u32| s.contains(k) <==> rest.contains(k);
        let s = s0.push(top);
        assert forall|i: int, j: int| 0 <= i < j < s.len() implies s[i] < s[j] by {
            if j == s.len() - 1 {
                assert(s0.contains(s[i]));
                assert(rest.contains(s[i]));
            }
        }
        assert forall|k: u32| s.contains(k) <==> d.contains(k) by {
            if s.contains(k) && k != top {
                let i = choose|i: int| 0 <= i < s.len() && s[i] == k;
                assert(s0[i] == k);
            }
            if d.contains(k) && k != top {
                assert(rest.contains(k));
                let i = choose|i: int| 0 <= i < s0.len() && s0[i] == k;
                assert(s[i] == k);
            }
            if k == top {
                assert(s[s.len() - 1] == top);
            }
        }
        assert(ascending(s) && forall|k: u32| s.contains(k) <==> d.contains(k));
    }
}

/// A nonempty finite id set has a largest member.
proof fn lemma_has_max(d: Set<u32>)
    requires
        d.finite(),
        d.len() > 0,
    ensures
        exists|k: u32| d.contains(k) && forall|j: u32| d.contains(j) ==> j <= k,
    decreases d.len(),
{
    let a = d.choose();
    assert(d.contains(a));
    let rest = d.remove(a);
    if rest.len() == 0 {
        assert forall|j: u32| d.contains(j) implies j <= a by {
            if j != a {
                assert(rest.contains(j));
            }
        }
    } else {
        lemma_has_max(rest);
        let b = choose|k: u32| rest.contains(k) && forall|j: u32| rest.contains(j) ==> j <= k;
        let top = if a >= b { a } else { b };
        assert forall|j: u32| d.contains(j) implies j <= top by {
            if j != a {
                assert(rest.contains(j));
            }
        }
        assert(d.contains(top));
    }
}

/// Records of an object list.
pub open spec fn enc_objects(s: Seq<(u32, PlaneObject)>) -> Seq<u8>
    decreases s.len(),
{
    if s.len() == 0 {
        Seq::empty()
    } else {
        enc_objects(s.drop_last()) + enc_object(s.last().0, s.last().1)
    }
}

/// Whether a plane program can be written at depth `d`.
pub open spec fn plane_writable(p: PlaneProgram, d: BitDepth, c: bool) -> bool {
    &&& object_entries(p).len() <= u32::MAX
    &&& forall|i: int| 0 <= i < object_entries(p).len() ==> object_writable(#[trigger] object_entries(p)[i].1, d)
    &&& p.instances@.len() <= u32::MAX
    &&& forall|i: int| 0 <= i < p.instances@.len() ==> cok(c, (#[trigger] p.instances@[i]).x) && cok(c, p.instances@[i].y)
    &&& p.overlay@.len() <= u32::MAX
    &&& forall|i: int| 0 <= i < p.overlay@.len() ==> point_writable(#[trigger] p.overlay@[i], d, c)
    &&& p.intervals@.len() <= u32::MAX
    &&& forall|i: int| 0 <= i < p.intervals@.len() ==> (#[trigger] p.intervals@[i]).1@.len() <= u32::MAX
    &&& forall|i: int, j: int|
        0 <= i < p.intervals@.len() && 0 <= j < p.intervals@[i].1@.len() ==> op_writable(
            #[trigger] p.intervals@[i].1@[j],
            d,
            c,
        )
}

/// Plane block: tag, index, background, objects, instances, overlay,
/// interval groups.
pub open spec fn enc_plane(i: int, p: PlaneProgram) -> Seq<u8> {
    seq![TAG_PLANE, i as u8] + le4(p.background) + le4(object_entries(p).len() as u32) + enc_objects(
        object_entries(p),
    ) + le4(p.instances@.len() as u32) + enc_instances(p.instances@) + le4(p.overlay@.len() as u32)
        + enc_points(p.overlay@) + le4(p.intervals@.len() as u32) + enc_intervals(p.intervals@)
}

/// Plane blocks of the first `n` programs.
pub open spec fn enc_planes(ps: Seq<PlaneProgram>, n: int) -> Seq<u8>
    decreases n,
{
    if n <= 0 {
        Seq::empty()
    } else {
        enc_planes(ps, n - 1) + enc_plane(n - 1, ps[n - 1])
    }
}

/// The 24-byte header.
pub open spec fn enc_header(e: VideoEpoch) -> Seq<u8> {
    seq![0x56u8, 0x4fu8, 0x4cu8, 0x45u8, 0u8] + le2(2) + le4(2) + seq![1u8] + le4(V2_FEATURES) + le4(
        e.w(),
    ) + le4(e.h())
}

/// Component / depth table of the descriptor.
pub open spec fn enc_plane_table(ts: Seq<PlaneTemplate>) -> Seq<u8>
    decreases ts.len(),
{
    if ts.len() == 0 {
        Seq::empty()
    } else {
        enc_plane_table(ts.drop_last()) + seq![
            component_code_spec(ts.last().component),
            ts.last().bit_depth.b(),
        ]
    }
}

/// The media descriptor.
pub open spec fn enc_descriptor(e: VideoEpoch) -> Seq<u8> {
    seq![TAG_DESCRIPTOR] + le2(layout_code_spec(e.lay())) + seq![e.tmpls().len() as u8]
        + enc_plane_table(e.tmpls()) + seq![
        chroma_code_spec(e.col().c()),
        primaries_code_spec(e.col().p()),
        transfer_code_spec(e.col().t()),
        matrix_code_spec(e.col().m()),
        range_code_spec(e.col().r()),
    ] + le4(e.sar_m().w()) + le4(e.sar_m().h()) + seq![
        orientation_code_spec(e.ori()),
        field_code_spec(e.fs()),
    ]
}

/// Everything before the integrity trailer.
pub open spec fn wire_body(p: MultiPlaneProgram) -> Seq<u8> {
    enc_header(p.epoch) + enc_descriptor(p.epoch) + enc_planes(p.planes@, p.planes@.len() as int)
}

/// The complete container: body plus its BLAKE3 trailer.
pub open spec fn wire_file(p: MultiPlaneProgram) -> Seq<u8> {
    wire_body(p) + blake3_of(wire_body(p))
}

/// Whether a program can be written: one program per epoch plane, the
/// canvas inside the default limits, no side data, and every plane
/// program writable at its plane's depth.
pub open spec fn writable(p: MultiPlaneProgram) -> bool {
    writable_at(p, true)
}

/// `writable`, with the coordinate bound checked only when `c` holds.
pub open spec fn writable_at(p: MultiPlaneProgram, c: bool) -> bool {
    &&& p.planes@.len() == p.epoch.tmpls().len()
    &&& default_limits().canvas_ok(p.epoch.w(), p.epoch.h())
    &&& p.epoch.sd().len() == 0
    &&& forall|i: int| 0 <= i < p.planes@.len() ==> plane_writable(#[trigger] p.planes@[i], p.epoch.tmpls()[i].bit_depth, c)
}

/// The errors a failed write reports.
pub open spec fn write_error(e: VoleError) -> bool {
    ||| e == VoleError::InvalidSamples
    ||| e == VoleError::NonCanonicalEncoding
    ||| e == VoleError::DimensionTooLarge
    ||| e == VoleError::ArithmeticOverflow
}

// ---------------------------------------------------------------------------
// Serialization
// ---------------------------------------------------------------------------

fn push_le2(out: &mut Vec<u8>, v: u16)
    ensures
        final(out)@ == old(out)@ + le2(v),
{
    out.push((v % 256) as u8);
    out.push((v / 256) as u8);
    proof {
        assert(final(out)@ =~= old(out)@ + le2(v));
    }
}

pub(crate) fn push_le8(out: &mut Vec<u8>, v: u64)
    ensures
        final(out)@ == old(out)@ + le8(v),
{
    let ghost start = out@;
    push_le4(out, (v & 0xffff_ffff) as u32);
    push_le4(out, (v >> 32u64) as u32);
    proof {
        assert(out@ =~= start + le8(v));
    }
}

pub(crate) fn push_seq(out: &mut Vec<u8>, bytes: &[u8])
    ensures
        final(out)@ == old(out)@ + bytes@,
{
    out.extend_from_slice(bytes);
    proof {
        assert(final(out)@ =~= old(out)@ + bytes@);
    }
}

fn push_words(out: &mut Vec<u8>, v: &Vec<u16>)
    ensures
        final(out)@ == old(out)@ + le_bytes_of(v@),
{
    let ghost start = out@;
    let mut i = 0usize;
    while i < v.len()
        invariant
            i <= v@.len(),
            out@ == start + le_bytes_of(v@).take(2 * i),
        decreases v@.len() - i,
    {
        let w = v[i];
        out.push((w % 256) as u8);
        out.push((w / 256) as u8);
        proof {
            assert(out@ =~= start + le_bytes_of(v@).take(2 * (i + 1)));
        }
        i = i + 1;
    }
    proof {
        assert(le_bytes_of(v@).take(2 * v@.len() as int) =~= le_bytes_of(v@));
    }
}

/// Write one object record at plane depth `depth`.
fn write_object(out: &mut Vec<u8>, id: u32, obj: &PlaneObject, depth: BitDepth) -> (r: Result<(), VoleError>)
    ensures
        r is Ok <==> object_writable(*obj, depth),
        r matches Ok(_) ==> final(out)@ == old(out)@ + enc_object(id, *obj),
        r matches Err(e) ==> write_error(e),
        r matches Err(e) ==> e != VoleError::NonCanonicalEncoding,
{
    if obj.width == 0 || obj.height == 0 {
        return Err(VoleError::InvalidSamples);
    }
    let max = depth.max_sample();
    let ghost start = out@;
    push_le4(out, id);
    push_le4(out, obj.width);
    push_le4(out, obj.height);
    match &obj.content {
        PlaneContent::Fill(v) => {
            if *v > max {
                return Err(VoleError::InvalidSamples);
            }
            out.push(OBJECT_FILL);
            push_le4(out, *v);
            proof {
                assert(out@ =~= start + enc_object(id, *obj));
            }
        },
        PlaneContent::Raster(data) => {
            proof {
                assert(0 <= obj.width * obj.height <= 0xffff_fffe_0000_0001) by (nonlinear_arith)
                    requires
                        obj.width <= 0xffff_ffff,
                        obj.height <= 0xffff_ffff,
                ;
            }
            if data.len() as u64 != (obj.width as u64) * (obj.height as u64) {
                return Err(VoleError::InvalidSamples);
            }
            match data {
                PlaneData::U8(v) => {
                    if !depth.is_byte_depth() {
                        return Err(VoleError::InvalidSamples);
                    }
                    let mut i = 0usize;
                    while i < v.len()
                        invariant
                            i <= v@.len(),
                            max == depth.max(),
                            *data == PlaneData::U8(*v),
                            obj.content == PlaneContent::Raster(*data),
                            forall|k: int| 0 <= k < i ==> #[trigger] data_samples(*data)[k] <= max,
                        decreases v@.len() - i,
                    {
                        if v[i] as u32 > max {
                            proof {
                                assert(data_samples(*data)[i as int] > depth.max());
                                assert(i < data_len(*data));
                                assert(!object_writable(*obj, depth));
                            }
                            return Err(VoleError::InvalidSamples);
                        }
                        i = i + 1;
                    }
                    out.push(OBJECT_RASTER);
                    push_le8(out, v.len() as u64);
                    push_seq(out, v.as_slice());
                    proof {
                        assert(out@ =~= start + enc_object(id, *obj));
                    }
                },
                PlaneData::U16(v) => {
                    if depth.is_byte_depth() {
                        return Err(VoleError::InvalidSamples);
                    }
                    let mut i = 0usize;
                    while i < v.len()
                        invariant
                            i <= v@.len(),
                            max == depth.max(),
                            *data == PlaneData::U16(*v),
                            obj.content == PlaneContent::Raster(*data),
                            forall|k: int| 0 <= k < i ==> #[trigger] data_samples(*data)[k] <= max,
                        decreases v@.len() - i,
                    {
                        if v[i] as u32 > max {
                            proof {
                                assert(data_samples(*data)[i as int] > depth.max());
                                assert(i < data_len(*data));
                                assert(!object_writable(*obj, depth));
                            }
                            return Err(VoleError::InvalidSamples);
                        }
                        i = i + 1;
                    }
                    let n = match (v.len() as u64).checked_mul(2) {
                        Some(n) => n,
                        None => {
                            return Err(VoleError::ArithmeticOverflow);
                        },
                    };
                    out.push(OBJECT_RASTER);
                    push_le8(out, n);
                    push_words(out, v);
                    proof {
                        assert(out@ =~= start + enc_object(id, *obj));
                    }
                },
            }
        },
    }
    Ok(())
}

/// Write the records of a point list.
fn write_points(out: &mut Vec<u8>, points: &Vec<(i64, i64, u32)>, depth: BitDepth) -> (r: Result<(), VoleError>)
    ensures
        r is Ok <==> forall|i: int| 0 <= i < points@.len() ==> point_writable(#[trigger] points@[i], depth, true),
        r matches Ok(_) ==> final(out)@ == old(out)@ + enc_points(points@),
        r matches Err(e) ==> write_error(e),
        r matches Err(e) ==> e != VoleError::NonCanonicalEncoding ==> !forall|i: int|
            0 <= i < points@.len() ==> point_writable(#[trigger] points@[i], depth, false),
{
    let max = depth.max_sample();
    let ghost start = out@;
    let mut i = 0usize;
    while i < points.len()
        invariant
            i <= points@.len(),
            max == depth.max(),
            forall|k: int| 0 <= k < i ==> point_writable(#[trigger] points@[k], depth, true),
            out@ == start + enc_points(points@.take(i as int)),
        decreases points@.len() - i,
    {
        let (x, y, v) = points[i];
        if check_coord(x).is_err() || check_coord(y).is_err() {
            return Err(VoleError::NonCanonicalEncoding);
        }
        if v > max {
            return Err(VoleError::InvalidSamples);
        }
        let ghost before = out@;
        push_le4(out, word_of_coord(x));
        push_le4(out, word_of_coord(y));
        push_le4(out, v);
        proof {
            assert(points@.take(i + 1).drop_last() =~= points@.take(i as int));
            assert(points@.take(i + 1).last() == points@[i as int]);
            assert(out@ =~= start + enc_points(points@.take(i + 1)));
        }
        i = i + 1;
    }
    proof {
        assert(points@.take(points@.len() as int) =~= points@);
    }
    Ok(())
}

/// Write one op record.
fn write_op(out: &mut Vec<u8>, op: &PlaneOp, depth: BitDepth, limits: &Limits) -> (r: Result<(), VoleError>)
    requires
        *limits == default_limits(),
    ensures
        r is Ok <==> op_writable(*op, depth, true),
        r matches Ok(_) ==> final(out)@ == old(out)@ + enc_op(*op),
        r matches Err(e) ==> write_error(e),
        r matches Err(e) ==> e != VoleError::NonCanonicalEncoding ==> !op_writable(*op, depth, false),
{
    let ghost start = out@;
    match op {
        PlaneOp::DeclareObject { id, object } => {
            out.push(OP_DECLARE_OBJECT);
            write_object(out, id.0, object, depth)?;
        },
        PlaneOp::CreateInstance { id, object, x, y } => {
            check_coord(*x)?;
            check_coord(*y)?;
            out.push(OP_CREATE_INSTANCE);
            push_le4(out, id.0);
            push_le4(out, object.0);
            push_le4(out, word_of_coord(*x));
            push_le4(out, word_of_coord(*y));
        },
        PlaneOp::SetPosition { id, x, y } => {
            check_coord(*x)?;
            check_coord(*y)?;
            out.push(OP_SET_POSITION);
            push_le4(out, id.0);
            push_le4(out, word_of_coord(*x));
            push_le4(out, word_of_coord(*y));
        },
        PlaneOp::ClearInstances => {
            out.push(OP_CLEAR_INSTANCES);
        },
        PlaneOp::ClearOverlay => {
            out.push(OP_CLEAR_OVERLAY);
        },
        PlaneOp::PatchOverlay { points } => {
            if points.len() as u64 > 0xffff_ffff {
                return Err(VoleError::DimensionTooLarge);
            }
            out.push(OP_PATCH_OVERLAY);
            push_le4(out, points.len() as u32);
            write_points(out, points, depth)?;
        },
        PlaneOp::CopyRect { src_x, src_y, width, height, dst_x, dst_y } => {
            check_coord(*src_x)?;
            check_coord(*src_y)?;
            check_coord(*dst_x)?;
            check_coord(*dst_y)?;
            out.push(OP_COPY_RECT);
            push_le4(out, word_of_coord(*src_x));
            push_le4(out, word_of_coord(*src_y));
            push_le4(out, *width);
            push_le4(out, *height);
            push_le4(out, word_of_coord(*dst_x));
            push_le4(out, word_of_coord(*dst_y));
        },
        PlaneOp::Residual { block } => {
            if block.len() as u64 > limits.max_residual_bytes {
                return Err(VoleError::DimensionTooLarge);
            }
            out.push(OP_RESIDUAL);
            push_le8(out, block.len() as u64);
            push_seq(out, block.as_slice());
        },
    }
    proof {
        assert(out@ =~= start + enc_op(*op));
    }
    Ok(())
}

/// Write the records of one interval group's ops.
fn write_ops(out: &mut Vec<u8>, ops: &Vec<PlaneOp>, depth: BitDepth, limits: &Limits) -> (r: Result<(), VoleError>)
    requires
        *limits == default_limits(),
    ensures
        r is Ok <==> forall|j: int| 0 <= j < ops@.len() ==> op_writable(#[trigger] ops@[j], depth, true),
        r matches Ok(_) ==> final(out)@ == old(out)@ + enc_ops(ops@),
        r matches Err(e) ==> write_error(e),
        r matches Err(e) ==> e != VoleError::NonCanonicalEncoding ==> !forall|j: int|
            0 <= j < ops@.len() ==> op_writable(#[trigger] ops@[j], depth, false),
{
    let ghost start = out@;
    let mut i = 0usize;
    while i < ops.len()
        invariant
            i <= ops@.len(),
            *limits == default_limits(),
            forall|k: int| 0 <= k < i ==> op_writable(#[trigger] ops@[k], depth, true),
            out@ == start + enc_ops(ops@.take(i as int)),
        decreases ops@.len() - i,
    {
        write_op(out, &ops[i], depth, limits)?;
        proof {
            assert(ops@.take(i + 1).drop_last() =~= ops@.take(i as int));
            assert(ops@.take(i + 1).last() == ops@[i as int]);
            assert(out@ =~= start + enc_ops(ops@.take(i + 1)));
        }
        i = i + 1;
    }
    proof {
        assert(ops@.take(ops@.len() as int) =~= ops@);
    }
    Ok(())
}


/// The ascending iteration of a program's objects is `object_entries`.
proof fn lemma_iter_entries(p: PlaneProgram)
    requires
        vstd::std_specs::btree::increasing_seq(
            spec_btree_map_iter(&p.objects).remaining().map_values(|kv: (&u32, &PlaneObject)| *kv.0),
        ),
    ensures
        ({
            let v = spec_btree_map_iter(&p.objects).remaining();
            &&& v.len() == object_entries(p).len()
            &&& forall|j: int| 0 <= j < v.len() ==> (*v[j].0, *v[j].1) == #[trigger] object_entries(p)[j]
        }),
{
    broadcast use vstd::std_specs::btree::group_btree_axioms;

    let v = spec_btree_map_iter(&p.objects).remaining();
    let ks = v.map_values(|kv: (&u32, &PlaneObject)| *kv.0);
    assert(vstd::laws_cmp::obeys_cmp::<u32>());
    assert(vstd::std_specs::btree::increasing_seq(ks));
    assert forall|i: int, j: int| 0 <= i < j < ks.len() implies ks[i] < ks[j] by {
        assert(vstd::std_specs::cmp::OrdSpec::cmp_spec(&ks[i], &ks[j]) is Less);
    }
    assert forall|k: u32| ks.contains(k) <==> p.objects@.dom().contains(k) by {
        if ks.contains(k) {
            let j = choose|j: int| 0 <= j < ks.len() && ks[j] == k;
            assert(p.objects@.contains_key(*v[j].0));
        }
        if p.objects@.dom().contains(k) {
            assert(v.contains((&k, &p.objects@[k])));
            let j = choose|j: int| 0 <= j < v.len() && v[j] == (&k, &p.objects@[k]);
            assert(ks[j] == k);
        }
    }
    lemma_ascending_keys_is(p.objects@, ks);
    assert forall|j: int| 0 <= j < v.len() implies (*v[j].0, *v[j].1) == #[trigger] object_entries(p)[j] by {
        assert(p.objects@.contains_key(*v[j].0) && p.objects@[*v[j].0] == *v[j].1);
        assert(ks[j] == *v[j].0);
    }
}

/// Whether every declared object can be written at depth `d`.
pub open spec fn objects_writable(p: PlaneProgram, d: BitDepth) -> bool {
    forall|i: int| 0 <= i < object_entries(p).len() ==> object_writable(#[trigger] object_entries(p)[i].1, d)
}

/// Write the object records of a program in ascending id order.
fn write_objects(out: &mut Vec<u8>, prog: &PlaneProgram, depth: BitDepth) -> (r: Result<(), VoleError>)
    ensures
        r is Ok <==> objects_writable(*prog, depth),
        r matches Ok(_) ==> final(out)@ == old(out)@ + enc_objects(object_entries(*prog)),
        r matches Err(e) ==> write_error(e),
        r matches Err(e) ==> e != VoleError::NonCanonicalEncoding,
{
    broadcast use vstd::std_specs::btree::group_btree_axioms;

    let ghost start = out@;
    let ghost entries = object_entries(*prog);
    let objs = prog.objects.iter();
    proof {
        lemma_iter_entries(*prog);
    }
    for kv in it: objs
        invariant
            it.seq() == spec_btree_map_iter(&prog.objects).remaining(),
            it.seq().len() == entries.len(),
            entries == object_entries(*prog),
            forall|j: int| 0 <= j < it.seq().len() ==> (*it.seq()[j].0, *it.seq()[j].1) == #[trigger] entries[j],
            forall|j: int| 0 <= j < it.index() ==> object_writable(#[trigger] entries[j].1, depth),
            out@ == start + enc_objects(entries.take(it.index() as int)),
    {
        let (k, obj) = kv;
        let ghost idx = it.index() as int;
        proof {
            assert(entries[idx] == (*k, *obj));
        }
        write_object(out, *k, obj, depth)?;
        proof {
            assert(entries.take(idx + 1).drop_last() =~= entries.take(idx));
            assert(entries.take(idx + 1).last() == entries[idx]);
        }
    }
    proof {
        assert(entries.take(entries.len() as int) =~= entries);
    }
    Ok(())
}

/// Write the records of an instance list.
fn write_instances(out: &mut Vec<u8>, insts: &Vec<PlaneInstance>) -> (r: Result<(), VoleError>)
    ensures
        r is Ok <==> forall|j: int| 0 <= j < insts@.len() ==> coord_ok((#[trigger] insts@[j]).x) && coord_ok(insts@[j].y),
        r matches Ok(_) ==> final(out)@ == old(out)@ + enc_instances(insts@),
        r matches Err(e) ==> write_error(e),
        r matches Err(e) ==> e == VoleError::NonCanonicalEncoding,
{
    let ghost start = out@;
    let mut k = 0usize;
    while k < insts.len()
        invariant
            k <= insts@.len(),
            forall|j: int| 0 <= j < k ==> coord_ok((#[trigger] insts@[j]).x) && coord_ok(insts@[j].y),
            out@ == start + enc_instances(insts@.take(k as int)),
        decreases insts@.len() - k,
    {
        let inst = insts[k];
        check_coord(inst.x)?;
        check_coord(inst.y)?;
        push_le4(out, inst.id.0);
        push_le4(out, inst.object.0);
        push_le4(out, word_of_coord(inst.x));
        push_le4(out, word_of_coord(inst.y));
        proof {
            assert(insts@.take(k + 1).drop_last() =~= insts@.take(k as int));
            assert(insts@.take(k + 1).last() == insts@[k as int]);
            assert(out@ =~= start + enc_instances(insts@.take(k + 1)));
        }
        k = k + 1;
    }
    proof {
        assert(insts@.take(insts@.len() as int) =~= insts@);
    }
    Ok(())
}

/// Whether every interval group can be written at depth `d`.
pub open spec fn intervals_writable(ivs: Seq<(u64, Vec<PlaneOp>)>, d: BitDepth, c: bool) -> bool {
    &&& forall|j: int| 0 <= j < ivs.len() ==> (#[trigger] ivs[j]).1@.len() <= u32::MAX
    &&& forall|j: int, q: int|
        0 <= j < ivs.len() && 0 <= q < ivs[j].1@.len() ==> op_writable(#[trigger] ivs[j].1@[q], d, c)
}

/// Write the interval groups.
fn write_intervals(out: &mut Vec<u8>, ivs: &Vec<(u64, Vec<PlaneOp>)>, depth: BitDepth, limits: &Limits) -> (r: Result<(), VoleError>)
    requires
        *limits == default_limits(),
    ensures
        r is Ok <==> intervals_writable(ivs@, depth, true),
        r matches Ok(_) ==> final(out)@ == old(out)@ + enc_intervals(ivs@),
        r matches Err(e) ==> write_error(e),
        r matches Err(e) ==> e != VoleError::NonCanonicalEncoding ==> !intervals_writable(ivs@, depth, false),
{
    let ghost start = out@;
    let mut t = 0usize;
    while t < ivs.len()
        invariant
            t <= ivs@.len(),
            *limits == default_limits(),
            forall|j: int| 0 <= j < t ==> (#[trigger] ivs@[j]).1@.len() <= u32::MAX,
            forall|j: int, q: int|
                0 <= j < t && 0 <= q < ivs@[j].1@.len() ==> op_writable(#[trigger] ivs@[j].1@[q], depth, true),
            out@ == start + enc_intervals(ivs@.take(t as int)),
        decreases ivs@.len() - t,
    {
        let ghost before = out@;
        let ops = &ivs[t].1;
        if ops.len() as u64 > 0xffff_ffff {
            return Err(VoleError::DimensionTooLarge);
        }
        push_le8(out, ivs[t].0);
        push_le4(out, ops.len() as u32);
        write_ops(out, ops, depth, limits)?;
        proof {
            assert(out@ =~= before + enc_interval(ivs@[t as int]));
            assert(ivs@.take(t + 1).drop_last() =~= ivs@.take(t as int));
            assert(ivs@.take(t + 1).last() == ivs@[t as int]);
            assert(out@ =~= start + enc_intervals(ivs@.take(t + 1)));
        }
        t = t + 1;
    }
    proof {
        assert(ivs@.take(ivs@.len() as int) =~= ivs@);
    }
    Ok(())
}

/// The number of declared objects.
fn object_count(prog: &PlaneProgram) -> (r: usize)
    ensures
        r == object_entries(*prog).len(),
{
    broadcast use vstd::std_specs::btree::group_btree_axioms;

    assert(vstd::laws_cmp::obeys_cmp::<u32>());
    let n = prog.objects.len();
    proof {
        lemma_ascending_keys_len(prog.objects@);
    }
    n
}

/// Write one plane block.
#[verifier::rlimit(40)]
fn write_plane(out: &mut Vec<u8>, i: u8, prog: &PlaneProgram, depth: BitDepth, limits: &Limits) -> (r: Result<(), VoleError>)
    requires
        *limits == default_limits(),
    ensures
        r is Ok <==> plane_writable(*prog, depth, true),
        r matches Ok(_) ==> final(out)@ == old(out)@ + enc_plane(i as int, *prog),
        r matches Err(e) ==> write_error(e),
        r matches Err(e) ==> e != VoleError::NonCanonicalEncoding ==> !plane_writable(*prog, depth, false),
{
    let ghost start = out@;
    out.push(TAG_PLANE);
    out.push(i);
    push_le4(out, prog.background);
    let n_objects = object_count(prog);
    if n_objects as u64 > 0xffff_ffff {
        return Err(VoleError::DimensionTooLarge);
    }
    push_le4(out, n_objects as u32);
    let ghost m1 = out@;
    write_objects(out, prog, depth)?;
    let ghost m2 = out@;
    if prog.instances.len() as u64 > 0xffff_ffff {
        return Err(VoleError::DimensionTooLarge);
    }
    push_le4(out, prog.instances.len() as u32);
    write_instances(out, &prog.instances)?;
    let ghost m3 = out@;
    if prog.overlay.len() as u64 > 0xffff_ffff {
        return Err(VoleError::DimensionTooLarge);
    }
    push_le4(out, prog.overlay.len() as u32);
    write_points(out, &prog.overlay, depth)?;
    let ghost m4 = out@;
    if prog.intervals.len() as u64 > 0xffff_ffff {
        return Err(VoleError::DimensionTooLarge);
    }
    push_le4(out, prog.intervals.len() as u32);
    write_intervals(out, &prog.intervals, depth, limits)?;
    proof {
        let e = object_entries(*prog);
        assert(m1 =~= start + (seq![TAG_PLANE, i] + le4(prog.background) + le4(e.len() as u32)));
        assert(m2 == m1 + enc_objects(e));
        assert(m3 == m2 + le4(prog.instances@.len() as u32) + enc_instances(prog.instances@));
        assert(m4 == m3 + le4(prog.overlay@.len() as u32) + enc_points(prog.overlay@));
        assert(out@ == m4 + le4(prog.intervals@.len() as u32) + enc_intervals(prog.intervals@));
        assert(out@ =~= start + enc_plane(i as int, *prog));
    }
    Ok(())
}

/// Every layout has at most four planes.
pub(crate) proof fn lemma_layout_planes_small(l: PixelLayout)
    ensures
        layout_planes(l).len() <= 4,
{
    match l {
        PixelLayout::Gray => {},
        PixelLayout::Yuv400 => {},
        PixelLayout::Yuv420 => {},
        PixelLayout::Yuv422 => {},
        PixelLayout::Yuv444 => {},
        PixelLayout::Yuva420 => {},
        PixelLayout::Yuva444 => {},
        PixelLayout::Gbr => {},
        PixelLayout::Gbra => {},
        PixelLayout::Rgb => {},
        PixelLayout::Bgr => {},
        PixelLayout::Rgba => {},
        PixelLayout::Bgra => {},
        PixelLayout::Argb => {},
        PixelLayout::Abgr => {},
        PixelLayout::Indexed => {},
    }
}

/// Write the 24-byte header.
fn write_header(out: &mut Vec<u8>, epoch: &VideoEpoch)
    ensures
        final(out)@ == old(out)@ + enc_header(*epoch),
{
    let ghost start = out@;
    out.push(0x56u8);
    out.push(0x4fu8);
    out.push(0x4cu8);
    out.push(0x45u8);
    out.push(0u8);
    let ghost a = out@;
    push_le2(out, 2);
    push_le4(out, 2);
    out.push(1u8);
    let ghost b = out@;
    push_le4(out, V2_FEATURES);
    push_le4(out, epoch.width());
    push_le4(out, epoch.height());
    proof {
        assert(a =~= start + seq![0x56u8, 0x4fu8, 0x4cu8, 0x45u8, 0u8]);
        assert(b =~= a + le2(2) + le4(2) + seq![1u8]);
        assert(out@ =~= b + le4(V2_FEATURES) + le4(epoch.w()) + le4(epoch.h()));
        assert(out@ =~= start + enc_header(*epoch));
    }
}

/// The color / SAR / orientation tail of the descriptor.
pub open spec fn enc_descriptor_tail(e: VideoEpoch) -> Seq<u8> {
    seq![
        chroma_code_spec(e.col().c()),
        primaries_code_spec(e.col().p()),
        transfer_code_spec(e.col().t()),
        matrix_code_spec(e.col().m()),
        range_code_spec(e.col().r()),
    ] + le4(e.sar_m().w()) + le4(e.sar_m().h()) + seq![
        orientation_code_spec(e.ori()),
        field_code_spec(e.fs()),
    ]
}

fn write_descriptor_tail(out: &mut Vec<u8>, epoch: &VideoEpoch)
    ensures
        final(out)@ == old(out)@ + enc_descriptor_tail(*epoch),
{
    let ghost start = out@;
    let color = epoch.color();
    out.push(chroma_code(color.chroma_location()));
    out.push(primaries_code(color.primaries()));
    out.push(transfer_code(color.transfer()));
    out.push(matrix_code(color.matrix()));
    out.push(range_code(color.range()));
    let ghost a = out@;
    push_le4(out, epoch.sar().width());
    push_le4(out, epoch.sar().height());
    let ghost b = out@;
    out.push(orientation_code(epoch.orientation()));
    out.push(field_code(epoch.field_structure()));
    proof {
        assert(b =~= a + le4(epoch.sar_m().w()) + le4(epoch.sar_m().h()));
        assert(out@ =~= start + enc_descriptor_tail(*epoch));
    }
}

/// Write the media descriptor.
fn write_descriptor(out: &mut Vec<u8>, epoch: &VideoEpoch)
    ensures
        final(out)@ == old(out)@ + enc_descriptor(*epoch),
{
    let ghost start = out@;
    out.push(TAG_DESCRIPTOR);
    push_le2(out, layout_code(epoch.layout()));
    let tm = epoch.planes();
    let n = epoch.plane_count();
    proof {
        lemma_layout_planes_small(epoch.lay());
    }
    out.push(n as u8);
    let ghost table_at = out@;
    let mut i = 0usize;
    while i < tm.len()
        invariant
            i <= tm@.len(),
            tm@ == epoch.tmpls(),
            out@ == table_at + enc_plane_table(tm@.take(i as int)),
        decreases tm@.len() - i,
    {
        out.push(component_code(tm[i].component));
        out.push(tm[i].bit_depth.bits());
        proof {
            assert(tm@.take(i + 1).drop_last() =~= tm@.take(i as int));
            assert(tm@.take(i + 1).last() == tm@[i as int]);
            assert(out@ =~= table_at + enc_plane_table(tm@.take(i + 1)));
        }
        i = i + 1;
    }
    proof {
        assert(tm@.take(tm@.len() as int) =~= tm@);
    }
    let ghost tail_at = out@;
    write_descriptor_tail(out, epoch);
    proof {
        assert(out@ =~= start + enc_descriptor(*epoch));
    }
}

/// Serialize the multi-plane container of one epoch: header, media
/// descriptor, one block per plane program and the BLAKE3 trailer.
#[verifier::rlimit(40)]
pub fn write_multiplane(program: &MultiPlaneProgram) -> (r: Result<Vec<u8>, VoleError>)
    ensures
        r is Ok <==> writable(*program),
        r matches Ok(b) ==> b@ == wire_file(*program),
        program.planes@.len() != program.epoch.tmpls().len() ==> r == Err::<Vec<u8>, VoleError>(
            VoleError::GeometryMismatch,
        ),
        program.planes@.len() == program.epoch.tmpls().len() && !default_limits().canvas_ok(
            program.epoch.w(),
            program.epoch.h(),
        ) ==> r == Err::<Vec<u8>, VoleError>(VoleError::DimensionTooLarge),
        program.planes@.len() == program.epoch.tmpls().len() && default_limits().canvas_ok(
            program.epoch.w(),
            program.epoch.h(),
        ) && program.epoch.sd().len() != 0 ==> r == Err::<Vec<u8>, VoleError>(
            VoleError::ApiConstraint,
        ),
        r matches Err(e) ==> e == VoleError::GeometryMismatch || e == VoleError::ApiConstraint || write_error(e),
        writable_at(*program, false) && !writable(*program) ==> r == Err::<Vec<u8>, VoleError>(
            VoleError::NonCanonicalEncoding,
        ),
{
    let limits = Limits::default();
    let epoch = &program.epoch;
    if program.planes.len() != epoch.plane_count() {
        return Err(VoleError::GeometryMismatch);
    }
    limits.check_canvas(epoch.width(), epoch.height())?;
    if epoch.side_data().len() != 0 {
        return Err(VoleError::ApiConstraint);
    }
    let mut out: Vec<u8> = Vec::new();
    write_header(&mut out, epoch);
    write_descriptor(&mut out, epoch);
    let ghost planes_at = out@;
    let tm = epoch.planes();
    let mut i = 0usize;
    while i < program.planes.len()
        invariant
            i <= program.planes@.len(),
            program.planes@.len() == tm@.len(),
            tm@ == program.epoch.tmpls(),
            tm@.len() <= 4,
            limits == default_limits(),
            default_limits().canvas_ok(program.epoch.w(), program.epoch.h()),
            program.epoch.sd().len() == 0,
            forall|j: int| 0 <= j < i ==> plane_writable(#[trigger] program.planes@[j], program.epoch.tmpls()[j].bit_depth, true),
            out@ == planes_at + enc_planes(program.planes@, i as int),
        decreases program.planes@.len() - i,
    {
        let ghost before = out@;
        write_plane(&mut out, i as u8, &program.planes[i], tm[i].bit_depth, &limits)?;
        proof {
            assert(out@ =~= planes_at + enc_planes(program.planes@, i + 1));
        }
        i = i + 1;
    }
    let digest = blake3_digest(out.as_slice());
    let ghost body = out@;
    push_seq(&mut out, vstd::array::array_as_slice(&digest));
    proof {
        assert(body =~= wire_body(*program));
    }
    Ok(out)
}

// ---------------------------------------------------------------------------
// Parsing
// ---------------------------------------------------------------------------

/// The bytes of `b` in `[from, to)`.
pub open spec fn span(b: Seq<u8>, from: int, to: int) -> Seq<u8> {
    b.subrange(from, to)
}

proof fn lemma_span_join(b: Seq<u8>, x: int, y: int, z: int)
    requires
        0 <= x <= y <= z <= b.len(),
    ensures
        span(b, x, z) == span(b, x, y) + span(b, y, z),
{
    assert(span(b, x, z) =~= span(b, x, y) + span(b, y, z));
}

fn rd_u8(b: &[u8], pos: usize) -> (r: Result<(u8, usize), VoleError>)
    ensures
        r is Ok <==> pos + 1 <= b@.len(),
        r matches Ok((v, np)) ==> np == pos + 1 && span(b@, pos as int, np as int) == seq![v],
        r matches Err(e) ==> e == VoleError::Truncated,
{
    if pos >= b.len() {
        return Err(VoleError::Truncated);
    }
    let v = b[pos];
    proof {
        assert(span(b@, pos as int, pos + 1) =~= seq![v]);
    }
    Ok((v, pos + 1))
}

fn rd_le2(b: &[u8], pos: usize) -> (r: Result<(u16, usize), VoleError>)
    ensures
        r is Ok <==> pos + 2 <= b@.len(),
        r matches Ok((v, np)) ==> np == pos + 2 && span(b@, pos as int, np as int) == le2(v),
        r matches Err(e) ==> e == VoleError::Truncated,
{
    if b.len() < 2 || pos > b.len() - 2 {
        return Err(VoleError::Truncated);
    }
    let v = (b[pos] as u16) + 256 * (b[pos + 1] as u16);
    proof {
        assert(span(b@, pos as int, pos + 2) =~= le2(v));
    }
    Ok((v, pos + 2))
}

proof fn lemma_le4_of_bytes(b0: u8, b1: u8, b2: u8, b3: u8, v: u32)
    requires
        v == (b0 as u32) | ((b1 as u32) << 8u32) | ((b2 as u32) << 16u32) | ((b3 as u32) << 24u32),
    ensures
        le4(v) == seq![b0, b1, b2, b3],
{
    assert((v & 0xff) as u8 == b0 && ((v >> 8u32) & 0xff) as u8 == b1 && ((v >> 16u32) & 0xff) as u8 == b2
        && ((v >> 24u32) & 0xff) as u8 == b3) by (bit_vector)
        requires
            v == (b0 as u32) | ((b1 as u32) << 8u32) | ((b2 as u32) << 16u32) | ((b3 as u32) << 24u32),
    ;
    assert(le4(v) =~= seq![b0, b1, b2, b3]);
}

fn rd_le4(b: &[u8], pos: usize) -> (r: Result<(u32, usize), VoleError>)
    ensures
        r is Ok <==> pos + 4 <= b@.len(),
        r matches Ok((v, np)) ==> np == pos + 4 && span(b@, pos as int, np as int) == le4(v),
        r matches Err(e) ==> e == VoleError::Truncated,
{
    if b.len() < 4 || pos > b.len() - 4 {
        return Err(VoleError::Truncated);
    }
    let (b0, b1, b2, b3) = (b[pos], b[pos + 1], b[pos + 2], b[pos + 3]);
    let v = (b0 as u32) | ((b1 as u32) << 8u32) | ((b2 as u32) << 16u32) | ((b3 as u32) << 24u32);
    proof {
        lemma_le4_of_bytes(b0, b1, b2, b3, v);
        assert(span(b@, pos as int, pos + 4) =~= seq![b0, b1, b2, b3]);
    }
    Ok((v, pos + 4))
}

fn rd_le8(b: &[u8], pos: usize) -> (r: Result<(u64, usize), VoleError>)
    ensures
        r is Ok <==> pos + 8 <= b@.len(),
        r matches Ok((v, np)) ==> np == pos + 8 && span(b@, pos as int, np as int) == le8(v),
        r matches Err(e) ==> e == VoleError::Truncated,
{
    if b.len() < 8 || pos > b.len() - 8 {
        return Err(VoleError::Truncated);
    }
    let (lo, p1) = rd_le4(b, pos).unwrap();
    let (hi, p2) = rd_le4(b, p1).unwrap();
    let v = (lo as u64) | ((hi as u64) << 32u64);
    proof {
        assert((v & 0xffff_ffff) as u32 == lo && (v >> 32u64) as u32 == hi) by (bit_vector)
            requires
                v == (lo as u64) | ((hi as u64) << 32u64),
        ;
        lemma_span_join(b@, pos as int, p1 as int, p2 as int);
    }
    Ok((v, p2))
}

/// An `i32` coordinate word, bounded by `±MAX_COORD`.
fn rd_coord(b: &[u8], pos: usize) -> (r: Result<(i64, usize), VoleError>)
    ensures
        r matches Ok((v, np)) ==> np == pos + 4 && np <= b@.len() && coord_ok(v) && span(b@, pos as int, np as int) == le4(
            coord_word(v),
        ),
        r matches Err(e) ==> e == VoleError::Truncated || e == VoleError::NonCanonicalEncoding,
{
    let (w, np) = rd_le4(b, pos)?;
    let v: i64 = if w < 0x8000_0000 {
        w as i64
    } else {
        (w as i64) - 0x1_0000_0000
    };
    check_coord(v)?;
    Ok((v, np))
}

fn rd_bytes(b: &[u8], pos: usize, n: u64) -> (r: Result<(Vec<u8>, usize), VoleError>)
    ensures
        r is Ok <==> pos + n <= b@.len(),
        r matches Ok((v, np)) ==> np == pos + n && span(b@, pos as int, np as int) == v@,
        r matches Err(e) ==> e == VoleError::Truncated,
{
    if n > b.len() as u64 || pos > b.len() - (n as usize) {
        return Err(VoleError::Truncated);
    }
    let end = pos + n as usize;
    let mut v: Vec<u8> = Vec::new();
    let mut k = pos;
    while k < end
        invariant
            pos <= k <= end <= b@.len(),
            v@ == span(b@, pos as int, k as int),
        decreases end - k,
    {
        v.push(b[k]);
        k = k + 1;
        proof {
            assert(v@ =~= span(b@, pos as int, k as int));
        }
    }
    Ok((v, end))
}

/// The errors a failed parse step reports.
pub open spec fn read_error(e: VoleError) -> bool {
    ||| e == VoleError::Truncated
    ||| e == VoleError::NonCanonicalEncoding
    ||| e == VoleError::DimensionTooLarge
    ||| e == VoleError::InvalidSamples
    ||| e == VoleError::ArithmeticOverflow
    ||| e == VoleError::NonConsecutiveInterval
    ||| e == VoleError::CheckpointOutOfEnvelope
}

/// Read one object record at plane depth `depth`.
#[verifier::spinoff_prover]
#[verifier::rlimit(60)]
fn read_object(b: &[u8], pos: usize, depth: BitDepth, limits: &Limits) -> (r: Result<((u32, PlaneObject), usize), VoleError>)
    requires
        *limits == default_limits(),
        pos <= b@.len(),
    ensures
        r matches Ok(((id, o), np)) ==> pos <= np <= b@.len() && span(b@, pos as int, np as int) == enc_object(id, o)
            && object_writable(o, depth) && o.width * o.height <= limits.max_object_bytes,
        r matches Err(e) ==> read_error(e),
{
    let (id, p1) = rd_le4(b, pos)?;
    let (w, p2) = rd_le4(b, p1)?;
    let (h, p3) = rd_le4(b, p2)?;
    if w == 0 || h == 0 {
        return Err(VoleError::NonCanonicalEncoding);
    }
    proof {
        assert(0 <= w * h <= 0xffff_fffe_0000_0001) by (nonlinear_arith)
            requires
                w <= 0xffff_ffff,
                h <= 0xffff_ffff,
        ;
    }
    let count = (w as u64) * (h as u64);
    if count > limits.max_object_bytes {
        return Err(VoleError::DimensionTooLarge);
    }
    let (kind, p4) = rd_u8(b, p3)?;
    let max = depth.max_sample();
    proof {
        lemma_span_join(b@, pos as int, p1 as int, p2 as int);
        lemma_span_join(b@, pos as int, p2 as int, p3 as int);
        lemma_span_join(b@, pos as int, p3 as int, p4 as int);
    }
    if kind == OBJECT_FILL {
        let (v, p5) = rd_le4(b, p4)?;
        if v > max {
            return Err(VoleError::InvalidSamples);
        }
        let o = PlaneObject { width: w, height: h, content: PlaneContent::Fill(v) };
        proof {
            lemma_span_join(b@, pos as int, p4 as int, p5 as int);
            assert(span(b@, pos as int, p5 as int) =~= enc_object(id, o));
        }
        Ok(((id, o), p5))
    } else if kind == OBJECT_RASTER {
        let (len, p5) = rd_le8(b, p4)?;
        let spb = depth.storage().bytes_per_sample();
        let want = match count.checked_mul(spb) {
            Some(x) => x,
            None => {
                return Err(VoleError::ArithmeticOverflow);
            },
        };
        if len != want {
            return Err(VoleError::NonCanonicalEncoding);
        }
        let (bytes, p6) = rd_bytes(b, p5, len)?;
        proof {
            lemma_span_join(b@, pos as int, p4 as int, p5 as int);
            lemma_span_join(b@, pos as int, p5 as int, p6 as int);
        }
        if depth.is_byte_depth() {
            let mut i = 0usize;
            while i < bytes.len()
                invariant
                    i <= bytes@.len(),
                    max == depth.max(),
                    forall|k: int| 0 <= k < i ==> bytes@[k] <= max,
                decreases bytes@.len() - i,
            {
                if bytes[i] as u32 > max {
                    return Err(VoleError::InvalidSamples);
                }
                i = i + 1;
            }
            let data = PlaneData::U8(bytes);
            let o = PlaneObject { width: w, height: h, content: PlaneContent::Raster(data) };
            proof {
                assert(span(b@, pos as int, p6 as int) =~= enc_object(id, o));
            }
            Ok(((id, o), p6))
        } else {
            let mut v: Vec<u16> = Vec::new();
            let mut i = 0usize;
            let blen = bytes.len();
            let n = blen / 2;
            while i < n
                invariant
                    blen == bytes@.len(),
                    n == bytes@.len() / 2,
                    2 * n <= bytes@.len(),
                    i <= n,
                    max == depth.max(),
                    v@ == words_of_le(bytes@).take(i as int),
                    forall|k: int| 0 <= k < i ==> v@[k] <= max,
                decreases n - i,
            {
                let wd = (bytes[2 * i] as u16) + 256 * (bytes[2 * i + 1] as u16);
                if wd as u32 > max {
                    return Err(VoleError::InvalidSamples);
                }
                v.push(wd);
                i = i + 1;
                proof {
                    assert(v@ =~= words_of_le(bytes@).take(i as int));
                }
            }
            proof {
                assert(spb == 2);
                assert(bytes@.len() == 2 * count);
                assert(v@ =~= words_of_le(bytes@));
                crate::media::plane::lemma_le_roundtrip_bytes(bytes@);
            }
            let data = PlaneData::U16(v);
            let o = PlaneObject { width: w, height: h, content: PlaneContent::Raster(data) };
            proof {
                assert(span(b@, pos as int, p6 as int) =~= enc_object(id, o));
            }
            Ok(((id, o), p6))
        }
    } else {
        Err(VoleError::NonCanonicalEncoding)
    }
}

/// Lexicographic `(x, y)` order of points.
pub open spec fn point_before(a: (i64, i64, u32), b: (i64, i64, u32)) -> bool {
    a.0 < b.0 || (a.0 == b.0 && a.1 < b.1)
}

/// Whether a point list is strictly ascending by `(x, y)`.
pub open spec fn points_ascending(s: Seq<(i64, i64, u32)>) -> bool {
    forall|i: int| 0 < i < s.len() ==> point_before(s[i - 1], #[trigger] s[i])
}

/// Read `n` point records, strictly ascending by `(x, y)`.
fn read_points(b: &[u8], pos: usize, n: u32, depth: BitDepth) -> (r: Result<(Vec<(i64, i64, u32)>, usize), VoleError>)
    requires
        pos <= b@.len(),
    ensures
        r matches Ok((v, np)) ==> pos <= np <= b@.len() && v@.len() == n && span(b@, pos as int, np as int)
            == enc_points(v@) && points_ascending(v@) && forall|i: int|
            0 <= i < v@.len() ==> point_writable(#[trigger] v@[i], depth, true),
        r matches Err(e) ==> read_error(e),
{
    let max = depth.max_sample();
    let mut v: Vec<(i64, i64, u32)> = Vec::new();
    let mut at = pos;
    let mut k = 0u32;
    while k < n
        invariant
            pos <= at <= b@.len(),
            k <= n,
            max == depth.max(),
            v@.len() == k,
            span(b@, pos as int, at as int) == enc_points(v@),
            points_ascending(v@),
            forall|i: int| 0 <= i < v@.len() ==> point_writable(#[trigger] v@[i], depth, true),
        decreases n - k,
    {
        let (x, p1) = rd_coord(b, at)?;
        let (y, p2) = rd_coord(b, p1)?;
        let (val, p3) = rd_le4(b, p2)?;
        if val > max {
            return Err(VoleError::InvalidSamples);
        }
        if k > 0 {
            let (px, py, _) = v[v.len() - 1];
            if !(px < x || (px == x && py < y)) {
                return Err(VoleError::NonCanonicalEncoding);
            }
        }
        let ghost old_v = v@;
        v.push((x, y, val));
        proof {
            lemma_span_join(b@, at as int, p1 as int, p2 as int);
            lemma_span_join(b@, at as int, p2 as int, p3 as int);
            lemma_span_join(b@, pos as int, at as int, p3 as int);
            assert(v@.drop_last() =~= old_v);
            assert(span(b@, pos as int, p3 as int) =~= enc_points(v@));
        }
        at = p3;
        k = k + 1;
    }
    Ok((v, at))
}

/// Read one op record.
#[verifier::rlimit(60)]
fn read_op(b: &[u8], pos: usize, depth: BitDepth, limits: &Limits) -> (r: Result<(PlaneOp, usize), VoleError>)
    requires
        *limits == default_limits(),
        pos <= b@.len(),
    ensures
        r matches Ok((op, np)) ==> pos <= np <= b@.len() && span(b@, pos as int, np as int) == enc_op(op)
            && op_writable(op, depth, true),
        r matches Err(e) ==> read_error(e),
{
    let (tag, p1) = rd_u8(b, pos)?;
    if tag == OP_DECLARE_OBJECT {
        let ((id, object), p2) = read_object(b, p1, depth, limits)?;
        let op = PlaneOp::DeclareObject { id: crate::media::procedural::PlaneObjectId(id), object };
        proof {
            lemma_span_join(b@, pos as int, p1 as int, p2 as int);
        }
        Ok((op, p2))
    } else if tag == OP_CREATE_INSTANCE {
        let (id, p2) = rd_le4(b, p1)?;
        let (object, p3) = rd_le4(b, p2)?;
        let (x, p4) = rd_coord(b, p3)?;
        let (y, p5) = rd_coord(b, p4)?;
        let op = PlaneOp::CreateInstance {
            id: crate::media::procedural::PlaneInstanceId(id),
            object: crate::media::procedural::PlaneObjectId(object),
            x,
            y,
        };
        proof {
            lemma_span_join(b@, pos as int, p1 as int, p2 as int);
            lemma_span_join(b@, pos as int, p2 as int, p3 as int);
            lemma_span_join(b@, pos as int, p3 as int, p4 as int);
            lemma_span_join(b@, pos as int, p4 as int, p5 as int);
            assert(span(b@, pos as int, p5 as int) =~= enc_op(op));
        }
        Ok((op, p5))
    } else if tag == OP_SET_POSITION {
        let (id, p2) = rd_le4(b, p1)?;
        let (x, p3) = rd_coord(b, p2)?;
        let (y, p4) = rd_coord(b, p3)?;
        let op = PlaneOp::SetPosition { id: crate::media::procedural::PlaneInstanceId(id), x, y };
        proof {
            lemma_span_join(b@, pos as int, p1 as int, p2 as int);
            lemma_span_join(b@, pos as int, p2 as int, p3 as int);
            lemma_span_join(b@, pos as int, p3 as int, p4 as int);
            assert(span(b@, pos as int, p4 as int) =~= enc_op(op));
        }
        Ok((op, p4))
    } else if tag == OP_CLEAR_INSTANCES {
        Ok((PlaneOp::ClearInstances, p1))
    } else if tag == OP_CLEAR_OVERLAY {
        Ok((PlaneOp::ClearOverlay, p1))
    } else if tag == OP_PATCH_OVERLAY {
        let (n, p2) = rd_le4(b, p1)?;
        if n > limits.max_transitions_per_interval {
            return Err(VoleError::DimensionTooLarge);
        }
        let (points, p3) = read_points(b, p2, n, depth)?;
        let op = PlaneOp::PatchOverlay { points };
        proof {
            lemma_span_join(b@, pos as int, p1 as int, p2 as int);
            lemma_span_join(b@, pos as int, p2 as int, p3 as int);
            assert(span(b@, pos as int, p3 as int) =~= enc_op(op));
        }
        Ok((op, p3))
    } else if tag == OP_COPY_RECT {
        let (src_x, p2) = rd_coord(b, p1)?;
        let (src_y, p3) = rd_coord(b, p2)?;
        let (width, p4) = rd_le4(b, p3)?;
        let (height, p5) = rd_le4(b, p4)?;
        let (dst_x, p6) = rd_coord(b, p5)?;
        let (dst_y, p7) = rd_coord(b, p6)?;
        if width == 0 || height == 0 {
            return Err(VoleError::NonCanonicalEncoding);
        }
        proof {
            assert(0 <= width * height <= 0xffff_fffe_0000_0001) by (nonlinear_arith)
                requires
                    width <= 0xffff_ffff,
                    height <= 0xffff_ffff,
            ;
        }
        if (width as u64) * (height as u64) > limits.max_copy_area {
            return Err(VoleError::DimensionTooLarge);
        }
        let op = PlaneOp::CopyRect { src_x, src_y, width, height, dst_x, dst_y };
        proof {
            lemma_span_join(b@, pos as int, p1 as int, p2 as int);
            lemma_span_join(b@, pos as int, p2 as int, p3 as int);
            lemma_span_join(b@, pos as int, p3 as int, p4 as int);
            lemma_span_join(b@, pos as int, p4 as int, p5 as int);
            lemma_span_join(b@, pos as int, p5 as int, p6 as int);
            lemma_span_join(b@, pos as int, p6 as int, p7 as int);
            assert(span(b@, pos as int, p7 as int) =~= enc_op(op));
        }
        Ok((op, p7))
    } else if tag == OP_RESIDUAL {
        let (len, p2) = rd_le8(b, p1)?;
        if len > limits.max_residual_bytes {
            return Err(VoleError::DimensionTooLarge);
        }
        let (block, p3) = rd_bytes(b, p2, len)?;
        let op = PlaneOp::Residual { block };
        proof {
            lemma_span_join(b@, pos as int, p1 as int, p2 as int);
            lemma_span_join(b@, pos as int, p2 as int, p3 as int);
            assert(span(b@, pos as int, p3 as int) =~= enc_op(op));
        }
        Ok((op, p3))
    } else {
        Err(VoleError::NonCanonicalEncoding)
    }
}

/// Ids obey the ordering laws maps rely on.
pub open spec fn ids_ordered() -> bool {
    vstd::laws_cmp::obeys_cmp::<u32>() && vstd::std_specs::btree::key_obeys_cmp_spec::<u32>()
}

proof fn lemma_ids_ordered()
    ensures
        ids_ordered(),
{
    broadcast use vstd::std_specs::btree::group_btree_axioms;

    assert(vstd::laws_cmp::obeys_cmp::<u32>());
}

/// Read `n` object records with strictly ascending ids into a map.
#[verifier::rlimit(40)]
fn read_objects(b: &[u8], pos: usize, n: u32, depth: BitDepth, limits: &Limits) -> (r: Result<(BTreeMap<u32, PlaneObject>, usize), VoleError>)
    requires
        *limits == default_limits(),
        pos <= b@.len(),
    ensures
        r matches Ok((m, np)) ==> {
            &&& pos <= np <= b@.len()
            &&& map_entries(m@).len() == n
            &&& span(b@, pos as int, np as int) == enc_objects(map_entries(m@))
            &&& forall|i: int| 0 <= i < map_entries(m@).len() ==> object_writable(#[trigger] map_entries(m@)[i].1, depth)
        },
        r matches Err(e) ==> read_error(e) || e == VoleError::DuplicateId,
{
    broadcast use vstd::std_specs::btree::group_btree_axioms;

    proof {
        lemma_ids_ordered();
    }
    let mut m: BTreeMap<u32, PlaneObject> = BTreeMap::new();
    let mut keys: Vec<u32> = Vec::new();
    let mut at = pos;
    let mut k = 0u32;
    while k < n
        invariant
            ids_ordered(),
            *limits == default_limits(),
            pos <= at <= b@.len(),
            k <= n,
            keys@.len() == k,
            ascending(keys@),
            forall|q: u32| keys@.contains(q) <==> m@.dom().contains(q),
            span(b@, pos as int, at as int) == enc_objects(keys@.map_values(|q: u32| (q, m@[q]))),
            forall|i: int| 0 <= i < keys@.len() ==> object_writable(#[trigger] m@[keys@[i]], depth),
        decreases n - k,
    {
        let ((id, obj), np) = read_object(b, at, depth, limits)?;
        if k > 0 {
            let last = keys[keys.len() - 1];
            if id == last {
                return Err(VoleError::DuplicateId);
            }
            if id < last {
                return Err(VoleError::NonCanonicalEncoding);
            }
        }
        let ghost old_m = m@;
        let ghost old_keys = keys@;
        proof {
            if old_m.dom().contains(id) {
                assert(old_keys.contains(id));
                let j = choose|j: int| 0 <= j < old_keys.len() && old_keys[j] == id;
                assert(old_keys[j] <= old_keys[old_keys.len() - 1]);
            }
        }
        m.insert(id, obj);
        keys.push(id);
        proof {
            assert(!old_m.dom().contains(id));
            let es_old = old_keys.map_values(|q: u32| (q, old_m[q]));
            let es = keys@.map_values(|q: u32| (q, m@[q]));
            assert(m@ == old_m.insert(id, obj));
            assert forall|j: int| 0 <= j < old_keys.len() implies es[j] == es_old[j] by {
                assert(old_keys.contains(old_keys[j]));
                assert(old_m.dom().contains(old_keys[j]));
                assert(old_keys[j] != id);
            }
            assert(es.drop_last() =~= es_old);
            assert(es.last() == (id, obj));
            lemma_span_join(b@, pos as int, at as int, np as int);
            assert(span(b@, pos as int, np as int) == enc_objects(es));
            assert forall|i: int, j: int| 0 <= i < j < keys@.len() implies keys@[i] < keys@[j] by {
                if j == keys@.len() - 1 && i < j {
                    assert(old_keys[i] <= old_keys[old_keys.len() - 1]);
                }
            }
            assert(keys@ == old_keys.push(id));
            assert forall|q: u32| keys@.contains(q) <==> m@.dom().contains(q) by {
                if keys@.contains(q) && q != id {
                    let j = choose|j: int| 0 <= j < keys@.len() && keys@[j] == q;
                    assert(j < old_keys.len());
                    assert(old_keys[j] == q);
                    assert(old_keys.contains(q));
                    assert(old_m.dom().contains(q));
                }
                if m@.dom().contains(q) && q != id {
                    assert(old_m.dom().contains(q));
                    assert(old_keys.contains(q));
                    let j = choose|j: int| 0 <= j < old_keys.len() && old_keys[j] == q;
                    assert(keys@[j] == q);
                    assert(keys@.contains(q));
                }
                if q == id {
                    assert(keys@[keys@.len() - 1] == id);
                    assert(keys@.contains(id));
                }
            }
            assert forall|i: int| 0 <= i < keys@.len() implies object_writable(#[trigger] m@[keys@[i]], depth) by {
                if i < old_keys.len() {
                    assert(old_keys.contains(old_keys[i]));
                    assert(old_m.dom().contains(old_keys[i]));
                }
            }
        }
        at = np;
        k = k + 1;
    }
    proof {
        lemma_ascending_keys_is(m@, keys@);
        assert(map_entries(m@) =~= keys@.map_values(|q: u32| (q, m@[q])));
    }
    Ok((m, at))
}

/// Read `n` instance records.
fn read_instances(b: &[u8], pos: usize, n: u32) -> (r: Result<(Vec<PlaneInstance>, usize), VoleError>)
    requires
        pos <= b@.len(),
    ensures
        r matches Ok((v, np)) ==> pos <= np <= b@.len() && v@.len() == n && span(b@, pos as int, np as int)
            == enc_instances(v@) && forall|j: int|
            0 <= j < v@.len() ==> coord_ok((#[trigger] v@[j]).x) && coord_ok(v@[j].y),
        r matches Err(e) ==> read_error(e),
{
    let mut v: Vec<PlaneInstance> = Vec::new();
    let mut at = pos;
    let mut k = 0u32;
    while k < n
        invariant
            pos <= at <= b@.len(),
            k <= n,
            v@.len() == k,
            span(b@, pos as int, at as int) == enc_instances(v@),
            forall|j: int| 0 <= j < v@.len() ==> coord_ok((#[trigger] v@[j]).x) && coord_ok(v@[j].y),
        decreases n - k,
    {
        let (iid, p1) = rd_le4(b, at)?;
        let (oid, p2) = rd_le4(b, p1)?;
        let (x, p3) = rd_coord(b, p2)?;
        let (y, p4) = rd_coord(b, p3)?;
        let inst = PlaneInstance {
            id: crate::media::procedural::PlaneInstanceId(iid),
            object: crate::media::procedural::PlaneObjectId(oid),
            x,
            y,
        };
        let ghost old_v = v@;
        v.push(inst);
        proof {
            lemma_span_join(b@, at as int, p1 as int, p2 as int);
            lemma_span_join(b@, at as int, p2 as int, p3 as int);
            lemma_span_join(b@, at as int, p3 as int, p4 as int);
            lemma_span_join(b@, pos as int, at as int, p4 as int);
            assert(v@.drop_last() =~= old_v);
            assert(span(b@, pos as int, p4 as int) =~= enc_instances(v@));
        }
        at = p4;
        k = k + 1;
    }
    Ok((v, at))
}

/// Read `n` op records.
fn read_ops(b: &[u8], pos: usize, n: u32, depth: BitDepth, limits: &Limits) -> (r: Result<(Vec<PlaneOp>, usize), VoleError>)
    requires
        *limits == default_limits(),
        pos <= b@.len(),
    ensures
        r matches Ok((v, np)) ==> pos <= np <= b@.len() && v@.len() == n && span(b@, pos as int, np as int)
            == enc_ops(v@) && forall|j: int| 0 <= j < v@.len() ==> op_writable(#[trigger] v@[j], depth, true),
        r matches Err(e) ==> read_error(e),
{
    let mut v: Vec<PlaneOp> = Vec::new();
    let mut at = pos;
    let mut k = 0u32;
    while k < n
        invariant
            *limits == default_limits(),
            pos <= at <= b@.len(),
            k <= n,
            v@.len() == k,
            span(b@, pos as int, at as int) == enc_ops(v@),
            forall|j: int| 0 <= j < v@.len() ==> op_writable(#[trigger] v@[j], depth, true),
        decreases n - k,
    {
        let (op, np) = read_op(b, at, depth, limits)?;
        let ghost old_v = v@;
        v.push(op);
        proof {
            lemma_span_join(b@, pos as int, at as int, np as int);
            assert(v@.drop_last() =~= old_v);
            assert(span(b@, pos as int, np as int) =~= enc_ops(v@));
        }
        at = np;
        k = k + 1;
    }
    Ok((v, at))
}

/// Read `n` interval groups (`t` positive and strictly increasing).
fn read_intervals(b: &[u8], pos: usize, n: u32, depth: BitDepth, limits: &Limits) -> (r: Result<(Vec<(u64, Vec<PlaneOp>)>, usize), VoleError>)
    requires
        *limits == default_limits(),
        pos <= b@.len(),
    ensures
        r matches Ok((v, np)) ==> pos <= np <= b@.len() && v@.len() == n && span(b@, pos as int, np as int)
            == enc_intervals(v@) && intervals_writable(v@, depth, true),
        r matches Err(e) ==> read_error(e),
{
    let mut v: Vec<(u64, Vec<PlaneOp>)> = Vec::new();
    let mut at = pos;
    let mut k = 0u32;
    let mut prev: u64 = 0;
    while k < n
        invariant
            *limits == default_limits(),
            pos <= at <= b@.len(),
            k <= n,
            v@.len() == k,
            span(b@, pos as int, at as int) == enc_intervals(v@),
            intervals_writable(v@, depth, true),
        decreases n - k,
    {
        let (t, p1) = rd_le8(b, at)?;
        if t == 0 || t <= prev {
            return Err(VoleError::NonConsecutiveInterval);
        }
        prev = t;
        let (n_ops, p2) = rd_le4(b, p1)?;
        if n_ops > limits.max_transitions_per_interval {
            return Err(VoleError::DimensionTooLarge);
        }
        let (ops, p3) = read_ops(b, p2, n_ops, depth, limits)?;
        let ghost old_v = v@;
        let ghost iv = (t, ops);
        v.push((t, ops));
        proof {
            lemma_span_join(b@, at as int, p1 as int, p2 as int);
            lemma_span_join(b@, at as int, p2 as int, p3 as int);
            lemma_span_join(b@, pos as int, at as int, p3 as int);
            assert(v@.drop_last() =~= old_v);
            assert(v@.last() == iv);
            assert(span(b@, at as int, p3 as int) =~= enc_interval(iv));
            assert(span(b@, pos as int, p3 as int) =~= enc_intervals(v@));
            assert forall|j: int, q: int|
                0 <= j < v@.len() && 0 <= q < v@[j].1@.len() implies op_writable(#[trigger] v@[j].1@[q], depth, true) by {
                if j < old_v.len() {
                    assert(v@[j] == old_v[j]);
                }
            }
        }
        at = p3;
        k = k + 1;
    }
    Ok((v, at))
}

/// Read the block of plane `idx` (its tag and index must come in
/// ascending plane order).
#[verifier::rlimit(60)]
fn read_plane(b: &[u8], pos: usize, idx: u8, depth: BitDepth, limits: &Limits) -> (r: Result<(PlaneProgram, usize), VoleError>)
    requires
        *limits == default_limits(),
        pos <= b@.len(),
    ensures
        r matches Ok((p, np)) ==> pos <= np <= b@.len() && span(b@, pos as int, np as int) == enc_plane(
            idx as int,
            p,
        ) && plane_writable(p, depth, true),
        r matches Err(e) ==> read_error(e) || e == VoleError::DuplicateId,
{
    let (tag, p1) = rd_u8(b, pos)?;
    if tag != TAG_PLANE {
        return Err(VoleError::NonCanonicalEncoding);
    }
    let (i, p2) = rd_u8(b, p1)?;
    if i != idx {
        return Err(VoleError::NonCanonicalEncoding);
    }
    let (bg, p3) = rd_le4(b, p2)?;
    if bg > depth.max_sample() {
        return Err(VoleError::InvalidSamples);
    }
    let (n_objects, p4) = rd_le4(b, p3)?;
    if n_objects > limits.max_objects {
        return Err(VoleError::DimensionTooLarge);
    }
    let (objects, p5) = read_objects(b, p4, n_objects, depth, limits)?;
    let (n_inst, p6) = rd_le4(b, p5)?;
    if n_inst > limits.max_instances {
        return Err(VoleError::DimensionTooLarge);
    }
    let (instances, p7) = read_instances(b, p6, n_inst)?;
    let (n_overlay, p8) = rd_le4(b, p7)?;
    if n_overlay > limits.max_overlay_points {
        return Err(VoleError::DimensionTooLarge);
    }
    let (overlay, p9) = read_points(b, p8, n_overlay, depth)?;
    let (n_intervals, p10) = rd_le4(b, p9)?;
    if n_intervals as u64 > limits.max_checkpoint_distance {
        return Err(VoleError::CheckpointOutOfEnvelope);
    }
    let (intervals, p11) = read_intervals(b, p10, n_intervals, depth, limits)?;
    let prog = PlaneProgram { background: bg, objects, instances, overlay, intervals };
    proof {
        lemma_span_join(b@, pos as int, p1 as int, p2 as int);
        lemma_span_join(b@, pos as int, p2 as int, p3 as int);
        lemma_span_join(b@, pos as int, p3 as int, p4 as int);
        lemma_span_join(b@, pos as int, p4 as int, p5 as int);
        lemma_span_join(b@, pos as int, p5 as int, p6 as int);
        lemma_span_join(b@, pos as int, p6 as int, p7 as int);
        lemma_span_join(b@, pos as int, p7 as int, p8 as int);
        lemma_span_join(b@, pos as int, p8 as int, p9 as int);
        lemma_span_join(b@, pos as int, p9 as int, p10 as int);
        lemma_span_join(b@, pos as int, p10 as int, p11 as int);
        assert(object_entries(prog) == map_entries(prog.objects@));
        assert(span(b@, pos as int, p11 as int) =~= enc_plane(idx as int, prog));
    }
    Ok((prog, p11))
}

/// The header fields a payload declares: `(width, height)` after the
/// fixed prefix.
fn read_header(b: &[u8]) -> (r: Result<(u32, u32, usize), VoleError>)
    ensures
        r matches Ok((w, h, np)) ==> np == 24 && np <= b@.len() && span(b@, 0, 24) == seq![0x56u8, 0x4fu8, 0x4cu8, 0x45u8, 0u8]
            + le2(2) + le4(2) + seq![1u8] + le4(V2_FEATURES) + le4(w) + le4(h),
        b@.len() >= 4 && span(b@, 0, 4) != seq![0x56u8, 0x4fu8, 0x4cu8, 0x45u8] ==> r == Err::<(u32, u32, usize), VoleError>(
            VoleError::BadMagic,
        ),
        b@.len() < 4 ==> r == Err::<(u32, u32, usize), VoleError>(VoleError::Truncated),
        r matches Err(e) ==> e == VoleError::Truncated || e == VoleError::BadMagic || e
            == VoleError::NonCanonicalEncoding || e == VoleError::UnsupportedFeature || e
            == VoleError::UnsupportedUniverse || e == VoleError::UnsupportedLimitProfile,
{
    if b.len() < 4 {
        return Err(VoleError::Truncated);
    }
    if !(b[0] == 0x56u8 && b[1] == 0x4fu8 && b[2] == 0x4cu8 && b[3] == 0x45u8) {
        proof {
            if span(b@, 0, 4) == seq![0x56u8, 0x4fu8, 0x4cu8, 0x45u8] {
                assert(b@[0] == span(b@, 0, 4)[0]);
                assert(b@[1] == span(b@, 0, 4)[1]);
                assert(b@[2] == span(b@, 0, 4)[2]);
                assert(b@[3] == span(b@, 0, 4)[3]);
            }
        }
        return Err(VoleError::BadMagic);
    }
    proof {
        assert(span(b@, 0, 4) =~= seq![0x56u8, 0x4fu8, 0x4cu8, 0x45u8]);
    }
    let (reserved, p1) = rd_u8(b, 4)?;
    if reserved != 0 {
        return Err(VoleError::NonCanonicalEncoding);
    }
    let (version, p2) = rd_le2(b, p1)?;
    if version != 2 {
        return Err(VoleError::UnsupportedFeature);
    }
    let (universe, p3) = rd_le4(b, p2)?;
    if universe != 2 {
        return Err(VoleError::UnsupportedUniverse);
    }
    let (profile, p4) = rd_u8(b, p3)?;
    if profile != 1 {
        return Err(VoleError::UnsupportedLimitProfile);
    }
    let (features, p5) = rd_le4(b, p4)?;
    if features != V2_FEATURES {
        return Err(VoleError::UnsupportedFeature);
    }
    let (w, p6) = rd_le4(b, p5)?;
    let (h, p7) = rd_le4(b, p6)?;
    proof {
        assert(span(b@, 0, 4) =~= seq![0x56u8, 0x4fu8, 0x4cu8, 0x45u8]);
        lemma_span_join(b@, 0, 4, p1 as int);
        lemma_span_join(b@, 0, p1 as int, p2 as int);
        lemma_span_join(b@, 0, p2 as int, p3 as int);
        lemma_span_join(b@, 0, p3 as int, p4 as int);
        lemma_span_join(b@, 0, p4 as int, p5 as int);
        lemma_span_join(b@, 0, p5 as int, p6 as int);
        lemma_span_join(b@, 0, p6 as int, p7 as int);
        assert(span(b@, 0, 24) =~= seq![0x56u8, 0x4fu8, 0x4cu8, 0x45u8, 0u8] + le2(2) + le4(2) + seq![1u8]
            + le4(V2_FEATURES) + le4(w) + le4(h));
    }
    Ok((w, h, p7))
}

/// The component / depth table bytes of templates, pointwise.
proof fn lemma_plane_table(ts: Seq<PlaneTemplate>)
    ensures
        enc_plane_table(ts).len() == 2 * ts.len(),
        forall|k: int|
            0 <= k < ts.len() ==> #[trigger] enc_plane_table(ts)[2 * k] == component_code_spec(ts[k].component),
        forall|k: int|
            0 <= k < ts.len() ==> #[trigger] enc_plane_table(ts)[2 * k + 1] == ts[k].bit_depth.b(),
    decreases ts.len(),
{
    if ts.len() > 0 {
        let pre = ts.drop_last();
        lemma_plane_table(pre);
        let last = seq![component_code_spec(ts.last().component), ts.last().bit_depth.b()];
        assert(enc_plane_table(ts) == enc_plane_table(pre) + last);
        assert forall|k: int| 0 <= k < ts.len() implies #[trigger] enc_plane_table(ts)[2 * k]
            == component_code_spec(ts[k].component) by {
            if k < ts.len() - 1 {
                assert(pre[k] == ts[k]);
                assert(enc_plane_table(ts)[2 * k] == enc_plane_table(pre)[2 * k]);
            } else {
                assert(enc_plane_table(ts)[2 * k] == last[0]);
            }
        }
        assert forall|k: int| 0 <= k < ts.len() implies #[trigger] enc_plane_table(ts)[2 * k + 1]
            == ts[k].bit_depth.b() by {
            if k < ts.len() - 1 {
                assert(pre[k] == ts[k]);
                assert(enc_plane_table(ts)[2 * k + 1] == enc_plane_table(pre)[2 * k + 1]);
            } else {
                assert(enc_plane_table(ts)[2 * k + 1] == last[1]);
            }
        }
    }
}

/// Read the media descriptor of a `width × height` epoch.
#[verifier::spinoff_prover]
#[verifier::rlimit(100)]
fn read_descriptor(b: &[u8], pos: usize, width: u32, height: u32) -> (r: Result<(VideoEpoch, usize), VoleError>)
    requires
        pos <= b@.len(),
    ensures
        r matches Ok((e, np)) ==> {
            &&& pos <= np <= b@.len()
            &&& span(b@, pos as int, np as int) == enc_descriptor(e)
            &&& e.w() == width
            &&& e.h() == height
            &&& e.sd().len() == 0
        },
        r matches Err(e) ==> e != VoleError::IntegrityMismatch,
{
    let (tag, p1) = rd_u8(b, pos)?;
    if tag != TAG_DESCRIPTOR {
        return Err(VoleError::NonCanonicalEncoding);
    }
    let (lc, p2) = rd_le2(b, p1)?;
    let layout = layout_of(lc)?;
    let lp = layout.planes();
    let (declared, p3) = rd_u8(b, p2)?;
    if declared as usize != lp.len() {
        return Err(VoleError::NonCanonicalEncoding);
    }
    let mut depths: Vec<BitDepth> = Vec::new();
    let mut at = p3;
    let mut i = 0usize;
    while i < lp.len()
        invariant
            p3 <= at <= b@.len(),
            i <= lp@.len(),
            lp@ == layout_planes(layout),
            depths@.len() == i,
            at == p3 + 2 * i,
            forall|k: int| 0 <= k < i ==> #[trigger] b@[p3 + 2 * k] == component_code_spec(lp@[k].component),
            forall|k: int| 0 <= k < i ==> #[trigger] b@[p3 + 2 * k + 1] == depths@[k].b(),
        decreases lp@.len() - i,
    {
        let (code, q1) = rd_u8(b, at)?;
        let comp = component_of(code)?;
        let (bits, q2) = rd_u8(b, q1)?;
        let depth = BitDepth::new(bits)?;
        if comp != lp[i].component {
            return Err(VoleError::NonCanonicalEncoding);
        }
        proof {
            assert(b@[at as int] == span(b@, at as int, q1 as int)[0]);
            assert(b@[q1 as int] == span(b@, q1 as int, q2 as int)[0]);
        }
        depths.push(depth);
        at = q2;
        i = i + 1;
    }
    let (chroma_c, q1) = rd_u8(b, at)?;
    let chroma = chroma_of(chroma_c)?;
    let (prim_c, q2) = rd_u8(b, q1)?;
    let primaries = primaries_of(prim_c)?;
    let (trans_c, q3) = rd_u8(b, q2)?;
    let transfer = transfer_of(trans_c)?;
    let (mat_c, q4) = rd_u8(b, q3)?;
    let matrix = matrix_of(mat_c)?;
    let (range_c, q5) = rd_u8(b, q4)?;
    let range = range_of(range_c)?;
    let (sar_w, q6) = rd_le4(b, q5)?;
    let (sar_h, q7) = rd_le4(b, q6)?;
    let (ori_c, q8) = rd_u8(b, q7)?;
    let orientation = orientation_of(ori_c)?;
    let (field_c, q9) = rd_u8(b, q8)?;
    let field = field_of(field_c)?;
    let sar = SampleAspectRatio::new(sar_w, sar_h)?;
    let color = ColorDescription::new(primaries, transfer, matrix, range, chroma);
    let epoch = VideoEpoch::new_per_plane(
        EpochId(0),
        width,
        height,
        layout,
        depths.as_slice(),
        color,
        sar,
        orientation,
        field,
    )?;
    proof {
        let ts = epoch.tmpls();
        lemma_plane_table(ts);
        let table = span(b@, p3 as int, at as int);
        assert(table =~= enc_plane_table(ts)) by {
            assert forall|j: int| 0 <= j < table.len() implies table[j] == enc_plane_table(ts)[j] by {
                let k = j / 2;
                if j % 2 == 0 {
                    assert(j == 2 * k);
                    assert(b@[p3 + 2 * k] == component_code_spec(lp@[k].component));
                } else {
                    assert(j == 2 * k + 1);
                    assert(b@[p3 + 2 * k + 1] == depths@[k].b());
                }
            }
        }
        lemma_span_join(b@, pos as int, p1 as int, p2 as int);
        lemma_span_join(b@, pos as int, p2 as int, p3 as int);
        lemma_span_join(b@, pos as int, p3 as int, at as int);
        lemma_span_join(b@, pos as int, at as int, q1 as int);
        lemma_span_join(b@, pos as int, q1 as int, q2 as int);
        lemma_span_join(b@, pos as int, q2 as int, q3 as int);
        lemma_span_join(b@, pos as int, q3 as int, q4 as int);
        lemma_span_join(b@, pos as int, q4 as int, q5 as int);
        lemma_span_join(b@, pos as int, q5 as int, q6 as int);
        lemma_span_join(b@, pos as int, q6 as int, q7 as int);
        lemma_span_join(b@, pos as int, q7 as int, q8 as int);
        lemma_span_join(b@, pos as int, q8 as int, q9 as int);
        assert(span(b@, pos as int, q9 as int) =~= enc_descriptor(epoch));
    }
    Ok((epoch, q9))
}

/// Parse a multi-plane container. The header, descriptor and plane blocks
/// are read in order, every count and length bounded by the default limits
/// before use; structural errors surface before the integrity check, and
/// a payload whose trailer is not its BLAKE3 digest is `IntegrityMismatch`.
/// Every accepted container is the canonical encoding of the program it
/// yields, and an integrity mismatch is reported only for a body that is
/// the canonical encoding of a writable program.
#[verifier::rlimit(80)]
pub fn parse_multiplane(bytes: &[u8]) -> (r: Result<MultiPlaneProgram, VoleError>)
    ensures
        bytes@.len() > default_limits().max_stream_bytes ==> r == Err::<MultiPlaneProgram, VoleError>(
            VoleError::DimensionTooLarge,
        ),
        bytes@.len() <= default_limits().max_stream_bytes && bytes@.len() < 32 ==> r == Err::<
            MultiPlaneProgram,
            VoleError,
        >(VoleError::Truncated),
        bytes@.len() <= default_limits().max_stream_bytes && bytes@.len() >= 36 && span(bytes@, 0, 4)
            != seq![0x56u8, 0x4fu8, 0x4cu8, 0x45u8] ==> r == Err::<MultiPlaneProgram, VoleError>(
            VoleError::BadMagic,
        ),
        r matches Ok(p) ==> bytes@ == wire_file(p) && writable(p),
        r == Err::<MultiPlaneProgram, VoleError>(VoleError::IntegrityMismatch) ==> exists|p: MultiPlaneProgram|
            #[trigger] writable(p) && span(bytes@, 0, bytes@.len() - 32) == wire_body(p) && span(
                bytes@,
                bytes@.len() - 32,
                bytes@.len() as int,
            ) != blake3_of(wire_body(p)),
{
    let limits = Limits::default();
    proof {
        assert(limits == default_limits());
    }
    if bytes.len() as u64 > limits.max_stream_bytes {
        return Err(VoleError::DimensionTooLarge);
    }
    if bytes.len() < 32 {
        return Err(VoleError::Truncated);
    }
    let n = bytes.len() - 32;
    let (payload, _) = match rd_bytes(bytes, 0, n as u64) {
        Ok(x) => x,
        Err(e) => {
            return Err(e);
        },
    };
    let b = payload.as_slice();
    proof {
        if bytes@.len() >= 36 {
            assert(span(b@, 0, 4) =~= span(bytes@, 0, 4));
        }
    }
    let (w, h, p0) = read_header(b)?;
    proof {
        assert(span(bytes@, 0, 4) =~= span(b@, 0, 24).subrange(0, 4));
        assert(span(bytes@, 0, 4) =~= seq![0x56u8, 0x4fu8, 0x4cu8, 0x45u8]);
    }
    limits.check_canvas(w, h)?;
    let (epoch, p1) = read_descriptor(b, p0, w, h)?;
    let tm = epoch.planes();
    let np = epoch.plane_count();
    proof {
        lemma_layout_planes_small(epoch.lay());
    }
    let mut planes: Vec<PlaneProgram> = Vec::new();
    let mut at = p1;
    let mut i = 0usize;
    while i < np
        invariant
            p1 <= at <= b@.len(),
            32 <= bytes@.len() <= default_limits().max_stream_bytes,
            b@ == span(bytes@, 0, n as int),
            n + 32 == bytes@.len(),
            span(bytes@, 0, 4) == seq![0x56u8, 0x4fu8, 0x4cu8, 0x45u8],
            i <= np,
            np == tm@.len(),
            np <= 4,
            tm@ == epoch.tmpls(),
            limits == default_limits(),
            planes@.len() == i,
            span(b@, p1 as int, at as int) == enc_planes(planes@, i as int),
            forall|j: int| 0 <= j < i ==> plane_writable(#[trigger] planes@[j], epoch.tmpls()[j].bit_depth, true),
        decreases np - i,
    {
        if at == b.len() {
            return Err(VoleError::NonCanonicalEncoding);
        }
        let (prog, q) = read_plane(b, at, i as u8, tm[i].bit_depth, &limits)?;
        let ghost old_planes = planes@;
        planes.push(prog);
        proof {
            lemma_span_join(b@, p1 as int, at as int, q as int);
            assert(planes@.drop_last() =~= old_planes);
            assert forall|k: int| 0 <= k <= i implies planes@.take(k) =~= old_planes.take(k) || k == i + 1 by {}
            lemma_enc_planes_prefix(planes@, old_planes, i as int);
            assert(span(b@, p1 as int, q as int) == enc_planes(planes@, i + 1));
        }
        at = q;
        i = i + 1;
    }
    if at != b.len() {
        return Err(VoleError::NonCanonicalEncoding);
    }
    let ghost the_planes = planes@;
    proof {
        crate::media::procedural::lemma_planes_fault_not_integrity(epoch, planes@, planes@.len() as int);
    }
    let program = MultiPlaneProgram::new(epoch, planes)?;
    proof {
        lemma_span_join(b@, 0, p0 as int, p1 as int);
        lemma_span_join(b@, 0, p1 as int, at as int);
        assert(span(b@, 0, b@.len() as int) =~= b@);
        assert(b@ =~= wire_body(program));
    }
    let digest = blake3_digest(b);
    let mut k = 0usize;
    while k < 32
        invariant
            k <= 32,
            n + 32 == bytes@.len(),
            b@ == wire_body(program),
            writable(program),
            digest@ == blake3_of(b@),
            32 <= bytes@.len() <= default_limits().max_stream_bytes,
            span(bytes@, 0, 4) == seq![0x56u8, 0x4fu8, 0x4cu8, 0x45u8],
            b@ == span(bytes@, 0, n as int),
            digest@.len() == 32,
            forall|j: int| 0 <= j < k ==> digest@[j] == bytes@[n + j],
        decreases 32 - k,
    {
        if digest[k] != bytes[n + k] {
            proof {
                assert(span(bytes@, n as int, bytes@.len() as int)[k as int] != digest@[k as int]);
                assert(b@ =~= span(bytes@, 0, n as int));
                assert(writable(program));
            }
            return Err(VoleError::IntegrityMismatch);
        }
        k = k + 1;
    }
    proof {
        lemma_span_join(b@, 0, p0 as int, p1 as int);
        lemma_span_join(b@, 0, p1 as int, at as int);
        assert(span(b@, 0, b@.len() as int) =~= b@);
        assert(b@ =~= wire_body(program));
        assert(span(bytes@, n as int, bytes@.len() as int) =~= digest@);
        assert(bytes@ =~= b@ + digest@);
    }
    Ok(program)
}

/// Plane blocks of a longer list agree with a prefix on that prefix.
proof fn lemma_enc_planes_prefix(ps: Seq<PlaneProgram>, qs: Seq<PlaneProgram>, n: int)
    requires
        0 <= n <= qs.len(),
        qs.len() <= ps.len(),
        forall|j: int| 0 <= j < n ==> ps[j] == qs[j],
    ensures
        enc_planes(ps, n) == enc_planes(qs, n),
    decreases n,
{
    if n > 0 {
        lemma_enc_planes_prefix(ps, qs, n - 1);
    }
}

} // verus!
