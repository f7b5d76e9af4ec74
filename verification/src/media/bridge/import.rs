//! Verified import from decoder evidence.
//!
//! Importing a media file runs three decoder passes (a probe manifest, an
//! independent per-frame hash oracle, and a raw NUT pipe) and then decides:
//! which stream and pixel format to accept, whether every frame of the NUT
//! pipe reproduces the oracle's digest and timestamp, and what canonical
//! video the frames form. Running the decoder is the application's part;
//! every decision on the evidence it hands back is here.

use vstd::prelude::*;

use crate::error::VoleError;
use crate::integrity::{blake3_digest, blake3_of, sha256_digest, sha256_of};
use crate::media::bridge::canonicalize::{
    expected_canonical_bytes, expected_total, is_pad, layout_and_depth,
    lemma_unpacked_repack_ready, nplanes, repack_frame, source_format, unpack_frame, unpack_ok,
    unpacked_plane, lemma_repack_clears_pads, zero_pads, SourceFormat,
};
use crate::media::bridge::framehash::{FramehashRecord, FramehashResult};
use crate::media::bridge::nut::{parse_nut, NutFrame, NutStream};
use crate::media::bridge::probe::{ProbeManifest, StreamInfo};
use crate::media::color::ColorDescription;
use crate::media::epoch::{CanonicalVideo, CanonicalVideoObservation, EpochId, VideoEpoch};
use crate::media::layout::{layout_planes, lemma_layout_subsampling_small, lemma_subsampled_bounds, PixelLayout};
use crate::media::meta::SampleAspectRatio;
use crate::media::plane::{lemma_depth_eq, BitDepth, Plane};
use crate::media::time::{Duration, Pts, TimeBase};
use crate::media::bridge::nut::{frame_view, frame_views, in_stream_order, nut_ok, nut_spec};
use crate::media::bridge::probe::{
    chroma_location_of, color_range_of, field_structure_of, matrix_of, primaries_of, transfer_of,
};
use crate::media::epoch::{observation_fits, plane_matches, PlaneTemplate};
use crate::media::gen::{le4, le8, push_le4};
use crate::media::wire::codes::{
    chroma_code, chroma_code_spec, component_code, component_code_spec, layout_code,
    layout_code_spec, matrix_code, matrix_code_spec, primaries_code, primaries_code_spec,
    range_code, range_code_spec, transfer_code, transfer_code_spec,
};
use crate::media::wire::{push_le8, push_seq};

verus! {

/// The verified facts of one import.
#[derive(Debug, Clone, Copy, PartialEq, Eq, Structural)]
pub struct ImportChecks {
    /// Frame count reported by the oracle.
    pub oracle_frames: u64,
    /// Frames verified (canonical bytes reproduce the oracle digest).
    pub verified_frames: u64,
    /// Total canonical sample bytes verified.
    pub sample_bytes: u64,
    /// Whether every oracle PTS matched the NUT-derived PTS exactly.
    pub pts_matched: bool,
}

/// What the probe manifest fixes for an import: the chosen stream, its
/// geometry and its retained pixel format.
#[derive(Debug, Clone)]
pub struct ImportPlan {
    /// Position of the chosen stream in the manifest.
    pub position: usize,
    /// Coded width.
    pub width: u64,
    /// Coded height.
    pub height: u64,
    /// Retained decoder pixel format.
    pub pix_fmt: String,
    /// Canonical layout of that format.
    pub layout: PixelLayout,
    /// Active bit depth of that format.
    pub depth: u8,
    /// Source-layout bytes of one frame.
    pub source_bytes: u64,
}

/// The position of the first manifest stream whose index is the chosen one.
pub open spec fn chosen_at(m: ProbeManifest) -> Option<int> {
    if exists|j: int| 0 <= j < m.streams@.len() && (#[trigger] m.streams@[j]).index == m.chosen {
        Some(
            choose|j: int|
                0 <= j < m.streams@.len() && (#[trigger] m.streams@[j]).index == m.chosen && forall|k: int|
                    0 <= k < j ==> (#[trigger] m.streams@[k]).index != m.chosen,
        )
    } else {
        None
    }
}

/// Whether a manifest stream can be imported: it declares a nonzero width
/// and height inside `u32` and a supported pixel format whose frames are
/// nonempty and sized inside `u64`.
pub open spec fn plan_ok(s: StreamInfo) -> bool {
    &&& s.width matches Some(w) && 0 < w <= u32::MAX
    &&& s.height matches Some(h) && 0 < h <= u32::MAX
    &&& s.pix_fmt matches Some(f) && source_format(f@) matches Some(sf) && 0 < expected_total(
        sf,
        s.width->0 as nat,
        s.height->0 as nat,
    ) <= u64::MAX
}

/// Fix the import from the manifest: the chosen stream must exist and
/// declare width, height and pixel format (`BridgeProbeFailed`), a nonzero
/// geometry inside `u32` (`DimensionTooLarge`), and a supported pixel
/// format with nonempty frames (`UnsupportedPixelLayout`).
pub fn plan_import(manifest: &ProbeManifest) -> (r: Result<ImportPlan, VoleError>)
    ensures
        chosen_at(*manifest) is None ==> r == Err::<ImportPlan, VoleError>(VoleError::BridgeProbeFailed),
        r matches Ok(p) ==> {
            let s = manifest.streams@[p.position as int];
            &&& chosen_at(*manifest) == Some(p.position as int)
            &&& s.width == Some(p.width)
            &&& s.height == Some(p.height)
            &&& s.pix_fmt matches Some(f) && f@ == p.pix_fmt@
            &&& 0 < p.width <= u32::MAX
            &&& 0 < p.height <= u32::MAX
            &&& source_format(p.pix_fmt@) matches Some(sf) && sf.layout == p.layout && sf.depth == p.depth
                && p.source_bytes == expected_total(sf, p.width as nat, p.height as nat) && p.source_bytes > 0
        },
        r matches Err(e) ==> e == VoleError::BridgeProbeFailed || e == VoleError::DimensionTooLarge || e
            == VoleError::UnsupportedPixelLayout || e == VoleError::ArithmeticOverflow,
        chosen_at(*manifest) matches Some(j) && plan_ok(manifest.streams@[j]) ==> r is Ok,
{
    let mut j = 0usize;
    while j < manifest.streams.len()
        invariant
            j <= manifest.streams@.len(),
            forall|k: int| 0 <= k < j ==> (#[trigger] manifest.streams@[k]).index != manifest.chosen,
        ensures
            j < manifest.streams@.len() ==> manifest.streams@[j as int].index == manifest.chosen,
        decreases manifest.streams@.len() - j,
    {
        if manifest.streams[j].index == manifest.chosen {
            break;
        }
        j = j + 1;
    }
    if j == manifest.streams.len() {
        proof {
            assert(!exists|q: int| 0 <= q < manifest.streams@.len() && (#[trigger] manifest.streams@[q]).index
                == manifest.chosen);
        }
        return Err(VoleError::BridgeProbeFailed);
    }
    proof {
        let c = chosen_at(*manifest);
        assert(manifest.streams@[j as int].index == manifest.chosen);
        let q = c->0;
        if q < j {
        } else if q > j {
            assert(manifest.streams@[j as int].index != manifest.chosen);
        }
        assert(c == Some(j as int));
    }
    let stream = &manifest.streams[j];
    let width = match stream.width {
        Some(w) => w,
        None => {
            return Err(VoleError::BridgeProbeFailed);
        },
    };
    let height = match stream.height {
        Some(h) => h,
        None => {
            return Err(VoleError::BridgeProbeFailed);
        },
    };
    let pix_fmt = match &stream.pix_fmt {
        Some(f) => f,
        None => {
            return Err(VoleError::BridgeProbeFailed);
        },
    };
    if width == 0 || height == 0 || width > 0xffff_ffff || height > 0xffff_ffff {
        return Err(VoleError::DimensionTooLarge);
    }
    let (layout, depth) = layout_and_depth(pix_fmt.as_str())?;
    let source_bytes = expected_canonical_bytes(pix_fmt.as_str(), width, height)?;
    if source_bytes == 0 {
        return Err(VoleError::UnsupportedPixelLayout);
    }
    Ok(ImportPlan { position: j, width, height, pix_fmt: pix_fmt.clone(), layout, depth, source_bytes })
}

/// Bound the oracle: more records than `max_frames` is `BridgeOutputLimit`,
/// none is `BridgeDecodeFailed`.
pub fn check_oracle(oracle: &FramehashResult, max_frames: u64) -> (r: Result<(), VoleError>)
    ensures
        oracle.records@.len() > max_frames ==> r == Err::<(), VoleError>(VoleError::BridgeOutputLimit),
        oracle.records@.len() <= max_frames && oracle.records@.len() == 0 ==> r == Err::<(), VoleError>(
            VoleError::BridgeDecodeFailed,
        ),
        oracle.records@.len() <= max_frames && oracle.records@.len() > 0 ==> r is Ok,
{
    if oracle.records.len() as u64 > max_frames {
        return Err(VoleError::BridgeOutputLimit);
    }
    if oracle.records.len() == 0 {
        return Err(VoleError::BridgeDecodeFailed);
    }
    Ok(())
}

/// Whether the NUT and oracle timestamps of a frame agree as rationals:
/// `pts · tb_num · oracle_den == oracle_pts · oracle_num · tb_den`.
pub open spec fn pts_agree(pts: i64, tb: (u32, u32), opts: i64, otb: (u32, u32)) -> bool {
    pts * tb.0 * otb.1 == opts * otb.0 * tb.1
}

/// Whether every padding byte of a payload is zero.
pub open spec fn pads_zero(fmt: Seq<char>, payload: Seq<u8>) -> bool {
    source_format(fmt) matches Some(f) && forall|i: nat| i < payload.len() && #[trigger] is_pad(f, i) ==> payload[i as int] == 0
}

/// Whether one frame checks out against its oracle record: the payload
/// and the oracle size are the expected source size, the payload unpacks,
/// and the oracle digest is the SHA-256 of the payload with its padding
/// cleared (the source layout repacked from the canonical samples).
pub open spec fn frame_ok(f: SourceFormat, w: u64, h: u64, fr: NutFrame, rec: FramehashRecord) -> bool {
    &&& fr.payload@.len() == expected_total(f, w as nat, h as nat)
    &&& rec.size == expected_total(f, w as nat, h as nat)
    &&& unpack_ok(f, w, h, fr.payload@)
    &&& rec.sha256@ == sha256_of(zero_pads(f, fr.payload@))
}

/// Whether every present oracle PTS agrees with its frame's PTS.
pub open spec fn all_pts_agree(oracle: FramehashResult, nut: NutStream) -> bool {
    forall|q: int|
        0 <= q < nut.frames@.len() ==> ((#[trigger] oracle.records@[q]).pts matches Some(o) ==> pts_agree(
            nut.frames@[q].pts,
            nut.streams@[nut.frames@[q].stream as int].time_base,
            o,
            oracle.time_base,
        ))
}

/// Whether the NUT frames verify against the oracle.
pub open spec fn frames_verify(fmt: Seq<char>, w: u64, h: u64, oracle: FramehashResult, nut: NutStream) -> bool {
    &&& source_format(fmt) matches Some(f)
    &&& expected_total(f, w as nat, h as nat) <= u64::MAX
    &&& nut.frames@.len() == oracle.records@.len()
    &&& nut.frames@.len() > 0
    &&& forall|i: int| 0 <= i < nut.frames@.len() ==> frame_ok(f, w, h, #[trigger] nut.frames@[i], oracle.records@[i])
    &&& all_pts_agree(oracle, nut)
}

/// Verify the NUT-derived frames against the independent framehash oracle:
/// per frame the source-layout payload must be exactly the expected size,
/// the oracle's size must agree, the payload must unpack, its canonical
/// samples repacked to the source layout must hash to the oracle digest,
/// and every present oracle PTS must equal the frame's PTS as a rational.
/// An unsupported format is `UnsupportedPixelLayout`, a frame size beyond
/// `u64` is `ArithmeticOverflow`, no frames is `BridgeDecodeFailed`, any
/// other disagreement is `CanonicalHashMismatch`. The verified sample byte
/// count saturates at `u64::MAX`.
#[verifier::rlimit(80)]
pub fn verify_frames(
    pix_fmt: &str,
    width: u64,
    height: u64,
    oracle: &FramehashResult,
    nut: &NutStream,
) -> (r: Result<ImportChecks, VoleError>)
    requires
        forall|i: int| 0 <= i < nut.frames@.len() ==> (#[trigger] nut.frames@[i]).stream < nut.streams@.len(),
    ensures
        r is Ok <==> frames_verify(pix_fmt@, width, height, *oracle, *nut),
        r matches Ok(c) ==> {
            &&& c.oracle_frames == nut.frames@.len()
            &&& c.verified_frames == nut.frames@.len()
            &&& c.pts_matched
            &&& forall|i: int|
                0 <= i < nut.frames@.len() ==> (pads_zero(pix_fmt@, (#[trigger] nut.frames@[i]).payload@)
                    ==> oracle.records@[i].sha256@ == sha256_of(nut.frames@[i].payload@))
        },
        source_format(pix_fmt@) is None ==> r == Err::<ImportChecks, VoleError>(VoleError::UnsupportedPixelLayout),
        r matches Err(e) ==> e == VoleError::UnsupportedPixelLayout || e == VoleError::ArithmeticOverflow
            || e == VoleError::BridgeDecodeFailed || e == VoleError::CanonicalHashMismatch,
{
    let source_bytes = expected_canonical_bytes(pix_fmt, width, height)?;
    if nut.frames.len() != oracle.records.len() {
        return Err(VoleError::CanonicalHashMismatch);
    }
    if nut.frames.len() == 0 {
        return Err(VoleError::BridgeDecodeFailed);
    }
    let ghost f = source_format(pix_fmt@)->0;
    let (otn, otd) = oracle.time_base;
    let mut samples = 0u64;
    let mut pts_matched = true;
    let mut i = 0usize;
    while i < nut.frames.len()
        invariant
            i <= nut.frames@.len(),
            nut.frames@.len() == oracle.records@.len(),
            nut.frames@.len() > 0,
            source_format(pix_fmt@) == Some(f),
            source_bytes == expected_total(f, width as nat, height as nat),
            (otn, otd) == oracle.time_base,
            forall|q: int| 0 <= q < nut.frames@.len() ==> (#[trigger] nut.frames@[q]).stream < nut.streams@.len(),
            pts_matched <==> forall|q: int|
                0 <= q < i ==> ((#[trigger] oracle.records@[q]).pts matches Some(o) ==> pts_agree(
                    nut.frames@[q].pts,
                    nut.streams@[nut.frames@[q].stream as int].time_base,
                    o,
                    oracle.time_base,
                )),
            forall|q: int| 0 <= q < i ==> frame_ok(f, width, height, #[trigger] nut.frames@[q], oracle.records@[q]),
        decreases nut.frames@.len() - i,
    {
        let frame = &nut.frames[i];
        let rec = &oracle.records[i];
        if frame.payload.len() as u64 != source_bytes || rec.size != source_bytes {
            proof {
                assert(!frame_ok(f, width, height, nut.frames@[i as int], oracle.records@[i as int]));
            }
            return Err(VoleError::CanonicalHashMismatch);
        }
        let planes = match unpack_frame(pix_fmt, width, height, frame.payload.as_slice()) {
            Ok(ps) => ps,
            Err(_) => {
                proof {
                    assert(!frame_ok(f, width, height, nut.frames@[i as int], oracle.records@[i as int]));
                }
                return Err(VoleError::CanonicalHashMismatch);
            },
        };
        let mut k = 0usize;
        while k < planes.len()
            invariant
                k <= planes@.len(),
                forall|q: int| 0 <= q < k ==> (#[trigger] planes@[q]).valid(),
            decreases planes@.len() - k,
        {
            planes[k].witness_valid();
            k = k + 1;
        }
        proof {
            lemma_unpacked_repack_ready(pix_fmt@, f, width, height, frame.payload@, planes@);
        }
        let plen = frame.payload.len();
        let repacked = repack_frame(pix_fmt, width, height, planes.as_slice()).unwrap();
        proof {
            lemma_repack_clears_pads(pix_fmt@, f, width, height, frame.payload@, planes@, repacked@);
        }
        let digest = sha256_digest(repacked.as_slice());
        let mut same = true;
        let mut b = 0usize;
        while b < 32
            invariant
                b <= 32,
                digest@.len() == 32,
                rec.sha256@.len() == 32,
                same <==> forall|q: int| 0 <= q < b ==> digest@[q] == rec.sha256@[q],
            decreases 32 - b,
        {
            if digest[b] != rec.sha256[b] {
                same = false;
            }
            b = b + 1;
        }
        if !same {
            proof {
                assert(digest@ != rec.sha256@);
                assert(!frame_ok(f, width, height, nut.frames@[i as int], oracle.records@[i as int]));
            }
            return Err(VoleError::CanonicalHashMismatch);
        }
        proof {
            assert(digest@ =~= rec.sha256@);
        }
        if let Some(opts_pts) = rec.pts {
            let st = &nut.streams[frame.stream as usize];
            let (tbn, tbd) = st.time_base;
            proof {
                assert(-0x8000_0000_0000_0000_0000_0000_0000_0000 < frame.pts * tbn * otd < 0x8000_0000_0000_0000_0000_0000_0000_0000) by (nonlinear_arith)
                    requires
                        i64::MIN <= frame.pts <= i64::MAX,
                        tbn <= u32::MAX,
                        otd <= u32::MAX,
                ;
                assert(-0x8000_0000_0000_0000_0000_0000_0000_0000 < opts_pts * otn * tbd < 0x8000_0000_0000_0000_0000_0000_0000_0000) by (nonlinear_arith)
                    requires
                        i64::MIN <= opts_pts <= i64::MAX,
                        otn <= u32::MAX,
                        tbd <= u32::MAX,
                ;
                assert(-0x8000_0000_0000_0000_0000_0000_0000_0000 < frame.pts * tbn < 0x8000_0000_0000_0000_0000_0000_0000_0000) by (nonlinear_arith)
                    requires
                        i64::MIN <= frame.pts <= i64::MAX,
                        tbn <= u32::MAX,
                ;
                assert(-0x8000_0000_0000_0000_0000_0000_0000_0000 < opts_pts * otn < 0x8000_0000_0000_0000_0000_0000_0000_0000) by (nonlinear_arith)
                    requires
                        i64::MIN <= opts_pts <= i64::MAX,
                        otn <= u32::MAX,
                ;
            }
            let a = (frame.pts as i128) * (tbn as i128) * (otd as i128);
            let c = (opts_pts as i128) * (otn as i128) * (tbd as i128);
            if a != c {
                pts_matched = false;
            }
        }
        let mut q = 0usize;
        while q < planes.len()
            invariant
                q <= planes@.len(),
            decreases planes@.len() - q,
        {
            let n = match planes[q].sample_count().checked_mul(planes[q].storage().bytes_per_sample()) {
                Some(n) => n,
                None => u64::MAX,
            };
            samples = match samples.checked_add(n) {
                Some(s) => s,
                None => u64::MAX,
            };
            q = q + 1;
        }
        i = i + 1;
    }
    if !pts_matched {
        return Err(VoleError::CanonicalHashMismatch);
    }
    proof {
        assert forall|q: int| 0 <= q < nut.frames@.len() implies (pads_zero(pix_fmt@, (#[trigger] nut.frames@[q]).payload@)
            ==> oracle.records@[q].sha256@ == sha256_of(nut.frames@[q].payload@)) by {
            if pads_zero(pix_fmt@, nut.frames@[q].payload@) {
                assert(frame_ok(f, width, height, nut.frames@[q], oracle.records@[q]));
                assert(zero_pads(f, nut.frames@[q].payload@) =~= nut.frames@[q].payload@);
            }
        }
    }
    Ok(
        ImportChecks {
            oracle_frames: nut.frames.len() as u64,
            verified_frames: nut.frames.len() as u64,
            sample_bytes: samples,
            pts_matched: true,
        },
    )
}

/// A verified import: the parsed NUT pipe and oracle, the epoch, the
/// canonical video in presentation order, the verification facts and the
/// sequence digests.
#[derive(Debug)]
pub struct ImportedVideo {
    /// The parsed NUT stream (frame payloads and PTS).
    pub nut: NutStream,
    /// The framehash oracle records.
    pub oracle: FramehashResult,
    /// The epoch describing the imported video.
    pub epoch: VideoEpoch,
    /// The validated canonical video.
    pub video: CanonicalVideo,
    /// Verification facts.
    pub checks: ImportChecks,
    /// BLAKE3 of the canonical sequence record.
    pub sequence_blake3: [u8; 32],
    /// SHA-256 of the same record.
    pub sequence_sha256: [u8; 32],
}

/// The domain tag that starts a canonical sequence record.
pub open spec fn record_tag() -> Seq<u8> {
    seq![0x56u8, 0x4fu8, 0x4cu8, 0x45u8, 0x2du8, 0x43u8, 0x41u8, 0x4eu8, 0x4fu8, 0x4eu8, 0x49u8, 0x43u8, 0x41u8, 0x4cu8, 0x2du8, 0x76u8, 0x31u8, 0x00u8]
}

/// Per-plane record entries: component, depth bits and subsampling.
pub open spec fn record_planes(ts: Seq<PlaneTemplate>) -> Seq<u8>
    decreases ts.len(),
{
    if ts.len() == 0 {
        Seq::empty()
    } else {
        record_planes(ts.drop_last()) + seq![
            component_code_spec(ts.last().component),
            ts.last().bit_depth.b(),
            ts.last().subsample_x,
            ts.last().subsample_y,
        ]
    }
}

/// The epoch part of the record.
pub open spec fn record_head(e: VideoEpoch) -> Seq<u8> {
    record_tag() + le4(e.w()) + le4(e.h()) + seq![layout_code_spec(e.lay()) as u8, e.tmpls().len() as u8]
        + record_planes(e.tmpls()) + seq![
        primaries_code_spec(e.col().p()),
        transfer_code_spec(e.col().t()),
        matrix_code_spec(e.col().m()),
        range_code_spec(e.col().r()),
        chroma_code_spec(e.col().c()),
    ]
}

/// The canonical bytes of a plane list.
pub open spec fn planes_bytes(ps: Seq<Plane>) -> Seq<u8>
    decreases ps.len(),
{
    if ps.len() == 0 {
        Seq::empty()
    } else {
        planes_bytes(ps.drop_last()) + ps.last().bytes()
    }
}

/// The record entry of one observation: PTS value and time base, the
/// duration when present, and the canonical plane bytes.
pub open spec fn record_obs(o: CanonicalVideoObservation) -> Seq<u8> {
    le8(o.pt().v() as u64) + le4(o.pt().tb().n()) + le4(o.pt().tb().d()) + match o.dur() {
        Some(d) => seq![1u8] + le8(d.v() as u64),
        None => seq![0u8],
    } + planes_bytes(o.pls())
}

/// Record entries of an observation list.
pub open spec fn record_all(os: Seq<CanonicalVideoObservation>) -> Seq<u8>
    decreases os.len(),
{
    if os.len() == 0 {
        Seq::empty()
    } else {
        record_all(os.drop_last()) + record_obs(os.last())
    }
}

/// The domain-separated canonical record of a video: the epoch
/// description followed by every observation.
pub open spec fn canonical_record_spec(e: VideoEpoch, os: Seq<CanonicalVideoObservation>) -> Seq<u8> {
    record_head(e) + record_all(os)
}

proof fn lemma_layout_code_small(l: PixelLayout)
    ensures
        layout_code_spec(l) <= 16,
{
    match l {
        PixelLayout::Gray => {},
        PixelLayout::Yuv400 => {},
        PixelLayout::Yuv420 => {},
        PixelLayout::Yuv422 => {},
        PixelLayout::Yuv444 => {},
        PixelLayout::Yuva420 => {},
        PixelLayout::Yuva444 => {},
        PixelLayout::Gbr => {},
        PixelLayout::Gbra => {},
        PixelLayout::Rgb => {},
        PixelLayout::Bgr => {},
        PixelLayout::Rgba => {},
        PixelLayout::Bgra => {},
        PixelLayout::Argb => {},
        PixelLayout::Abgr => {},
        PixelLayout::Indexed => {},
    }
}

#[verifier::rlimit(40)]
fn write_record_head(out: &mut Vec<u8>, epoch: &VideoEpoch)
    ensures
        final(out)@ == old(out)@ + record_head(*epoch),
{
    let ghost start = out@;
    let tag: [u8; 18] = [0x56, 0x4f, 0x4c, 0x45, 0x2d, 0x43, 0x41, 0x4e, 0x4f, 0x4e, 0x49, 0x43, 0x41, 0x4c, 0x2d, 0x76, 0x31, 0x00];
    push_seq(out, vstd::array::array_as_slice(&tag));
    proof {
        assert(tag@ =~= record_tag());
    }
    let ghost t0 = out@;
    push_le4(out, epoch.width());
    push_le4(out, epoch.height());
    let ghost a = out@;
    let lc = layout_code(epoch.layout());
    proof {
        lemma_layout_code_small(epoch.lay());
    }
    out.push(lc as u8);
    let tm = epoch.planes();
    proof {
        crate::media::wire::lemma_layout_planes_small(epoch.lay());
    }
    let n = epoch.plane_count();
    out.push(n as u8);
    let ghost table_at = out@;
    proof {
        assert(a =~= start + record_tag() + le4(epoch.w()) + le4(epoch.h()));
        assert(table_at =~= a + seq![layout_code_spec(epoch.lay()) as u8, epoch.tmpls().len() as u8]);
    }
    let mut i = 0usize;
    while i < tm.len()
        invariant
            i <= tm@.len(),
            tm@ == epoch.tmpls(),
            out@ == table_at + record_planes(tm@.take(i as int)),
        decreases tm@.len() - i,
    {
        out.push(component_code(tm[i].component));
        out.push(tm[i].bit_depth.bits());
        out.push(tm[i].subsample_x);
        out.push(tm[i].subsample_y);
        proof {
            assert(tm@.take(i + 1).drop_last() =~= tm@.take(i as int));
            assert(tm@.take(i + 1).last() == tm@[i as int]);
            assert(out@ =~= table_at + record_planes(tm@.take(i + 1)));
        }
        i = i + 1;
    }
    proof {
        assert(tm@.take(tm@.len() as int) =~= tm@);
    }
    let ghost tail_at = out@;
    let c = epoch.color();
    out.push(primaries_code(c.primaries()));
    out.push(transfer_code(c.transfer()));
    out.push(matrix_code(c.matrix()));
    out.push(range_code(c.range()));
    out.push(chroma_code(c.chroma_location()));
    proof {
        assert(out@ =~= tail_at + seq![
            primaries_code_spec(epoch.col().p()),
            transfer_code_spec(epoch.col().t()),
            matrix_code_spec(epoch.col().m()),
            range_code_spec(epoch.col().r()),
            chroma_code_spec(epoch.col().c()),
        ]);
        assert(out@ =~= start + record_head(*epoch));
    }
}

fn write_record_obs(out: &mut Vec<u8>, o: &CanonicalVideoObservation)
    ensures
        final(out)@ == old(out)@ + record_obs(*o),
{
    let ghost start = out@;
    let pts = o.pts();
    #[verifier::truncate]
    let v = pts.value() as u64;
    push_le8(out, v);
    push_le4(out, pts.time_base().numerator());
    push_le4(out, pts.time_base().denominator());
    let ghost mid = out@;
    match o.duration() {
        Some(d) => {
            out.push(1u8);
            #[verifier::truncate]
            let dv = d.value() as u64;
            push_le8(out, dv);
        },
        None => {
            out.push(0u8);
        },
    }
    let ghost planes_at = out@;
    let ps = o.planes();
    let mut i = 0usize;
    while i < ps.len()
        invariant
            i <= ps@.len(),
            ps@ == o.pls(),
            out@ == planes_at + planes_bytes(ps@.take(i as int)),
        decreases ps@.len() - i,
    {
        let b = ps[i].canonical_bytes();
        push_seq(out, b.as_slice());
        proof {
            assert(ps@.take(i + 1).drop_last() =~= ps@.take(i as int));
            assert(ps@.take(i + 1).last() == ps@[i as int]);
            assert(out@ =~= planes_at + planes_bytes(ps@.take(i + 1)));
        }
        i = i + 1;
    }
    proof {
        assert(ps@.take(ps@.len() as int) =~= ps@);
        assert(out@ =~= start + record_obs(*o));
    }
}

/// The canonical sequence record of an epoch and its observations.
pub fn canonical_record(epoch: &VideoEpoch, obs: &[CanonicalVideoObservation]) -> (r: Vec<u8>)
    ensures
        r@ == canonical_record_spec(*epoch, obs@),
{
    let mut out: Vec<u8> = Vec::new();
    write_record_head(&mut out, epoch);
    let ghost at = out@;
    let mut i = 0usize;
    while i < obs.len()
        invariant
            i <= obs@.len(),
            out@ == at + record_all(obs@.take(i as int)),
            at == record_head(*epoch),
        decreases obs@.len() - i,
    {
        write_record_obs(&mut out, &obs[i]);
        proof {
            assert(obs@.take(i + 1).drop_last() =~= obs@.take(i as int));
            assert(obs@.take(i + 1).last() == obs@[i as int]);
            assert(out@ =~= at + record_all(obs@.take(i + 1)));
        }
        i = i + 1;
    }
    proof {
        assert(obs@.take(obs@.len() as int) =~= obs@);
    }
    out
}

/// The SAR a manifest stream declares.
pub open spec fn stream_sar(s: StreamInfo) -> Option<(u32, u32)> {
    match s.sample_aspect_ratio {
        Some(t) => crate::media::bridge::probe::sar_text(vstd::utf8::encode_utf8(t@)),
        None => None,
    }
}

/// The epoch of an import from the manifest stream's interpretation: its
/// colour description, SAR (square when undeclared), orientation and field
/// structure, at one depth on every plane.
pub fn build_epoch(stream: &StreamInfo, layout: PixelLayout, depth: u8, width: u32, height: u32) -> (r: Result<VideoEpoch, VoleError>)
    ensures
        r matches Ok(e) ==> {
            &&& e.w() == width
            &&& e.h() == height
            &&& e.lay() == layout
            &&& e.sd().len() == 0
            &&& e.col().props() == (
                primaries_of(stream.color_primaries),
                transfer_of(stream.color_transfer),
                matrix_of(stream.color_space),
                color_range_of(stream.color_range),
                chroma_location_of(stream.chroma_location),
            )
            &&& e.fs() == field_structure_of(stream.field_order)
            &&& forall|i: int| 0 <= i < e.tmpls().len() ==> (#[trigger] e.tmpls()[i]).bit_depth.b() == depth
            &&& e.eid() == EpochId(0)
            &&& e.tmpls().len() == layout_planes(layout).len()
            &&& forall|i: int|
                0 <= i < e.tmpls().len() ==> (#[trigger] e.tmpls()[i]).component == layout_planes(layout)[i].component
                    && e.tmpls()[i].subsample_x == layout_planes(layout)[i].subsample_x && e.tmpls()[i].subsample_y
                    == layout_planes(layout)[i].subsample_y
        },
        r is Ok <==> 1 <= depth <= 16 && crate::media::epoch::epoch_geometry_ok(layout, width, height)
            && (stream_sar(*stream) matches Some(q) ==> q.0 > 0 && q.1 > 0),
{
    let color = ColorDescription::new(
        stream.primaries(),
        stream.transfer(),
        stream.matrix(),
        stream.color_range(),
        stream.chroma_location(),
    );
    let sar = match stream.sar() {
        Some((n, d)) => SampleAspectRatio::new(n, d)?,
        None => SampleAspectRatio::square(),
    };
    let orientation = stream.orientation();
    let field = stream.field_structure();
    let bd = BitDepth::new(depth)?;
    VideoEpoch::new_uniform(EpochId(0), width, height, layout, bd, color, sar, orientation, field)
}

/// Whether observation `o` carries frame timing `(pts, next)` on `tb`:
/// its PTS, and the positive delta to the next frame as its duration (none
/// for the last frame).
pub open spec fn timed(o: CanonicalVideoObservation, pts: i64, next: Option<i64>, tb: TimeBase) -> bool {
    &&& o.pt().v() == pts
    &&& o.pt().tb() == tb
    &&& match next {
        Some(n) => o.dur() matches Some(d) && d.v() == n - pts && d.tb() == tb,
        None => o.dur() is None,
    }
}

/// Whether an import plan is self-consistent, as [`plan_import`] makes
/// one: a nonempty geometry inside `u32` and the layout and depth of its
/// supported pixel format.
pub open spec fn plan_consistent(plan: ImportPlan) -> bool {
    &&& 0 < plan.width <= u32::MAX
    &&& 0 < plan.height <= u32::MAX
    &&& source_format(plan.pix_fmt@) matches Some(sf) && sf.layout == plan.layout && sf.depth == plan.depth
}

/// Whether decoded frames import: one video stream of the planned
/// geometry with a nonzero time base, frames that verify against the
/// oracle, an epoch that can be built, and strictly increasing PTS whose
/// deltas fit `i64`.
pub open spec fn import_ok(plan: ImportPlan, stream: StreamInfo, oracle: FramehashResult, nut: NutStream) -> bool {
    &&& nut.streams@.len() == 1
    &&& nut.streams@[0].class == 0
    &&& nut.streams@[0].width == plan.width
    &&& nut.streams@[0].height == plan.height
    &&& nut.streams@[0].time_base.0 > 0
    &&& nut.streams@[0].time_base.1 > 0
    &&& frames_verify(plan.pix_fmt@, plan.width, plan.height, oracle, nut)
    &&& 1 <= plan.depth <= 16
    &&& crate::media::epoch::epoch_geometry_ok(plan.layout, plan.width as u32, plan.height as u32)
    &&& (stream_sar(stream) matches Some(q) ==> q.0 > 0 && q.1 > 0)
    &&& forall|i: int|
        0 <= i && i + 1 < nut.frames@.len() ==> #[trigger] nut.frames@[i].pts < nut.frames@[i + 1].pts
            && nut.frames@[i + 1].pts - nut.frames@[i].pts <= i64::MAX
}

/// Whether an imported video is the import of `nut` under `plan`.
pub open spec fn imported_from(v: ImportedVideo, plan: ImportPlan, oracle: FramehashResult, nut: NutStream) -> bool {
    &&& v.nut == nut
    &&& v.nut.streams@.len() == 1
    &&& v.nut.streams@[0].class == 0
    &&& v.nut.streams@[0].width == plan.width
    &&& v.nut.streams@[0].height == plan.height
    &&& v.checks.verified_frames == v.nut.frames@.len()
    &&& v.checks.oracle_frames == v.nut.frames@.len()
    &&& v.checks.pts_matched
    &&& v.nut.frames@.len() >= 1
    &&& v.oracle.records@.len() == v.nut.frames@.len()
    &&& v.oracle == oracle
    &&& frames_verify(plan.pix_fmt@, plan.width, plan.height, v.oracle, v.nut)
    &&& v.video.eps().len() == 1
    &&& v.epoch.w() == plan.width
    &&& v.epoch.h() == plan.height
    &&& v.epoch.lay() == plan.layout
    &&& v.video.obss().len() == v.nut.frames@.len()
    &&& forall|i: int|
        0 <= i < v.nut.frames@.len() ==> timed(
            #[trigger] v.video.obss()[i],
            v.nut.frames@[i].pts,
            if i + 1 < v.nut.frames@.len() {
                Some(v.nut.frames@[i + 1].pts)
            } else {
                None
            },
            v.video.obss()[0].pt().tb(),
        )
    &&& v.sequence_blake3@ == blake3_of(canonical_record_spec(v.epoch, v.video.obss()))
    &&& v.sequence_sha256@ == sha256_of(canonical_record_spec(v.epoch, v.video.obss()))
}

/// Planes unpacked from a frame of format `f` fit an epoch of `f`'s layout
/// and depth over the same geometry.
proof fn lemma_unpacked_fit(f: SourceFormat, w: u64, h: u64, planes: Seq<Plane>, payload: Seq<u8>, e: VideoEpoch)
    requires
        0 < w <= u32::MAX,
        0 < h <= u32::MAX,
        e.w() == w,
        e.h() == h,
        e.lay() == f.layout,
        e.tmpls().len() == layout_planes(f.layout).len(),
        forall|i: int|
            0 <= i < e.tmpls().len() ==> (#[trigger] e.tmpls()[i]).component == layout_planes(f.layout)[i].component
                && e.tmpls()[i].subsample_x == layout_planes(f.layout)[i].subsample_x && e.tmpls()[i].subsample_y
                == layout_planes(f.layout)[i].subsample_y && e.tmpls()[i].bit_depth.b() == f.depth,
        planes.len() == nplanes(f),
        forall|p: int| 0 <= p < nplanes(f) ==> unpacked_plane(f, w, h, p, #[trigger] planes[p], payload),
    ensures
        observation_fits(e, planes),
{
    assert forall|p: int| 0 <= p < planes.len() implies plane_matches(e.tmpls()[p], e.dims(p), #[trigger] planes[p]) by {
        let t = layout_planes(f.layout)[p];
        lemma_layout_subsampling_small(f.layout, p);
        lemma_subsampled_bounds(w as u32, t.subsample_x);
        lemma_subsampled_bounds(h as u32, t.subsample_y);
        assert(unpacked_plane(f, w, h, p, planes[p], payload));
        lemma_depth_eq(planes[p].depth(), e.tmpls()[p].bit_depth);
    }
}

/// Same-base presentation order is tick order.
proof fn lemma_presents_after_same_base(a: Pts, b: Pts)
    requires
        a.tb() == b.tb(),
        a.tb().n() > 0,
        a.tb().d() > 0,
        a.v() > b.v(),
    ensures
        crate::media::epoch::presents_after(a, b),
{
    let n = a.tb().n() as int;
    let d = a.tb().d() as int;
    assert(a.v() * n * d > b.v() * n * d) by (nonlinear_arith)
        requires
            n > 0,
            d > 0,
            a.v() > b.v(),
    ;
}

/// Import decoded frames: the stream must carry exactly one video stream
/// (`UnsupportedFeature`) of the planned geometry (`GeometryMismatch`);
/// its frames must verify against the oracle (see [`verify_frames`]); each
/// frame becomes an observation at its PTS with the delta to the next
/// frame as its duration; the video's canonical record is digested with
/// BLAKE3 and SHA-256. A consistent plan whose frames satisfy
/// [`import_ok`] imports.
#[verifier::rlimit(80)]
pub fn import_parsed(plan: &ImportPlan, stream: &StreamInfo, oracle: FramehashResult, nut: NutStream) -> (r: Result<ImportedVideo, VoleError>)
    requires
        0 < plan.width <= u32::MAX,
        0 < plan.height <= u32::MAX,
        forall|i: int| 0 <= i < nut.frames@.len() ==> (#[trigger] nut.frames@[i]).stream < nut.streams@.len(),
    ensures
        r matches Ok(v) ==> imported_from(v, *plan, oracle, nut),
        plan_consistent(*plan) && import_ok(*plan, *stream, oracle, nut) ==> r is Ok,
{
    if nut.streams.len() != 1 || nut.streams[0].class != 0 {
        return Err(VoleError::UnsupportedFeature);
    }
    if nut.streams[0].width as u64 != plan.width || nut.streams[0].height as u64 != plan.height {
        return Err(VoleError::GeometryMismatch);
    }
    let checks = verify_frames(plan.pix_fmt.as_str(), plan.width, plan.height, &oracle, &nut)?;
    if checks.oracle_frames != nut.frames.len() as u64 {
        return Err(VoleError::CanonicalHashMismatch);
    }
    let epoch = build_epoch(stream, plan.layout, plan.depth, plan.width as u32, plan.height as u32)?;
    let (tbn, tbd) = nut.streams[0].time_base;
    let tb = TimeBase::new(tbn, tbd)?;
    let n = nut.frames.len();
    let ghost good = plan_consistent(*plan) && import_ok(*plan, *stream, oracle, nut);
    let ghost sf = source_format(plan.pix_fmt@)->0;
    let mut obs: Vec<CanonicalVideoObservation> = Vec::new();
    let mut i = 0usize;
    while i < n
        invariant
            i <= n,
            n == nut.frames@.len(),
            obs@.len() == i,
            0 < plan.width <= u32::MAX,
            0 < plan.height <= u32::MAX,
            tb.n() > 0 && tb.d() > 0,
            good == (plan_consistent(*plan) && import_ok(*plan, *stream, oracle, nut)),
            good ==> source_format(plan.pix_fmt@) == Some(sf) && sf.layout == plan.layout && sf.depth == plan.depth,
            epoch.w() == plan.width && epoch.h() == plan.height && epoch.lay() == plan.layout,
            epoch.eid() == EpochId(0),
            epoch.tmpls().len() == layout_planes(plan.layout).len(),
            forall|k: int|
                0 <= k < epoch.tmpls().len() ==> (#[trigger] epoch.tmpls()[k]).component == layout_planes(
                    plan.layout,
                )[k].component && epoch.tmpls()[k].subsample_x == layout_planes(plan.layout)[k].subsample_x
                    && epoch.tmpls()[k].subsample_y == layout_planes(plan.layout)[k].subsample_y
                    && epoch.tmpls()[k].bit_depth.b() == plan.depth,
            forall|q: int|
                0 <= q < i ==> (#[trigger] obs@[q]).ep() == epoch.eid() && observation_fits(epoch, obs@[q].pls()),
            forall|q: int|
                0 <= q < i ==> timed(
                    #[trigger] obs@[q],
                    nut.frames@[q].pts,
                    if q + 1 < n {
                        Some(nut.frames@[q + 1].pts)
                    } else {
                        None
                    },
                    tb,
                ),
        decreases n - i,
    {
        let frame = &nut.frames[i];
        let planes = unpack_frame(plan.pix_fmt.as_str(), plan.width, plan.height, frame.payload.as_slice())?;
        let pts = Pts::new(frame.pts, tb);
        let dur = if i + 1 < n {
            let delta = match nut.frames[i + 1].pts.checked_sub(frame.pts) {
                Some(d) => d,
                None => {
                    return Err(VoleError::TimeNotRepresentable);
                },
            };
            Some(Duration::new(delta, tb)?)
        } else {
            None
        };
        proof {
            if good {
                assert(frame_ok(sf, plan.width, plan.height, nut.frames@[i as int], oracle.records@[i as int]));
                lemma_unpacked_fit(sf, plan.width, plan.height, planes@, frame.payload@, epoch);
            }
        }
        let o = CanonicalVideoObservation::new(&epoch, pts, dur, planes)?;
        obs.push(o);
        i = i + 1;
    }
    let mut epochs: Vec<VideoEpoch> = Vec::new();
    epochs.push(epoch.clone());
    proof {
        if good {
            assert forall|k: int| 0 <= k < obs@.len() implies #[trigger] crate::media::epoch::video_obs_fault(
                epochs@,
                obs@,
                k,
            ) is None by {
                assert(observation_fits(epochs@[0], obs@[k].pls()));
                if k > 0 {
                    assert(nut.frames@[k - 1].pts < nut.frames@[k].pts);
                    lemma_presents_after_same_base(obs@[k].pt(), obs@[k - 1].pt());
                }
            }
        }
    }
    let video = CanonicalVideo::new(epochs, obs)?;
    let record = canonical_record(&epoch, video.observations());
    let sequence_blake3 = blake3_digest(record.as_slice());
    let sequence_sha256 = sha256_digest(record.as_slice());
    proof {
        if n > 0 {
            assert(video.obss()[0].pt().tb() == tb);
        }
    }
    Ok(ImportedVideo { nut, oracle, epoch, video, checks, sequence_blake3, sequence_sha256 })
}


/// Whether `s` is, as plain values, what `parse_nut` makes of `d`.
pub open spec fn parsed_as(s: NutStream, d: Seq<u8>) -> bool {
    nut_spec(d) == Ok::<_, VoleError>((s.version, s.time_bases@, s.streams@, frame_views(s.frames@)))
}

/// Whether frames import depends on the streams and the frames' plain
/// values alone.
proof fn lemma_import_ok_views(plan: ImportPlan, stream: StreamInfo, oracle: FramehashResult, a: NutStream, b: NutStream)
    requires
        a.streams@ == b.streams@,
        frame_views(a.frames@) == frame_views(b.frames@),
    ensures
        import_ok(plan, stream, oracle, a) == import_ok(plan, stream, oracle, b),
{
    assert(a.frames@.len() == frame_views(a.frames@).len());
    assert(b.frames@.len() == frame_views(b.frames@).len());
    assert forall|i: int| 0 <= i < a.frames@.len() implies {
        &&& (#[trigger] a.frames@[i]).stream == b.frames@[i].stream
        &&& a.frames@[i].pts == b.frames@[i].pts
        &&& a.frames@[i].payload@ == b.frames@[i].payload@
    } by {
        assert(frame_views(a.frames@)[i] == frame_view(a.frames@[i]));
        assert(frame_views(b.frames@)[i] == frame_view(b.frames@[i]));
    }
    if let Some(f) = source_format(plan.pix_fmt@) {
        assert forall|i: int| 0 <= i < a.frames@.len() implies frame_ok(
            f,
            plan.width,
            plan.height,
            #[trigger] a.frames@[i],
            oracle.records@[i],
        ) == frame_ok(f, plan.width, plan.height, b.frames@[i], oracle.records@[i]) by {
            assert(a.frames@[i].payload@ == b.frames@[i].payload@);
        }
        if frames_verify(plan.pix_fmt@, plan.width, plan.height, oracle, a) {
            assert forall|i: int| 0 <= i < b.frames@.len() implies frame_ok(
                f,
                plan.width,
                plan.height,
                #[trigger] b.frames@[i],
                oracle.records@[i],
            ) by {
                assert(frame_ok(f, plan.width, plan.height, a.frames@[i], oracle.records@[i]));
            }
        }
        if frames_verify(plan.pix_fmt@, plan.width, plan.height, oracle, b) {
            assert forall|i: int| 0 <= i < a.frames@.len() implies frame_ok(
                f,
                plan.width,
                plan.height,
                #[trigger] a.frames@[i],
                oracle.records@[i],
            ) by {
                assert(frame_ok(f, plan.width, plan.height, b.frames@[i], oracle.records@[i]));
            }
        }
    }
    assert(all_pts_agree(oracle, a) == all_pts_agree(oracle, b)) by {
        if all_pts_agree(oracle, a) {
            assert forall|q: int| 0 <= q < b.frames@.len() implies ((#[trigger] oracle.records@[q]).pts matches Some(o)
                ==> pts_agree(b.frames@[q].pts, b.streams@[b.frames@[q].stream as int].time_base, o, oracle.time_base)) by {
                assert(a.frames@[q].stream == b.frames@[q].stream);
            }
        }
        if all_pts_agree(oracle, b) {
            assert forall|q: int| 0 <= q < a.frames@.len() implies ((#[trigger] oracle.records@[q]).pts matches Some(o)
                ==> pts_agree(a.frames@[q].pts, a.streams@[a.frames@[q].stream as int].time_base, o, oracle.time_base)) by {
                assert(a.frames@[q].stream == b.frames@[q].stream);
            }
        }
    }
    assert(frames_verify(plan.pix_fmt@, plan.width, plan.height, oracle, a) == frames_verify(
        plan.pix_fmt@,
        plan.width,
        plan.height,
        oracle,
        b,
    ));
    if import_ok(plan, stream, oracle, a) {
        assert forall|i: int| 0 <= i && i + 1 < b.frames@.len() implies #[trigger] b.frames@[i].pts < b.frames@[i
            + 1].pts && b.frames@[i + 1].pts - b.frames@[i].pts <= i64::MAX by {
            assert(a.frames@[i].pts < a.frames@[i + 1].pts);
            assert(a.frames@[i + 1].pts == b.frames@[i + 1].pts);
        }
    }
    if import_ok(plan, stream, oracle, b) {
        assert forall|i: int| 0 <= i && i + 1 < a.frames@.len() implies #[trigger] a.frames@[i].pts < a.frames@[i
            + 1].pts && a.frames@[i + 1].pts - a.frames@[i].pts <= i64::MAX by {
            assert(b.frames@[i].pts < b.frames@[i + 1].pts);
            assert(a.frames@[i + 1].pts == b.frames@[i + 1].pts);
        }
    }
}

/// Import from the decoded NUT pipe: the bytes are parsed (see
/// [`parse_nut`]) and the frames imported (see [`import_parsed`]). A fault
/// of the NUT bytes is the error; bytes that parse to a stream that
/// imports under a consistent plan import.
pub fn import_decoded(plan: &ImportPlan, stream: &StreamInfo, oracle: FramehashResult, nut_bytes: &[u8]) -> (r: Result<ImportedVideo, VoleError>)
    requires
        0 < plan.width <= u32::MAX,
        0 < plan.height <= u32::MAX,
    ensures
        r matches Ok(v) ==> nut_ok(v.nut, nut_bytes@) && in_stream_order(v.nut, nut_bytes@) && imported_from(
            v,
            *plan,
            oracle,
            v.nut,
        ),
        r matches Ok(v) ==> parsed_as(v.nut, nut_bytes@),
        nut_spec(nut_bytes@) matches Err(e) ==> r == Err::<ImportedVideo, VoleError>(e),
        plan_consistent(*plan) && (exists|s: NutStream| #[trigger] parsed_as(s, nut_bytes@) && import_ok(*plan, *stream, oracle, s))
            ==> r is Ok,
{
    let nut = parse_nut(nut_bytes)?;
    let ghost parsed = nut;
    proof {
        if plan_consistent(*plan) && (exists|s: NutStream| #[trigger] parsed_as(s, nut_bytes@) && import_ok(*plan, *stream, oracle, s)) {
            let s = choose|s: NutStream| #[trigger] parsed_as(s, nut_bytes@) && import_ok(*plan, *stream, oracle, s);
            lemma_import_ok_views(*plan, *stream, oracle, s, parsed);
        }
    }
    let r = import_parsed(plan, stream, oracle, nut);
    proof {
        if r is Ok {
            assert(r->Ok_0.nut == parsed);
        }
    }
    r
}

} // verus!
