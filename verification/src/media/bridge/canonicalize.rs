//! Source-format canonicalizer.
//!
//! Maps decoder pixel formats to the canonical planar domain and reversibly
//! unpacks decoded frames into canonical planes:
//!
//! * planar formats whose payload is already tight canonical bytes map plane
//!   for plane (with the declared reordering where the payload plane order
//!   differs, e.g. `gbrp` = G,B,R versus canonical R,G,B);
//! * semi-planar NV12/NV21/P010/P016 interleaved chroma is de-interleaved;
//! * packed 4:2:2 (YUYV422/UYVY422, even widths) and 8-bit packed RGB
//!   families are de-interleaved into canonical planes.
//!
//! Every sample of canonical plane `p` lives at one payload position
//! `base(p) + k·step(p)`; [`repack_frame`] writes the planes back to exactly
//! those positions. Stride padding is never preserved; unsupported formats
//! fail closed (`UnsupportedPixelLayout`), never a silent conversion.

use vstd::arithmetic::div_mod::*;
use vstd::arithmetic::mul::*;
use vstd::prelude::*;

use crate::error::VoleError;
use crate::media::layout::{layout_planes, shift_of, Component, PixelLayout};
use crate::media::plane::{max_sample_of, BitDepth, Plane, PlaneData};

verus! {

/// How a source format's payload carries the canonical planes.
#[derive(Debug, Clone, Copy, PartialEq, Eq, Structural)]
pub enum SourceKind {
    /// Payload planes in some order of the canonical components (tight rows).
    Planar,
    /// Semi-planar chroma: interleaved `U`/`V` sample pairs.
    SemiPlanar { uv_first: Component },
    /// 8-bit packed pixels of `stride` bytes; canonical plane `p` holds byte
    /// `first + p` of each pixel.
    Packed { stride: u8, first: u8 },
    /// 8-bit packed 4:2:2 `Y0 U Y1 V` (even widths only).
    Yuyv,
    /// 8-bit packed 4:2:2 `U Y0 V Y1` (even widths only).
    Uyvy,
}

/// The description of one supported source pixel format.
#[derive(Debug, Clone, Copy, PartialEq, Eq, Structural)]
pub struct SourceFormat {
    /// Canonical layout the format unpacks to.
    pub layout: PixelLayout,
    /// Active bit depth.
    pub depth: u8,
    /// Payload arrangement.
    pub kind: SourceKind,
}

/// How a source format's payload relates to the canonical bytes.
#[derive(Debug, Clone, Copy, PartialEq, Eq, Structural)]
pub enum CarrierKind {
    /// The source payload is already the canonical tight planar bytes.
    Canonical,
    /// The source payload packs the canonical planes; byte-exactness is
    /// proven through repacking.
    SourceRepacked,
}

/// The supported source pixel formats by name.
pub open spec fn source_format(name: Seq<char>) -> Option<SourceFormat> {
    if name == "gray"@ {
        Some(SourceFormat { layout: PixelLayout::Gray, depth: 8, kind: SourceKind::Planar })
    } else if name == "gray16le"@ {
        Some(SourceFormat { layout: PixelLayout::Gray, depth: 16, kind: SourceKind::Planar })
    } else if name == "yuv420p"@ {
        Some(SourceFormat { layout: PixelLayout::Yuv420, depth: 8, kind: SourceKind::Planar })
    } else if name == "yuv420p10le"@ {
        Some(SourceFormat { layout: PixelLayout::Yuv420, depth: 10, kind: SourceKind::Planar })
    } else if name == "yuv420p12le"@ {
        Some(SourceFormat { layout: PixelLayout::Yuv420, depth: 12, kind: SourceKind::Planar })
    } else if name == "yuv420p14le"@ {
        Some(SourceFormat { layout: PixelLayout::Yuv420, depth: 14, kind: SourceKind::Planar })
    } else if name == "yuv420p16le"@ {
        Some(SourceFormat { layout: PixelLayout::Yuv420, depth: 16, kind: SourceKind::Planar })
    } else if name == "yuv422p"@ {
        Some(SourceFormat { layout: PixelLayout::Yuv422, depth: 8, kind: SourceKind::Planar })
    } else if name == "yuv422p10le"@ {
        Some(SourceFormat { layout: PixelLayout::Yuv422, depth: 10, kind: SourceKind::Planar })
    } else if name == "yuv422p12le"@ {
        Some(SourceFormat { layout: PixelLayout::Yuv422, depth: 12, kind: SourceKind::Planar })
    } else if name == "yuv422p16le"@ {
        Some(SourceFormat { layout: PixelLayout::Yuv422, depth: 16, kind: SourceKind::Planar })
    } else if name == "yuv444p"@ {
        Some(SourceFormat { layout: PixelLayout::Yuv444, depth: 8, kind: SourceKind::Planar })
    } else if name == "yuv444p10le"@ {
        Some(SourceFormat { layout: PixelLayout::Yuv444, depth: 10, kind: SourceKind::Planar })
    } else if name == "yuv444p12le"@ {
        Some(SourceFormat { layout: PixelLayout::Yuv444, depth: 12, kind: SourceKind::Planar })
    } else if name == "yuv444p16le"@ {
        Some(SourceFormat { layout: PixelLayout::Yuv444, depth: 16, kind: SourceKind::Planar })
    } else if name == "yuva420p"@ {
        Some(SourceFormat { layout: PixelLayout::Yuva420, depth: 8, kind: SourceKind::Planar })
    } else if name == "yuva444p"@ {
        Some(SourceFormat { layout: PixelLayout::Yuva444, depth: 8, kind: SourceKind::Planar })
    } else if name == "yuva444p10le"@ {
        Some(SourceFormat { layout: PixelLayout::Yuva444, depth: 10, kind: SourceKind::Planar })
    } else if name == "yuva444p12le"@ {
        Some(SourceFormat { layout: PixelLayout::Yuva444, depth: 12, kind: SourceKind::Planar })
    } else if name == "yuva444p16le"@ {
        Some(SourceFormat { layout: PixelLayout::Yuva444, depth: 16, kind: SourceKind::Planar })
    } else if name == "gbrp"@ {
        Some(SourceFormat { layout: PixelLayout::Gbr, depth: 8, kind: SourceKind::Planar })
    } else if name == "gbrp10le"@ {
        Some(SourceFormat { layout: PixelLayout::Gbr, depth: 10, kind: SourceKind::Planar })
    } else if name == "gbrp12le"@ {
        Some(SourceFormat { layout: PixelLayout::Gbr, depth: 12, kind: SourceKind::Planar })
    } else if name == "gbrp16le"@ {
        Some(SourceFormat { layout: PixelLayout::Gbr, depth: 16, kind: SourceKind::Planar })
    } else if name == "gbrap"@ {
        Some(SourceFormat { layout: PixelLayout::Gbra, depth: 8, kind: SourceKind::Planar })
    } else if name == "gbrap10le"@ {
        Some(SourceFormat { layout: PixelLayout::Gbra, depth: 10, kind: SourceKind::Planar })
    } else if name == "nv12"@ {
        Some(SourceFormat { layout: PixelLayout::Yuv420, depth: 8, kind: SourceKind::SemiPlanar { uv_first: Component::Cb } })
    } else if name == "nv21"@ {
        Some(SourceFormat { layout: PixelLayout::Yuv420, depth: 8, kind: SourceKind::SemiPlanar { uv_first: Component::Cr } })
    } else if name == "p010le"@ {
        Some(SourceFormat { layout: PixelLayout::Yuv420, depth: 10, kind: SourceKind::SemiPlanar { uv_first: Component::Cb } })
    } else if name == "p016le"@ {
        Some(SourceFormat { layout: PixelLayout::Yuv420, depth: 16, kind: SourceKind::SemiPlanar { uv_first: Component::Cb } })
    } else if name == "rgb24"@ {
        Some(SourceFormat { layout: PixelLayout::Rgb, depth: 8, kind: SourceKind::Packed { stride: 3, first: 0 } })
    } else if name == "bgr24"@ {
        Some(SourceFormat { layout: PixelLayout::Bgr, depth: 8, kind: SourceKind::Packed { stride: 3, first: 0 } })
    } else if name == "rgb0"@ {
        Some(SourceFormat { layout: PixelLayout::Rgb, depth: 8, kind: SourceKind::Packed { stride: 4, first: 0 } })
    } else if name == "bgr0"@ {
        Some(SourceFormat { layout: PixelLayout::Bgr, depth: 8, kind: SourceKind::Packed { stride: 4, first: 0 } })
    } else if name == "0rgb"@ {
        Some(SourceFormat { layout: PixelLayout::Rgb, depth: 8, kind: SourceKind::Packed { stride: 4, first: 1 } })
    } else if name == "0bgr"@ {
        Some(SourceFormat { layout: PixelLayout::Bgr, depth: 8, kind: SourceKind::Packed { stride: 4, first: 1 } })
    } else if name == "rgba"@ {
        Some(SourceFormat { layout: PixelLayout::Rgba, depth: 8, kind: SourceKind::Packed { stride: 4, first: 0 } })
    } else if name == "bgra"@ {
        Some(SourceFormat { layout: PixelLayout::Bgra, depth: 8, kind: SourceKind::Packed { stride: 4, first: 0 } })
    } else if name == "argb"@ {
        Some(SourceFormat { layout: PixelLayout::Argb, depth: 8, kind: SourceKind::Packed { stride: 4, first: 0 } })
    } else if name == "abgr"@ {
        Some(SourceFormat { layout: PixelLayout::Abgr, depth: 8, kind: SourceKind::Packed { stride: 4, first: 0 } })
    } else if name == "yuyv422"@ {
        Some(SourceFormat { layout: PixelLayout::Yuv422, depth: 8, kind: SourceKind::Yuyv })
    } else if name == "uyvy422"@ {
        Some(SourceFormat { layout: PixelLayout::Yuv422, depth: 8, kind: SourceKind::Uyvy })
    } else {
        None
    }
}

/// Bytes per stored sample at a depth.
pub open spec fn sample_bytes(depth: u8) -> nat {
    if depth <= 8 {
        1
    } else {
        2
    }
}

/// `ceil(n / 2^s)`.
pub open spec fn cdiv(n: nat, s: u8) -> nat {
    ((n + shift_of(s) - 1) as nat) / shift_of(s)
}

/// Number of canonical planes of a format.
pub open spec fn nplanes(f: SourceFormat) -> nat {
    layout_planes(f.layout).len()
}

/// Dimensions of canonical plane `p` at coded `w × h`.
pub open spec fn pdims(f: SourceFormat, w: nat, h: nat, p: int) -> (nat, nat) {
    let t = layout_planes(f.layout)[p];
    (cdiv(w, t.subsample_x), cdiv(h, t.subsample_y))
}

/// Sample count of canonical plane `p`.
pub open spec fn pcount(f: SourceFormat, w: nat, h: nat, p: int) -> nat {
    pdims(f, w, h, p).0 * pdims(f, w, h, p).1
}

/// Samples of the canonical planes before plane `p`.
pub open spec fn prefix_count(f: SourceFormat, w: nat, h: nat, p: int) -> nat
    decreases p,
{
    if p <= 0 {
        0
    } else {
        prefix_count(f, w, h, p - 1) + pcount(f, w, h, p - 1)
    }
}

/// Payload position of canonical plane `p` in a planar R,G,B(,A) format
/// whose payload order is G,B,R(,A).
pub open spec fn gbr_slot(p: int) -> nat {
    if p == 0 {
        2
    } else if p == 1 {
        0
    } else if p == 2 {
        1
    } else {
        3
    }
}

/// Whether a layout is carried in G,B,R(,A) payload order by planar formats.
pub open spec fn is_gbr(l: PixelLayout) -> bool {
    l == PixelLayout::Gbr || l == PixelLayout::Gbra
}

/// Payload position of sample 0 of canonical plane `p`.
pub open spec fn src_base(f: SourceFormat, w: nat, h: nat, p: int) -> nat {
    let sb = sample_bytes(f.depth);
    match f.kind {
        SourceKind::Planar => if is_gbr(f.layout) {
            gbr_slot(p) * (w * h) * sb
        } else {
            prefix_count(f, w, h, p) * sb
        },
        SourceKind::SemiPlanar { uv_first } => if p == 0 {
            0
        } else {
            w * h * sb + if layout_planes(f.layout)[p].component == uv_first {
                0
            } else {
                sb
            }
        },
        SourceKind::Packed { stride, first } => (first as nat) + (p as nat) * sb,
        SourceKind::Yuyv => if p == 0 {
            0
        } else if p == 1 {
            1
        } else {
            3
        },
        SourceKind::Uyvy => if p == 0 {
            1
        } else if p == 1 {
            0
        } else {
            2
        },
    }
}

/// Payload distance between consecutive samples of canonical plane `p`.
pub open spec fn src_step(f: SourceFormat, p: int) -> nat {
    let sb = sample_bytes(f.depth);
    match f.kind {
        SourceKind::Planar => sb,
        SourceKind::SemiPlanar { .. } => if p == 0 {
            sb
        } else {
            2 * sb
        },
        SourceKind::Packed { stride, .. } => (stride as nat) * sb,
        SourceKind::Yuyv | SourceKind::Uyvy => if p == 0 {
            2
        } else {
            4
        },
    }
}

/// Payload position of sample `k` of canonical plane `p`.
pub open spec fn src_pos(f: SourceFormat, w: nat, h: nat, p: int, k: nat) -> nat {
    src_base(f, w, h, p) + k * src_step(f, p)
}

/// Payload bytes of one decoded frame.
pub open spec fn expected_total(f: SourceFormat, w: nat, h: nat) -> nat {
    let sb = sample_bytes(f.depth);
    match f.kind {
        SourceKind::Planar => prefix_count(f, w, h, nplanes(f) as int) * sb,
        SourceKind::SemiPlanar { .. } => w * h * sb + pcount(f, w, h, 1) * 2 * sb,
        SourceKind::Packed { stride, .. } => w * h * (stride as nat) * sb,
        SourceKind::Yuyv | SourceKind::Uyvy => w * h * 2,
    }
}

/// A payload byte that carries no canonical sample (the zero byte of the
/// 4-byte packed RGB families).
pub open spec fn is_pad(f: SourceFormat, i: nat) -> bool {
    match f.kind {
        SourceKind::Packed { stride, first } => {
            let lane = i % ((stride as nat) * sample_bytes(f.depth));
            !(first <= lane < first + nplanes(f) * sample_bytes(f.depth))
        },
        _ => false,
    }
}

/// The sample stored at payload position `pos` (`sb` bytes, little-endian).
pub open spec fn word_at(b: Seq<u8>, pos: nat, sb: nat) -> u32 {
    if sb == 1 {
        b[pos as int] as u32
    } else {
        (b[pos as int] + 256 * b[pos as int + 1]) as u32
    }
}

/// Whether a correctly sized payload unpacks: nonzero geometry inside
/// `u32`, an even width for the packed 4:2:2 formats, and every sample
/// inside the active depth.
pub open spec fn unpack_ok(f: SourceFormat, w: u64, h: u64, payload: Seq<u8>) -> bool {
    &&& w > 0 && h > 0
    &&& w <= u32::MAX && h <= u32::MAX
    &&& (f.kind is Yuyv || f.kind is Uyvy) ==> w % 2 == 0
    &&& forall|p: int, k: nat|
        0 <= p < nplanes(f) && k < pcount(f, w as nat, h as nat, p) ==> #[trigger] word_at(
            payload,
            src_pos(f, w as nat, h as nat, p, k),
            sample_bytes(f.depth),
        ) <= max_sample_of(f.depth)
}

/// The error an unpack of a supported format reports.
pub open spec fn unpack_error(f: SourceFormat, w: u64, h: u64, payload: Seq<u8>) -> VoleError {
    if expected_total(f, w as nat, h as nat) > u64::MAX {
        VoleError::ArithmeticOverflow
    } else if payload.len() != expected_total(f, w as nat, h as nat) {
        VoleError::InvalidSamples
    } else if (f.kind is Yuyv || f.kind is Uyvy) && w % 2 != 0 {
        VoleError::UnsupportedPixelLayout
    } else if w == 0 || h == 0 || w > u32::MAX || h > u32::MAX {
        VoleError::GeometryMismatch
    } else {
        VoleError::InvalidSamples
    }
}

/// Whether plane `q` is canonical plane `p` of format `f` at `w × h`, with
/// the samples read from `payload`.
pub open spec fn unpacked_plane(f: SourceFormat, w: u64, h: u64, p: int, q: Plane, payload: Seq<u8>) -> bool {
    let t = layout_planes(f.layout)[p];
    &&& q.comp() == t.component
    &&& q.w() == pdims(f, w as nat, h as nat, p).0
    &&& q.h() == pdims(f, w as nat, h as nat, p).1
    &&& q.depth().b() == f.depth
    &&& q.sx() == t.subsample_x
    &&& q.sy() == t.subsample_y
    &&& q.samples().len() == pcount(f, w as nat, h as nat, p)
    &&& forall|k: nat|
        k < pcount(f, w as nat, h as nat, p) ==> #[trigger] q.samples()[k as int] == word_at(
            payload,
            src_pos(f, w as nat, h as nat, p, k),
            sample_bytes(f.depth),
        )
}

/// Index of the first plane at or after `i` carrying component `c`.
pub open spec fn find_from(planes: Seq<Plane>, c: Component, i: int) -> Option<int>
    decreases planes.len() - i,
{
    if i < 0 || i >= planes.len() {
        None
    } else if planes[i].comp() == c {
        Some(i)
    } else {
        find_from(planes, c, i + 1)
    }
}

/// Index of the first plane carrying component `c`.
pub open spec fn find_comp(planes: Seq<Plane>, c: Component) -> Option<int> {
    find_from(planes, c, 0)
}

/// Whether every canonical component of `f` has a plane in `planes`.
pub open spec fn has_components(f: SourceFormat, planes: Seq<Plane>) -> bool {
    forall|p: int| 0 <= p < nplanes(f) ==> #[trigger] find_comp(planes, layout_planes(f.layout)[p].component) is Some
}

/// The plane repacking reads for canonical plane `p`.
pub open spec fn plane_for(f: SourceFormat, planes: Seq<Plane>, p: int) -> Plane {
    planes[find_comp(planes, layout_planes(f.layout)[p].component)->0]
}

/// Whether the planes found for `f` hold enough canonical bytes for
/// repacking (exactly the plane's share for a tight copy).
pub open spec fn repack_ready(f: SourceFormat, w: u64, h: u64, planes: Seq<Plane>) -> bool {
    forall|p: int|
        0 <= p < nplanes(f) && #[trigger] find_comp(planes, layout_planes(f.layout)[p].component) is Some ==> {
            let need = pcount(f, w as nat, h as nat, p) * sample_bytes(f.depth);
            let have = plane_for(f, planes, p).bytes().len();
            if f.kind is Planar || (f.kind is SemiPlanar && p == 0) {
                have == need
            } else {
                have >= need
            }
        }
}

/// Whether a format description is internally consistent (every table
/// entry is).
pub open spec fn format_sane(f: SourceFormat) -> bool {
    &&& 8 <= f.depth <= 16
    &&& match f.kind {
        SourceKind::Planar => true,
        SourceKind::SemiPlanar { uv_first } => f.layout == PixelLayout::Yuv420 && (uv_first
            == Component::Cb || uv_first == Component::Cr),
        SourceKind::Packed { stride, first } => f.depth == 8 && 1 <= stride <= 4 && first + nplanes(f)
            <= stride && (f.layout == PixelLayout::Rgb || f.layout == PixelLayout::Bgr || f.layout
            == PixelLayout::Rgba || f.layout == PixelLayout::Bgra || f.layout == PixelLayout::Argb
            || f.layout == PixelLayout::Abgr),
        SourceKind::Yuyv | SourceKind::Uyvy => f.layout == PixelLayout::Yuv422 && f.depth == 8,
    }
}

/// Every supported format is consistent.
pub proof fn lemma_table_sane(name: Seq<char>)
    ensures
        source_format(name) matches Some(f) ==> format_sane(f),
{
}

/// Whether two strings are equal.
fn same_name(a: &str, b: &str) -> (r: bool)
    ensures
        r == (a@ == b@),
{
    a.to_owned() == b.to_owned()
}

/// The description of a supported format.
#[verifier::rlimit(60)]
fn desc(name: &str) -> (r: Result<SourceFormat, VoleError>)
    ensures
        r == match source_format(name@) {
            Some(f) => Ok::<SourceFormat, VoleError>(f),
            None => Err::<SourceFormat, VoleError>(VoleError::UnsupportedPixelLayout),
        },
{
    if same_name(name, "gray") {
        return Ok(SourceFormat { layout: PixelLayout::Gray, depth: 8, kind: SourceKind::Planar });
    }
    if same_name(name, "gray16le") {
        return Ok(SourceFormat { layout: PixelLayout::Gray, depth: 16, kind: SourceKind::Planar });
    }
    if same_name(name, "yuv420p") {
        return Ok(SourceFormat { layout: PixelLayout::Yuv420, depth: 8, kind: SourceKind::Planar });
    }
    if same_name(name, "yuv420p10le") {
        return Ok(SourceFormat { layout: PixelLayout::Yuv420, depth: 10, kind: SourceKind::Planar });
    }
    if same_name(name, "yuv420p12le") {
        return Ok(SourceFormat { layout: PixelLayout::Yuv420, depth: 12, kind: SourceKind::Planar });
    }
    if same_name(name, "yuv420p14le") {
        return Ok(SourceFormat { layout: PixelLayout::Yuv420, depth: 14, kind: SourceKind::Planar });
    }
    if same_name(name, "yuv420p16le") {
        return Ok(SourceFormat { layout: PixelLayout::Yuv420, depth: 16, kind: SourceKind::Planar });
    }
    if same_name(name, "yuv422p") {
        return Ok(SourceFormat { layout: PixelLayout::Yuv422, depth: 8, kind: SourceKind::Planar });
    }
    if same_name(name, "yuv422p10le") {
        return Ok(SourceFormat { layout: PixelLayout::Yuv422, depth: 10, kind: SourceKind::Planar });
    }
    if same_name(name, "yuv422p12le") {
        return Ok(SourceFormat { layout: PixelLayout::Yuv422, depth: 12, kind: SourceKind::Planar });
    }
    if same_name(name, "yuv422p16le") {
        return Ok(SourceFormat { layout: PixelLayout::Yuv422, depth: 16, kind: SourceKind::Planar });
    }
    if same_name(name, "yuv444p") {
        return Ok(SourceFormat { layout: PixelLayout::Yuv444, depth: 8, kind: SourceKind::Planar });
    }
    if same_name(name, "yuv444p10le") {
        return Ok(SourceFormat { layout: PixelLayout::Yuv444, depth: 10, kind: SourceKind::Planar });
    }
    if same_name(name, "yuv444p12le") {
        return Ok(SourceFormat { layout: PixelLayout::Yuv444, depth: 12, kind: SourceKind::Planar });
    }
    if same_name(name, "yuv444p16le") {
        return Ok(SourceFormat { layout: PixelLayout::Yuv444, depth: 16, kind: SourceKind::Planar });
    }
    if same_name(name, "yuva420p") {
        return Ok(SourceFormat { layout: PixelLayout::Yuva420, depth: 8, kind: SourceKind::Planar });
    }
    if same_name(name, "yuva444p") {
        return Ok(SourceFormat { layout: PixelLayout::Yuva444, depth: 8, kind: SourceKind::Planar });
    }
    if same_name(name, "yuva444p10le") {
        return Ok(SourceFormat { layout: PixelLayout::Yuva444, depth: 10, kind: SourceKind::Planar });
    }
    if same_name(name, "yuva444p12le") {
        return Ok(SourceFormat { layout: PixelLayout::Yuva444, depth: 12, kind: SourceKind::Planar });
    }
    if same_name(name, "yuva444p16le") {
        return Ok(SourceFormat { layout: PixelLayout::Yuva444, depth: 16, kind: SourceKind::Planar });
    }
    if same_name(name, "gbrp") {
        return Ok(SourceFormat { layout: PixelLayout::Gbr, depth: 8, kind: SourceKind::Planar });
    }
    if same_name(name, "gbrp10le") {
        return Ok(SourceFormat { layout: PixelLayout::Gbr, depth: 10, kind: SourceKind::Planar });
    }
    if same_name(name, "gbrp12le") {
        return Ok(SourceFormat { layout: PixelLayout::Gbr, depth: 12, kind: SourceKind::Planar });
    }
    if same_name(name, "gbrp16le") {
        return Ok(SourceFormat { layout: PixelLayout::Gbr, depth: 16, kind: SourceKind::Planar });
    }
    if same_name(name, "gbrap") {
        return Ok(SourceFormat { layout: PixelLayout::Gbra, depth: 8, kind: SourceKind::Planar });
    }
    if same_name(name, "gbrap10le") {
        return Ok(SourceFormat { layout: PixelLayout::Gbra, depth: 10, kind: SourceKind::Planar });
    }
    if same_name(name, "nv12") {
        return Ok(SourceFormat { layout: PixelLayout::Yuv420, depth: 8, kind: SourceKind::SemiPlanar { uv_first: Component::Cb } });
    }
    if same_name(name, "nv21") {
        return Ok(SourceFormat { layout: PixelLayout::Yuv420, depth: 8, kind: SourceKind::SemiPlanar { uv_first: Component::Cr } });
    }
    if same_name(name, "p010le") {
        return Ok(SourceFormat { layout: PixelLayout::Yuv420, depth: 10, kind: SourceKind::SemiPlanar { uv_first: Component::Cb } });
    }
    if same_name(name, "p016le") {
        return Ok(SourceFormat { layout: PixelLayout::Yuv420, depth: 16, kind: SourceKind::SemiPlanar { uv_first: Component::Cb } });
    }
    if same_name(name, "rgb24") {
        return Ok(SourceFormat { layout: PixelLayout::Rgb, depth: 8, kind: SourceKind::Packed { stride: 3, first: 0 } });
    }
    if same_name(name, "bgr24") {
        return Ok(SourceFormat { layout: PixelLayout::Bgr, depth: 8, kind: SourceKind::Packed { stride: 3, first: 0 } });
    }
    if same_name(name, "rgb0") {
        return Ok(SourceFormat { layout: PixelLayout::Rgb, depth: 8, kind: SourceKind::Packed { stride: 4, first: 0 } });
    }
    if same_name(name, "bgr0") {
        return Ok(SourceFormat { layout: PixelLayout::Bgr, depth: 8, kind: SourceKind::Packed { stride: 4, first: 0 } });
    }
    if same_name(name, "0rgb") {
        return Ok(SourceFormat { layout: PixelLayout::Rgb, depth: 8, kind: SourceKind::Packed { stride: 4, first: 1 } });
    }
    if same_name(name, "0bgr") {
        return Ok(SourceFormat { layout: PixelLayout::Bgr, depth: 8, kind: SourceKind::Packed { stride: 4, first: 1 } });
    }
    if same_name(name, "rgba") {
        return Ok(SourceFormat { layout: PixelLayout::Rgba, depth: 8, kind: SourceKind::Packed { stride: 4, first: 0 } });
    }
    if same_name(name, "bgra") {
        return Ok(SourceFormat { layout: PixelLayout::Bgra, depth: 8, kind: SourceKind::Packed { stride: 4, first: 0 } });
    }
    if same_name(name, "argb") {
        return Ok(SourceFormat { layout: PixelLayout::Argb, depth: 8, kind: SourceKind::Packed { stride: 4, first: 0 } });
    }
    if same_name(name, "abgr") {
        return Ok(SourceFormat { layout: PixelLayout::Abgr, depth: 8, kind: SourceKind::Packed { stride: 4, first: 0 } });
    }
    if same_name(name, "yuyv422") {
        return Ok(SourceFormat { layout: PixelLayout::Yuv422, depth: 8, kind: SourceKind::Yuyv });
    }
    if same_name(name, "uyvy422") {
        return Ok(SourceFormat { layout: PixelLayout::Yuv422, depth: 8, kind: SourceKind::Uyvy });
    }
    Err(VoleError::UnsupportedPixelLayout)
}

/// The names of the supported source pixel formats (unknown formats fail
/// closed, never silently converted).
pub fn supported() -> (r: Vec<&'static str>)
    ensures
        r@.len() == 42,
{
    vec![
        "gray",
        "gray16le",
        "yuv420p",
        "yuv420p10le",
        "yuv420p12le",
        "yuv420p14le",
        "yuv420p16le",
        "yuv422p",
        "yuv422p10le",
        "yuv422p12le",
        "yuv422p16le",
        "yuv444p",
        "yuv444p10le",
        "yuv444p12le",
        "yuv444p16le",
        "yuva420p",
        "yuva444p",
        "yuva444p10le",
        "yuva444p12le",
        "yuva444p16le",
        "gbrp",
        "gbrp10le",
        "gbrp12le",
        "gbrp16le",
        "gbrap",
        "gbrap10le",
        "nv12",
        "nv21",
        "p010le",
        "p016le",
        "rgb24",
        "bgr24",
        "rgb0",
        "bgr0",
        "0rgb",
        "0bgr",
        "rgba",
        "bgra",
        "argb",
        "abgr",
        "yuyv422",
        "uyvy422",
    ]
}

/// The canonical layout and bit depth a source pixel format unpacks to.
pub fn layout_and_depth(name: &str) -> (r: Result<(PixelLayout, u8), VoleError>)
    ensures
        r == match source_format(name@) {
            Some(f) => Ok::<(PixelLayout, u8), VoleError>((f.layout, f.depth)),
            None => Err::<(PixelLayout, u8), VoleError>(VoleError::UnsupportedPixelLayout),
        },
{
    let d = desc(name)?;
    Ok((d.layout, d.depth))
}

/// The carrier class of a supported source pixel format: planar formats
/// carry the canonical bytes, every other kind is repacked.
pub fn layout_kind(name: &str) -> (r: Result<CarrierKind, VoleError>)
    ensures
        r == match source_format(name@) {
            Some(f) => Ok::<CarrierKind, VoleError>(
                if f.kind is Planar {
                    CarrierKind::Canonical
                } else {
                    CarrierKind::SourceRepacked
                },
            ),
            None => Err::<CarrierKind, VoleError>(VoleError::UnsupportedPixelLayout),
        },
{
    let d = desc(name)?;
    match d.kind {
        SourceKind::Planar => Ok(CarrierKind::Canonical),
        _ => Ok(CarrierKind::SourceRepacked),
    }
}

/// `ceil(n / 2^s)` for `s ≤ 3` (no intermediate overflow).
fn ceil_shift(n: u64, s: u8) -> (r: u64)
    requires
        s <= 3,
    ensures
        r == cdiv(n as nat, s),
{
    let k: u64 = if s == 0 {
        1
    } else if s == 1 {
        2
    } else if s == 2 {
        4
    } else {
        8
    };
    let q = n / k;
    let rem = n % k;
    proof {
        lemma_fundamental_div_mod(n as int, k as int);
        if rem == 0 {
            lemma_div_plus_small(n as int, k as int, k - 1);
        } else {
            lemma_div_plus_small_carry(n as int, k as int, rem as int);
        }
    }
    if rem == 0 {
        q
    } else {
        q + 1
    }
}

/// `(a + k − 1) / k` for a multiple `a` of `k` (`a = q·k`) is `q`.
proof fn lemma_div_plus_small(a: int, k: int, r: int)
    requires
        k > 0,
        0 <= r < k,
        a >= 0,
        a % k == 0,
    ensures
        (a + r) / k == a / k,
{
    lemma_fundamental_div_mod(a, k);
    lemma_mul_is_commutative(k, a / k);
    lemma_fundamental_div_mod_converse(a + r, k, a / k, r);
}

/// `(a + k − 1) / k == a / k + 1` when `a % k = rem > 0`.
proof fn lemma_div_plus_small_carry(a: int, k: int, rem: int)
    requires
        k > 0,
        a >= 0,
        rem == a % k,
        rem > 0,
    ensures
        (a + k - 1) / k == a / k + 1,
{
    lemma_fundamental_div_mod(a, k);
    let q = a / k;
    assert(a + k - 1 == (q + 1) * k + (rem - 1)) by (nonlinear_arith)
        requires
            a == k * q + rem,
    ;
    lemma_fundamental_div_mod_converse(a + k - 1, k, q + 1, rem - 1);
}

/// The canonical sample dimensions of template position `p` of a layout at
/// coded `(w, h)`; `GeometryMismatch` past the last plane.
pub fn plane_dims(layout: PixelLayout, w: u64, h: u64, p: usize) -> (r: Result<(u64, u64), VoleError>)
    ensures
        p < layout_planes(layout).len() ==> r == Ok::<(u64, u64), VoleError>(
            (
                cdiv(w as nat, layout_planes(layout)[p as int].subsample_x) as u64,
                cdiv(h as nat, layout_planes(layout)[p as int].subsample_y) as u64,
            ),
        ),
        p >= layout_planes(layout).len() ==> r == Err::<(u64, u64), VoleError>(
            VoleError::GeometryMismatch,
        ),
{
    let planes = layout.planes();
    if p >= planes.len() {
        return Err(VoleError::GeometryMismatch);
    }
    let t = planes[p];
    proof {
        crate::media::layout::lemma_layout_subsampling_small(layout, p as int);
    }
    Ok((ceil_shift(w, t.subsample_x), ceil_shift(h, t.subsample_y)))
}

/// `a ≤ a·b` for `b ≥ 1`.
proof fn lemma_mul_ge(a: int, b: int)
    requires
        a >= 0,
        b >= 1,
    ensures
        a * b >= a,
{
    lemma_mul_inequality(1, b, a);
    lemma_mul_is_commutative(a, b);
}

/// Prefix sample counts grow with the number of planes summed.
proof fn lemma_prefix_monotone(f: SourceFormat, w: nat, h: nat, i: int, j: int)
    requires
        0 <= i <= j,
    ensures
        prefix_count(f, w, h, i) <= prefix_count(f, w, h, j),
    decreases j - i,
{
    if i < j {
        lemma_prefix_monotone(f, w, h, i, j - 1);
    }
}

/// Payload bytes of one frame, checked.
fn total_of(f: SourceFormat, w: u64, h: u64) -> (r: Result<u64, VoleError>)
    requires
        format_sane(f),
    ensures
        r == if expected_total(f, w as nat, h as nat) <= u64::MAX {
            Ok::<u64, VoleError>(expected_total(f, w as nat, h as nat) as u64)
        } else {
            Err::<u64, VoleError>(VoleError::ArithmeticOverflow)
        },
{
    let sb: u64 = if f.depth <= 8 {
        1
    } else {
        2
    };
    let ghost total = expected_total(f, w as nat, h as nat);
    match f.kind {
        SourceKind::Planar => {
            let n = f.layout.plane_count();
            let mut acc: u64 = 0;
            let mut p = 0usize;
            while p < n
                invariant
                    p <= n,
                    n == nplanes(f),
                    f.kind is Planar,
                    sb == sample_bytes(f.depth),
                    total == expected_total(f, w as nat, h as nat),
                    acc == prefix_count(f, w as nat, h as nat, p as int) * sb,
                decreases n - p,
            {
                let (pw, ph) = match plane_dims(f.layout, w, h, p) {
                    Ok(d) => d,
                    Err(e) => {
                        return Err(e);
                    },
                };
                proof {
                    lemma_prefix_monotone(f, w as nat, h as nat, (p + 1) as int, n as int);
                    lemma_mul_inequality(prefix_count(f, w as nat, h as nat, (p + 1) as int) as int, prefix_count(f, w as nat, h as nat, n as int) as int, sb as int);
                    lemma_mul_ge(pcount(f, w as nat, h as nat, p as int) as int, sb as int);
                    lemma_mul_is_distributive_add_other_way(sb as int, prefix_count(f, w as nat, h as nat, p as int) as int, pcount(f, w as nat, h as nat, p as int) as int);
                }
                let c = match pw.checked_mul(ph) {
                    Some(c) => c,
                    None => {
                        return Err(VoleError::ArithmeticOverflow);
                    },
                };
                let cb = match c.checked_mul(sb) {
                    Some(v) => v,
                    None => {
                        return Err(VoleError::ArithmeticOverflow);
                    },
                };
                acc = match acc.checked_add(cb) {
                    Some(v) => v,
                    None => {
                        return Err(VoleError::ArithmeticOverflow);
                    },
                };
                p = p + 1;
            }
            Ok(acc)
        },
        SourceKind::SemiPlanar { .. } => {
            let (cw, ch) = match plane_dims(f.layout, w, h, 1) {
                Ok(d) => d,
                Err(e) => {
                    return Err(e);
                },
            };
            proof {
                lemma_mul_ge((w * h) as int, sb as int);
                lemma_mul_ge((cw * ch) as int, 2 * sb);
                lemma_mul_is_associative((cw * ch) as int, 2, sb as int);
                lemma_mul_nonnegative(w as int, h as int);
                lemma_mul_nonnegative((w * h) as int, sb as int);
                lemma_mul_nonnegative(cw as int, ch as int);
            }
            let y = match w.checked_mul(h) {
                Some(v) => v,
                None => {
                    return Err(VoleError::ArithmeticOverflow);
                },
            };
            let yb = match y.checked_mul(sb) {
                Some(v) => v,
                None => {
                    return Err(VoleError::ArithmeticOverflow);
                },
            };
            let c = match cw.checked_mul(ch) {
                Some(v) => v,
                None => {
                    return Err(VoleError::ArithmeticOverflow);
                },
            };
            let c2 = match c.checked_mul(2 * sb) {
                Some(v) => v,
                None => {
                    return Err(VoleError::ArithmeticOverflow);
                },
            };
            match yb.checked_add(c2) {
                Some(v) => Ok(v),
                None => Err(VoleError::ArithmeticOverflow),
            }
        },
        SourceKind::Packed { stride, .. } => {
            proof {
                lemma_mul_nonnegative(w as int, h as int);
                lemma_mul_ge((w * h) as int, stride as int);
                lemma_mul_nonnegative((w * h) as int, stride as int);
                lemma_mul_ge((w * h * stride) as int, sb as int);
            }
            let y = match w.checked_mul(h) {
                Some(v) => v,
                None => {
                    return Err(VoleError::ArithmeticOverflow);
                },
            };
            let ys = match y.checked_mul(stride as u64) {
                Some(v) => v,
                None => {
                    return Err(VoleError::ArithmeticOverflow);
                },
            };
            match ys.checked_mul(sb) {
                Some(v) => Ok(v),
                None => Err(VoleError::ArithmeticOverflow),
            }
        },
        _ => {
            proof {
                lemma_mul_nonnegative(w as int, h as int);
                lemma_mul_ge((w * h) as int, 2);
            }
            let y = match w.checked_mul(h) {
                Some(v) => v,
                None => {
                    return Err(VoleError::ArithmeticOverflow);
                },
            };
            match y.checked_mul(2) {
                Some(v) => Ok(v),
                None => Err(VoleError::ArithmeticOverflow),
            }
        },
    }
}

/// Expected canonical payload bytes of one decoded frame at this format
/// (checked: a size beyond `u64` is `ArithmeticOverflow`).
pub fn expected_canonical_bytes(name: &str, w: u64, h: u64) -> (r: Result<u64, VoleError>)
    ensures
        r == match source_format(name@) {
            None => Err::<u64, VoleError>(VoleError::UnsupportedPixelLayout),
            Some(f) => if expected_total(f, w as nat, h as nat) <= u64::MAX {
                Ok::<u64, VoleError>(expected_total(f, w as nat, h as nat) as u64)
            } else {
                Err::<u64, VoleError>(VoleError::ArithmeticOverflow)
            },
        },
{
    let d = desc(name)?;
    proof {
        lemma_table_sane(name@);
    }
    total_of(d, w, h)
}

/// The unsubsampled axis keeps its length; a halved axis of even length is
/// exactly halved.
proof fn lemma_cdiv_small(n: nat)
    ensures
        cdiv(n, 0) == n,
        cdiv(n, 1) == (n + 1) / 2,
        n % 2 == 0 ==> cdiv(n, 1) == n / 2,
{
    assert(shift_of(0) == 1);
    assert(shift_of(1) == 2);
    assert(((n + 1 - 1) as nat) / 1 == n);
    if n % 2 == 0 {
        lemma_fundamental_div_mod(n as int, 2);
        lemma_div_plus_small(n as int, 2, 1);
    }
}

/// In-range positions for planar formats.
proof fn lemma_pos_in_range_planar(f: SourceFormat, w: nat, h: nat, p: int, k: nat)
    requires
        format_sane(f),
        f.kind is Planar,
        0 <= p < nplanes(f),
        k < pcount(f, w, h, p),
    ensures
        src_pos(f, w, h, p, k) + sample_bytes(f.depth) <= expected_total(f, w, h),
{
    let sb = sample_bytes(f.depth);
    let n = nplanes(f) as int;
    lemma_cdiv_small(w);
    lemma_cdiv_small(h);
    assert(expected_total(f, w, h) == prefix_count(f, w, h, n) * sb);
    let sp = src_pos(f, w, h, p, k);
    if is_gbr(f.layout) {
        reveal_with_fuel(prefix_count, 5);
        let wh = w * h;
        assert(pcount(f, w, h, p) == wh);
        assert(pcount(f, w, h, 0) == wh && pcount(f, w, h, 1) == wh && pcount(f, w, h, 2) == wh);
        assert(n == 4 ==> pcount(f, w, h, 3) == wh);
        assert(prefix_count(f, w, h, n) == n * wh) by (nonlinear_arith)
            requires
                n == 3 ==> prefix_count(f, w, h, n) == wh + wh + wh,
                n == 4 ==> prefix_count(f, w, h, n) == wh + wh + wh + wh,
                n == 3 || n == 4,
        ;
        let slot = gbr_slot(p) as int;
        assert(slot < n);
        assert(sp + sb <= n * wh * sb) by (nonlinear_arith)
            requires
                0 <= slot < n,
                k + 1 <= wh,
                sb >= 1,
                sp == slot * wh * sb + k * sb,
        ;
    } else {
        lemma_prefix_monotone(f, w, h, p + 1, n);
        assert(prefix_count(f, w, h, p + 1) == prefix_count(f, w, h, p) + pcount(f, w, h, p));
        let pre = prefix_count(f, w, h, p);
        let pn = prefix_count(f, w, h, n);
        assert(sp + sb <= pn * sb) by (nonlinear_arith)
            requires
                pre + k + 1 <= pn,
                sb >= 1,
                sp == pre * sb + k * sb,
        ;
    }
}

/// In-range positions for semi-planar formats.
proof fn lemma_pos_in_range_semi(f: SourceFormat, w: nat, h: nat, p: int, k: nat)
    requires
        format_sane(f),
        f.kind is SemiPlanar,
        0 <= p < nplanes(f),
        k < pcount(f, w, h, p),
    ensures
        src_pos(f, w, h, p, k) + sample_bytes(f.depth) <= expected_total(f, w, h),
{
    let sb = sample_bytes(f.depth);
    lemma_cdiv_small(w);
    lemma_cdiv_small(h);
    let sp = src_pos(f, w, h, p, k);
    let c1 = pcount(f, w, h, 1);
    let wh = w * h;
    if p == 0 {
        assert(pcount(f, w, h, 0) == wh);
        assert(sp == k * sb);
        assert(sp + sb <= wh * sb + c1 * 2 * sb) by (nonlinear_arith)
            requires
                k + 1 <= wh,
                sb >= 1,
                sp == k * sb,
                c1 >= 0,
        ;
    } else {
        assert(pcount(f, w, h, p) == c1);
        let uv_first = f.kind->uv_first;
        let lane: nat = if layout_planes(f.layout)[p].component == uv_first {
            0
        } else {
            sb
        };
        assert(sp == wh * sb + lane + k * (2 * sb));
        assert(sp + sb <= wh * sb + c1 * 2 * sb) by (nonlinear_arith)
            requires
                k + 1 <= c1,
                lane <= sb,
                sb >= 1,
                sp == wh * sb + lane + k * (2 * sb),
        ;
    }
}

/// In-range positions for packed formats.
proof fn lemma_pos_in_range_packed(f: SourceFormat, w: nat, h: nat, p: int, k: nat)
    requires
        format_sane(f),
        f.kind is Packed,
        0 <= p < nplanes(f),
        k < pcount(f, w, h, p),
    ensures
        src_pos(f, w, h, p, k) + sample_bytes(f.depth) <= expected_total(f, w, h),
{
    lemma_cdiv_small(w);
    lemma_cdiv_small(h);
    let n = nplanes(f) as int;
    let stride = f.kind->stride as nat;
    let first = f.kind->first as nat;
    assert(sample_bytes(f.depth) == 1);
    assert(pcount(f, w, h, p) == w * h);
    let sp = src_pos(f, w, h, p, k);
    assert(sp == first + p + k * stride);
    assert(sp + 1 <= w * h * stride) by (nonlinear_arith)
        requires
            first + n <= stride,
            p + 1 <= n,
            k + 1 <= w * h,
            sp == first + p + k * stride,
    ;
    assert(expected_total(f, w, h) == w * h * stride * 1);
}

/// In-range positions for packed 4:2:2 formats.
proof fn lemma_pos_in_range_yuyv(f: SourceFormat, w: nat, h: nat, p: int, k: nat)
    requires
        format_sane(f),
        f.kind is Yuyv || f.kind is Uyvy,
        0 <= p < nplanes(f),
        k < pcount(f, w, h, p),
        w % 2 == 0,
    ensures
        src_pos(f, w, h, p, k) + sample_bytes(f.depth) <= expected_total(f, w, h),
{
    lemma_cdiv_small(w);
    lemma_cdiv_small(h);
    assert(sample_bytes(f.depth) == 1);
    let sp = src_pos(f, w, h, p, k);
    if p == 0 {
        assert(pcount(f, w, h, 0) == w * h);
        assert(sp <= 1 + k * 2);
        assert(sp + 1 <= w * h * 2) by (nonlinear_arith)
            requires
                k + 1 <= w * h,
                sp <= 1 + k * 2,
        ;
    } else {
        assert(pcount(f, w, h, p) == (w / 2) * h);
        assert(sp <= 3 + k * 4);
        assert(sp + 1 <= w * h * 2) by (nonlinear_arith)
            requires
                k + 1 <= (w / 2) * h,
                w == 2 * (w / 2),
                sp <= 3 + k * 4,
        ;
    }
}

/// Every payload position of a canonical sample, with all its bytes, lies
/// inside the frame payload.
pub proof fn lemma_pos_in_range(f: SourceFormat, w: nat, h: nat, p: int, k: nat)
    requires
        format_sane(f),
        0 <= p < nplanes(f),
        k < pcount(f, w, h, p),
        (f.kind is Yuyv || f.kind is Uyvy) ==> w % 2 == 0,
    ensures
        src_pos(f, w, h, p, k) + sample_bytes(f.depth) <= expected_total(f, w, h),
{
    match f.kind {
        SourceKind::Planar => lemma_pos_in_range_planar(f, w, h, p, k),
        SourceKind::SemiPlanar { .. } => lemma_pos_in_range_semi(f, w, h, p, k),
        SourceKind::Packed { .. } => lemma_pos_in_range_packed(f, w, h, p, k),
        _ => lemma_pos_in_range_yuyv(f, w, h, p, k),
    }
}

/// Whether a format and frame geometry admit sample addressing: a
/// consistent format, a nonzero geometry, an even width for
/// packed 4:2:2, and a frame size inside `u64`.
pub open spec fn frame_geometry_ok(f: SourceFormat, w: u64, h: u64) -> bool {
    &&& format_sane(f)
    &&& 1 <= w
    &&& 1 <= h
    &&& (f.kind is Yuyv || f.kind is Uyvy) ==> w % 2 == 0
    &&& expected_total(f, w as nat, h as nat) <= u64::MAX
}

/// Every plane of a nonzero geometry has at least one sample, and no more
/// than the frame payload holds.
proof fn lemma_pcount_bounds(f: SourceFormat, w: u64, h: u64, p: int)
    requires
        frame_geometry_ok(f, w, h),
        0 <= p < nplanes(f),
    ensures
        1 <= pdims(f, w as nat, h as nat, p).0 <= w,
        1 <= pdims(f, w as nat, h as nat, p).1 <= h,
        1 <= pcount(f, w as nat, h as nat, p) <= expected_total(f, w as nat, h as nat),
        src_base(f, w as nat, h as nat, p) < expected_total(f, w as nat, h as nat),
        src_step(f, p) <= 4,
{
    lemma_cdiv_small(w as nat);
    lemma_cdiv_small(h as nat);
    crate::media::layout::lemma_layout_subsampling_small(f.layout, p);
    let d = pdims(f, w as nat, h as nat, p);
    assert(1 <= d.0 <= w);
    assert(1 <= d.1 <= h);
    let c = pcount(f, w as nat, h as nat, p);
    lemma_mul_ge(d.0 as int, d.1 as int);
    lemma_pos_in_range(f, w as nat, h as nat, p, (c - 1) as nat);
    lemma_pos_in_range(f, w as nat, h as nat, p, 0);
    lemma_mul_ge((c - 1) as int, src_step(f, p) as int);
}

/// Payload position of sample 0 of canonical plane `p`, and the distance
/// between its samples.
fn base_step(f: SourceFormat, w: u64, h: u64, p: usize) -> (r: (u64, u64))
    requires
        frame_geometry_ok(f, w, h),
        p < nplanes(f),
    ensures
        r.0 == src_base(f, w as nat, h as nat, p as int),
        r.1 == src_step(f, p as int),
{
    proof {
        lemma_pcount_bounds(f, w, h, p as int);
    }
    let sb: u64 = if f.depth <= 8 {
        1
    } else {
        2
    };
    let step: u64 = match f.kind {
        SourceKind::Planar => sb,
        SourceKind::SemiPlanar { .. } => if p == 0 {
            sb
        } else {
            2 * sb
        },
        SourceKind::Packed { stride, .. } => (stride as u64) * sb,
        _ => if p == 0 {
            2
        } else {
            4
        },
    };
    let base: u64 = match f.kind {
        SourceKind::Planar => {
            if f.layout == PixelLayout::Gbr || f.layout == PixelLayout::Gbra {
                let slot: u64 = if p == 0 {
                    2
                } else if p == 1 {
                    0
                } else if p == 2 {
                    1
                } else {
                    3
                };
                proof {
                    lemma_cdiv_small(w as nat);
                    lemma_cdiv_small(h as nat);
                    assert(pcount(f, w as nat, h as nat, p as int) == w * h);
                    lemma_mul_nonnegative(w as int, h as int);
                    lemma_mul_nonnegative((slot * (w * h)) as int, sb as int);
                    assert(src_base(f, w as nat, h as nat, p as int) == slot * (w * h) * sb);
                    lemma_mul_ge((slot * (w * h)) as int, sb as int);
                    lemma_mul_nonnegative(slot as int, (w * h) as int);
                }
                slot * (w * h) * sb
            } else {
                let mut acc: u64 = 0;
                let mut q = 0usize;
                while q < p
                    invariant
                        q <= p,
                        p < nplanes(f),
                        frame_geometry_ok(f, w, h),
                        f.kind is Planar,
                        !is_gbr(f.layout),
                        sb == sample_bytes(f.depth),
                        acc == prefix_count(f, w as nat, h as nat, q as int) * sb,
                        src_base(f, w as nat, h as nat, p as int) == prefix_count(f, w as nat, h as nat, p as int) * sb,
                        src_base(f, w as nat, h as nat, p as int) < expected_total(f, w as nat, h as nat),
                    decreases p - q,
                {
                    let (qw, qh) = match plane_dims(f.layout, w, h, q) {
                        Ok(d) => d,
                        Err(_) => (0, 0),
                    };
                    proof {
                        lemma_prefix_monotone(f, w as nat, h as nat, (q + 1) as int, p as int);
                        lemma_mul_inequality(prefix_count(f, w as nat, h as nat, (q + 1) as int) as int, prefix_count(f, w as nat, h as nat, p as int) as int, sb as int);
                        lemma_mul_is_distributive_add_other_way(sb as int, prefix_count(f, w as nat, h as nat, q as int) as int, pcount(f, w as nat, h as nat, q as int) as int);
                        lemma_mul_ge(pcount(f, w as nat, h as nat, q as int) as int, sb as int);
                        lemma_mul_nonnegative(qw as int, qh as int);
                    }
                    acc = acc + qw * qh * sb;
                    q = q + 1;
                }
                acc
            }
        },
        SourceKind::SemiPlanar { uv_first } => {
            if p == 0 {
                0
            } else {
                let comp = f.layout.planes()[p].component;
                proof {
                    lemma_mul_nonnegative(w as int, h as int);
                    lemma_mul_nonnegative((w * h) as int, sb as int);
                }
                let lane: u64 = if comp == uv_first {
                    0
                } else {
                    sb
                };
                w * h * sb + lane
            }
        },
        SourceKind::Packed { first, .. } => (first as u64) + (p as u64) * sb,
        SourceKind::Yuyv => if p == 0 {
            0
        } else if p == 1 {
            1
        } else {
            3
        },
        SourceKind::Uyvy => if p == 0 {
            1
        } else if p == 1 {
            0
        } else {
            2
        },
    };
    (base, step)
}

/// Read canonical plane `p` out of a correctly sized frame payload; a
/// sample above the active depth is `InvalidSamples`.
fn read_plane(f: SourceFormat, w: u64, h: u64, p: usize, payload: &[u8], depth: BitDepth) -> (r: Result<Plane, VoleError>)
    requires
        frame_geometry_ok(f, w, h),
        w <= u32::MAX,
        h <= u32::MAX,
        p < nplanes(f),
        depth.b() == f.depth,
        payload@.len() == expected_total(f, w as nat, h as nat),
    ensures
        r is Ok <==> forall|k: nat|
            k < pcount(f, w as nat, h as nat, p as int) ==> #[trigger] word_at(
                payload@,
                src_pos(f, w as nat, h as nat, p as int, k),
                sample_bytes(f.depth),
            ) <= max_sample_of(f.depth),
        r matches Ok(q) ==> unpacked_plane(f, w, h, p as int, q, payload@),
        r matches Err(e) ==> e == VoleError::InvalidSamples,
{
    proof {
        lemma_pcount_bounds(f, w, h, p as int);
        crate::media::layout::lemma_layout_subsampling_small(f.layout, p as int);
    }
    let ghost gw = w as nat;
    let ghost gh = h as nat;
    let ghost sbn = sample_bytes(f.depth);
    let t = f.layout.planes()[p];
    let (pw, ph) = match plane_dims(f.layout, w, h, p) {
        Ok(d) => d,
        Err(_) => (0, 0),
    };
    let (base, step) = base_step(f, w, h, p);
    let n = pw * ph;
    let max = depth.max_sample();
    let byte = depth.is_byte_depth();
    let mut v8: Vec<u8> = Vec::new();
    let mut v16: Vec<u16> = Vec::new();
    let mut k: u64 = 0;
    while k < n
        invariant
            frame_geometry_ok(f, w, h),
            gw == w,
            gh == h,
            step <= 4,
            p < nplanes(f),
            n == pcount(f, gw, gh, p as int),
            n <= expected_total(f, gw, gh),
            payload@.len() == expected_total(f, gw, gh),
            base == src_base(f, gw, gh, p as int),
            step == src_step(f, p as int),
            max == max_sample_of(f.depth),
            byte == (f.depth <= 8),
            sbn == sample_bytes(f.depth),
            k <= n,
            byte ==> v8@.len() == k,
            !byte ==> v16@.len() == k,
            forall|j: nat| j < k ==> #[trigger] word_at(payload@, src_pos(f, gw, gh, p as int, j), sbn) <= max,
            byte ==> forall|j: int| 0 <= j < k ==> v8@[j] as u32 == word_at(payload@, src_pos(f, gw, gh, p as int, j as nat), sbn),
            !byte ==> forall|j: int| 0 <= j < k ==> v16@[j] as u32 == word_at(payload@, src_pos(f, gw, gh, p as int, j as nat), sbn),
        decreases n - k,
    {
        proof {
            lemma_pos_in_range(f, gw, gh, p as int, k as nat);
            lemma_mul_upper_bound(k as int, n as int, step as int, 4);
        }
        let pos = base + k * step;
        let ghost sp = src_pos(f, gw, gh, p as int, k as nat);
        assert(pos == sp);
        if byte {
            let v = payload[pos as usize];
            if (v as u32) > max {
                proof {
                    assert(word_at(payload@, sp, sbn) == v as u32);
                }
                return Err(VoleError::InvalidSamples);
            }
            v8.push(v);
        } else {
            let lo = payload[pos as usize] as u32;
            let hi = payload[(pos + 1) as usize] as u32;
            let v = lo + 256 * hi;
            if v > max {
                proof {
                    assert(word_at(payload@, sp, sbn) == v);
                }
                return Err(VoleError::InvalidSamples);
            }
            v16.push(v as u16);
        }
        k = k + 1;
    }
    let data = if byte {
        PlaneData::U8(v8)
    } else {
        proof {
            crate::media::plane::lemma_max_sample_small(depth);
        }
        PlaneData::U16(v16)
    };
    match Plane::new(t.component, pw as u32, ph as u32, depth, t.subsample_x, t.subsample_y, data) {
        Ok(q) => Ok(q),
        Err(e) => Err(e),
    }
}

/// Unpack one decoded frame payload into canonical planes (in the
/// canonical layout's plane order). The payload length must equal
/// [`expected_canonical_bytes`] (`InvalidSamples` otherwise); packed 4:2:2
/// needs an even width (`UnsupportedPixelLayout`); a zero geometry, or one
/// beyond `u32`, is `GeometryMismatch`; a sample above the active depth is
/// `InvalidSamples`.
pub fn unpack_frame(name: &str, w: u64, h: u64, payload: &[u8]) -> (r: Result<Vec<Plane>, VoleError>)
    ensures
        match source_format(name@) {
            None => r == Err::<Vec<Plane>, VoleError>(VoleError::UnsupportedPixelLayout),
            Some(f) => {
                &&& r is Ok <==> expected_total(f, w as nat, h as nat) <= u64::MAX && payload@.len()
                    == expected_total(f, w as nat, h as nat) && unpack_ok(f, w, h, payload@)
                &&& r matches Err(e) ==> e == unpack_error(f, w, h, payload@)
                &&& r matches Ok(ps) ==> ps@.len() == nplanes(f) && forall|p: int|
                    0 <= p < nplanes(f) ==> unpacked_plane(f, w, h, p, #[trigger] ps@[p], payload@)
            },
        },
{
    let f = desc(name)?;
    proof {
        lemma_table_sane(name@);
    }
    let want = total_of(f, w, h)?;
    if payload.len() as u64 != want {
        return Err(VoleError::InvalidSamples);
    }
    let packed422 = match f.kind {
        SourceKind::Yuyv | SourceKind::Uyvy => true,
        _ => false,
    };
    if packed422 && w % 2 != 0 {
        return Err(VoleError::UnsupportedPixelLayout);
    }
    if w == 0 || h == 0 || w > 0xffff_ffff || h > 0xffff_ffff {
        return Err(VoleError::GeometryMismatch);
    }
    let depth = match BitDepth::new(f.depth) {
        Ok(d) => d,
        Err(e) => {
            return Err(e);
        },
    };
    let n = f.layout.plane_count();
    let mut planes: Vec<Plane> = Vec::new();
    let mut p = 0usize;
    while p < n
        invariant
            frame_geometry_ok(f, w, h),
            w <= u32::MAX,
            h <= u32::MAX,
            source_format(name@) == Some(f),
            n == nplanes(f),
            p <= n,
            depth.b() == f.depth,
            payload@.len() == expected_total(f, w as nat, h as nat),
            planes@.len() == p,
            forall|q: int| 0 <= q < p ==> unpacked_plane(f, w, h, q, #[trigger] planes@[q], payload@),
            forall|q: int, k: nat|
                0 <= q < p && k < pcount(f, w as nat, h as nat, q) ==> #[trigger] word_at(
                    payload@,
                    src_pos(f, w as nat, h as nat, q, k),
                    sample_bytes(f.depth),
                ) <= max_sample_of(f.depth),
        decreases n - p,
    {
        match read_plane(f, w, h, p, payload, depth) {
            Ok(q) => {
                planes.push(q);
            },
            Err(e) => {
                proof {
                    assert(!unpack_ok(f, w, h, payload@));
                }
                return Err(e);
            },
        }
        p = p + 1;
    }
    Ok(planes)
}

/// Division with remainder is unique.
proof fn lemma_unique_divmod(a1: int, r1: int, a2: int, r2: int, d: int)
    requires
        d > 0,
        0 <= r1 < d,
        0 <= r2 < d,
        a1 * d + r1 == a2 * d + r2,
    ensures
        a1 == a2,
        r1 == r2,
{
    let x = a1 * d + r1;
    lemma_fundamental_div_mod_converse(x, d, a1, r1);
    lemma_fundamental_div_mod_converse(x, d, a2, r2);
}

/// Distinct samples of planar formats occupy distinct payload bytes.
proof fn lemma_pos_injective_planar(f: SourceFormat, w: nat, h: nat, p1: int, k1: nat, j1: nat, p2: int, k2: nat, j2: nat)
    requires
        format_sane(f),
        f.kind is Planar,
        0 <= p1 < nplanes(f),
        0 <= p2 < nplanes(f),
        k1 < pcount(f, w, h, p1),
        k2 < pcount(f, w, h, p2),
        j1 < sample_bytes(f.depth),
        j2 < sample_bytes(f.depth),
        src_pos(f, w, h, p1, k1) + j1 == src_pos(f, w, h, p2, k2) + j2,
    ensures
        p1 == p2 && k1 == k2 && j1 == j2,
{
    let sb = sample_bytes(f.depth) as int;
    lemma_cdiv_small(w);
    lemma_cdiv_small(h);
    if is_gbr(f.layout) {
        let wh = (w * h) as int;
        assert(pcount(f, w, h, p1) == wh && pcount(f, w, h, p2) == wh);
        let s1 = gbr_slot(p1) as int;
        let s2 = gbr_slot(p2) as int;
        assert(src_pos(f, w, h, p1, k1) == (s1 * wh + k1) * sb) by (nonlinear_arith)
            requires
                src_pos(f, w, h, p1, k1) == s1 * wh * sb + k1 * sb,
        ;
        assert(src_pos(f, w, h, p2, k2) == (s2 * wh + k2) * sb) by (nonlinear_arith)
            requires
                src_pos(f, w, h, p2, k2) == s2 * wh * sb + k2 * sb,
        ;
        lemma_unique_divmod(s1 * wh + k1, j1 as int, s2 * wh + k2, j2 as int, sb);
        lemma_unique_divmod(s1, k1 as int, s2, k2 as int, wh);
    } else {
        let a1 = prefix_count(f, w, h, p1) + k1;
        let a2 = prefix_count(f, w, h, p2) + k2;
        assert(src_pos(f, w, h, p1, k1) == a1 * sb) by (nonlinear_arith)
            requires
                src_pos(f, w, h, p1, k1) == prefix_count(f, w, h, p1) * sb + k1 * sb,
                a1 == prefix_count(f, w, h, p1) + k1,
        ;
        assert(src_pos(f, w, h, p2, k2) == a2 * sb) by (nonlinear_arith)
            requires
                src_pos(f, w, h, p2, k2) == prefix_count(f, w, h, p2) * sb + k2 * sb,
                a2 == prefix_count(f, w, h, p2) + k2,
        ;
        lemma_unique_divmod(a1 as int, j1 as int, a2 as int, j2 as int, sb);
        if p1 < p2 {
            lemma_prefix_monotone(f, w, h, p1 + 1, p2);
            assert(prefix_count(f, w, h, p1 + 1) == prefix_count(f, w, h, p1) + pcount(f, w, h, p1));
        } else if p2 < p1 {
            lemma_prefix_monotone(f, w, h, p2 + 1, p1);
            assert(prefix_count(f, w, h, p2 + 1) == prefix_count(f, w, h, p2) + pcount(f, w, h, p2));
        }
    }
}

/// Distinct samples of semi-planar formats occupy distinct payload bytes.
proof fn lemma_pos_injective_semi(f: SourceFormat, w: nat, h: nat, p1: int, k1: nat, j1: nat, p2: int, k2: nat, j2: nat)
    requires
        format_sane(f),
        f.kind is SemiPlanar,
        0 <= p1 < nplanes(f),
        0 <= p2 < nplanes(f),
        k1 < pcount(f, w, h, p1),
        k2 < pcount(f, w, h, p2),
        j1 < sample_bytes(f.depth),
        j2 < sample_bytes(f.depth),
        src_pos(f, w, h, p1, k1) + j1 == src_pos(f, w, h, p2, k2) + j2,
    ensures
        p1 == p2 && k1 == k2 && j1 == j2,
{
    let sb = sample_bytes(f.depth) as int;
    lemma_cdiv_small(w);
    lemma_cdiv_small(h);
    let wh = (w * h) as int;
    let uv_first = f.kind->uv_first;
    let x1 = src_pos(f, w, h, p1, k1) + j1;
    if p1 == 0 {
        assert(pcount(f, w, h, 0) == wh);
        assert(x1 < wh * sb) by (nonlinear_arith)
            requires
                x1 == k1 * sb + j1,
                k1 + 1 <= wh,
                j1 < sb,
        ;
    }
    if p2 == 0 {
        assert(pcount(f, w, h, 0) == wh);
        assert(x1 < wh * sb) by (nonlinear_arith)
            requires
                x1 == k2 * sb + j2,
                k2 + 1 <= wh,
                j2 < sb,
        ;
    }
    if p1 == 0 && p2 == 0 {
        lemma_unique_divmod(k1 as int, j1 as int, k2 as int, j2 as int, sb);
    } else if p1 != 0 && p2 != 0 {
        let l1: int = if layout_planes(f.layout)[p1].component == uv_first { 0 } else { sb };
        let l2: int = if layout_planes(f.layout)[p2].component == uv_first { 0 } else { sb };
        assert(x1 == wh * sb + k1 * (2 * sb) + (l1 + j1));
        assert(x1 == wh * sb + k2 * (2 * sb) + (l2 + j2));
        lemma_unique_divmod(k1 as int, l1 + j1, k2 as int, l2 + j2, 2 * sb);
        assert(l1 == l2);
        assert(layout_planes(f.layout)[1].component == Component::Cb);
        assert(layout_planes(f.layout)[2].component == Component::Cr);
    }
}

/// Distinct samples of packed formats occupy distinct payload bytes, none
/// of them padding.
proof fn lemma_pos_injective_packed(f: SourceFormat, w: nat, h: nat, p1: int, k1: nat, p2: int, k2: nat)
    requires
        format_sane(f),
        f.kind is Packed,
        0 <= p1 < nplanes(f),
        0 <= p2 < nplanes(f),
        src_pos(f, w, h, p1, k1) == src_pos(f, w, h, p2, k2),
    ensures
        p1 == p2 && k1 == k2,
{
    let stride = f.kind->stride as int;
    let first = f.kind->first as int;
    assert(sample_bytes(f.depth) == 1);
    lemma_unique_divmod(k1 as int, first + p1, k2 as int, first + p2, stride);
}

/// Packed samples never land on a padding byte.
proof fn lemma_pos_not_pad(f: SourceFormat, w: nat, h: nat, p: int, k: nat, j: nat)
    requires
        format_sane(f),
        0 <= p < nplanes(f),
        j < sample_bytes(f.depth),
    ensures
        !is_pad(f, src_pos(f, w, h, p, k) + j),
{
    if f.kind is Packed {
        let stride = f.kind->stride as int;
        let first = f.kind->first as int;
        assert(sample_bytes(f.depth) == 1);
        let x = src_pos(f, w, h, p, k) + j;
        assert(x == k * stride + (first + p));
        lemma_fundamental_div_mod_converse(x as int, stride, k as int, first + p);
    }
}

/// Distinct samples of packed 4:2:2 formats occupy distinct payload bytes.
proof fn lemma_pos_injective_yuyv(f: SourceFormat, w: nat, h: nat, p1: int, k1: nat, p2: int, k2: nat)
    requires
        format_sane(f),
        f.kind is Yuyv || f.kind is Uyvy,
        0 <= p1 < nplanes(f),
        0 <= p2 < nplanes(f),
        src_pos(f, w, h, p1, k1) == src_pos(f, w, h, p2, k2),
    ensures
        p1 == p2 && k1 == k2,
{
    let x = src_pos(f, w, h, p1, k1) as int;
    let b1 = src_base(f, w, h, p1) as int;
    let b2 = src_base(f, w, h, p2) as int;
    if p1 == 0 && p2 == 0 {
        lemma_unique_divmod(k1 as int, b1, k2 as int, b2, 2);
    } else if p1 != 0 && p2 != 0 {
        lemma_unique_divmod(k1 as int, b1, k2 as int, b2, 4);
    } else if p1 == 0 {
        assert(x == (2 * k2 + b2 / 2) * 2 + b2 % 2);
        lemma_unique_divmod(k1 as int, b1, 2 * k2 + b2 / 2, b2 % 2, 2);
    } else {
        assert(x == (2 * k1 + b1 / 2) * 2 + b1 % 2);
        lemma_unique_divmod(k2 as int, b2, 2 * k1 + b1 / 2, b1 % 2, 2);
    }
}

/// Distinct samples occupy distinct payload bytes.
pub proof fn lemma_pos_injective(f: SourceFormat, w: nat, h: nat, p1: int, k1: nat, j1: nat, p2: int, k2: nat, j2: nat)
    requires
        format_sane(f),
        0 <= p1 < nplanes(f),
        0 <= p2 < nplanes(f),
        k1 < pcount(f, w, h, p1),
        k2 < pcount(f, w, h, p2),
        j1 < sample_bytes(f.depth),
        j2 < sample_bytes(f.depth),
        src_pos(f, w, h, p1, k1) + j1 == src_pos(f, w, h, p2, k2) + j2,
    ensures
        p1 == p2 && k1 == k2 && j1 == j2,
{
    match f.kind {
        SourceKind::Planar => lemma_pos_injective_planar(f, w, h, p1, k1, j1, p2, k2, j2),
        SourceKind::SemiPlanar { .. } => lemma_pos_injective_semi(f, w, h, p1, k1, j1, p2, k2, j2),
        SourceKind::Packed { .. } => {
            assert(sample_bytes(f.depth) == 1);
            lemma_pos_injective_packed(f, w, h, p1, k1, p2, k2);
        },
        _ => {
            assert(sample_bytes(f.depth) == 1);
            lemma_pos_injective_yuyv(f, w, h, p1, k1, p2, k2);
        },
    }
}

/// Index of the first plane carrying component `c`.
fn find_plane(planes: &[Plane], c: Component) -> (r: Option<usize>)
    ensures
        r matches Some(i) ==> find_comp(planes@, c) == Some(i as int),
        r is None ==> find_comp(planes@, c) is None,
{
    let n = planes.len();
    let mut i = 0usize;
    while i < n
        invariant
            i <= n,
            n == planes@.len(),
            find_comp(planes@, c) == find_from(planes@, c, i as int),
        decreases n - i,
    {
        if planes[i].component() == c {
            return Some(i);
        }
        i = i + 1;
    }
    None
}

/// The error a repack of a supported format reports.
pub open spec fn repack_error(f: SourceFormat, w: u64, h: u64, planes: Seq<Plane>) -> VoleError {
    if expected_total(f, w as nat, h as nat) > u64::MAX || expected_total(f, w as nat, h as nat) > usize::MAX {
        VoleError::ArithmeticOverflow
    } else if (f.kind is Yuyv || f.kind is Uyvy) && w % 2 != 0 {
        VoleError::UnsupportedPixelLayout
    } else {
        VoleError::GeometryMismatch
    }
}

/// Whether `out` is the repacked payload of `planes`: every sample of every
/// canonical plane at its payload position, padding bytes zero.
pub open spec fn repacked(f: SourceFormat, w: u64, h: u64, planes: Seq<Plane>, out: Seq<u8>) -> bool {
    let sb = sample_bytes(f.depth);
    &&& out.len() == expected_total(f, w as nat, h as nat)
    &&& forall|p: int, k: nat, j: nat|
        0 <= p < nplanes(f) && k < pcount(f, w as nat, h as nat, p) && j < sb ==> out[(src_pos(f, w as nat, h as nat, p, k) + j) as int]
            == #[trigger] plane_for(f, planes, p).bytes()[(k * sb + j) as int]
    &&& forall|i: nat| i < out.len() && #[trigger] is_pad(f, i) ==> out[i as int] == 0
}

/// Repack canonical planes into the source pixel format's payload: each
/// canonical component is read from the first plane that carries it
/// (`GeometryMismatch` when one is missing), packed 4:2:2 needs an even
/// width (`UnsupportedPixelLayout`), and padding bytes are zero.
pub fn repack_frame(name: &str, w: u64, h: u64, planes: &[Plane]) -> (r: Result<Vec<u8>, VoleError>)
    requires
        source_format(name@) matches Some(f) ==> repack_ready(f, w, h, planes@),
    ensures
        match source_format(name@) {
            None => r == Err::<Vec<u8>, VoleError>(VoleError::UnsupportedPixelLayout),
            Some(f) => {
                &&& r is Ok <==> expected_total(f, w as nat, h as nat) <= u64::MAX && expected_total(f, w as nat, h as nat) <= usize::MAX
                    && !((f.kind is Yuyv || f.kind is Uyvy) && w % 2 != 0) && has_components(f, planes@)
                &&& r matches Err(e) ==> e == repack_error(f, w, h, planes@)
                &&& r matches Ok(out) ==> repacked(f, w, h, planes@, out@)
            },
        },
{
    let f = desc(name)?;
    proof {
        lemma_table_sane(name@);
    }
    let total = total_of(f, w, h)?;
    if total > usize::MAX as u64 {
        return Err(VoleError::ArithmeticOverflow);
    }
    let packed422 = match f.kind {
        SourceKind::Yuyv | SourceKind::Uyvy => true,
        _ => false,
    };
    if packed422 && w % 2 != 0 {
        return Err(VoleError::UnsupportedPixelLayout);
    }
    let lp = f.layout.planes();
    let n = lp.len();
    let mut found: Vec<usize> = Vec::new();
    let mut p = 0usize;
    while p < n
        invariant
            p <= n,
            n == nplanes(f),
            lp@ == layout_planes(f.layout),
            source_format(name@) == Some(f),
            format_sane(f),
            total == expected_total(f, w as nat, h as nat),
            total <= usize::MAX,
            !(packed422 && w % 2 != 0),
            packed422 == (f.kind is Yuyv || f.kind is Uyvy),
            found@.len() == p,
            forall|q: int| 0 <= q < p ==> find_comp(planes@, #[trigger] layout_planes(f.layout)[q].component) == Some(found@[q] as int),
        decreases n - p,
    {
        match find_plane(planes, lp[p].component) {
            Some(i) => {
                found.push(i);
            },
            None => {
                proof {
                    assert(find_comp(planes@, layout_planes(f.layout)[p as int].component) is None);
                    assert(!has_components(f, planes@));
                }
                return Err(VoleError::GeometryMismatch);
            },
        }
        p = p + 1;
    }
    proof {
        assert forall|q: int| 0 <= q < n implies (found@[q] as int) < planes@.len() by {
            lemma_find_from_range(planes@, layout_planes(f.layout)[q].component, 0);
        }
    }
    let ghost gw = w as nat;
    let ghost gh = h as nat;
    let ghost sbn = sample_bytes(f.depth);
    let mut out: Vec<u8> = Vec::new();
    let tl = total as usize;
    let mut i = 0usize;
    while i < tl
        invariant
            i <= tl,
            out@ == Seq::new(i as nat, |x: int| 0u8),
        decreases tl - i,
    {
        out.push(0);
        proof {
            assert(out@ =~= Seq::new((i + 1) as nat, |x: int| 0u8));
        }
        i = i + 1;
    }
    if w == 0 || h == 0 {
        proof {
            lemma_cdiv_small(gw);
            lemma_cdiv_small(gh);
            assert forall|p: int| 0 <= p < nplanes(f) implies #[trigger] pcount(f, gw, gh, p) == 0 by {
                crate::media::layout::lemma_layout_subsampling_small(f.layout, p);
                if w == 0 {
                    assert(pdims(f, gw, gh, p).0 == 0);
                    lemma_mul_basics(pdims(f, gw, gh, p).1 as int);
                } else {
                    assert(pdims(f, gw, gh, p).1 == 0);
                    lemma_mul_basics(pdims(f, gw, gh, p).0 as int);
                }
            }
        }
        return Ok(out);
    }
    let sb: u64 = if f.depth <= 8 {
        1
    } else {
        2
    };
    let mut p = 0usize;
    while p < n
        invariant
            frame_geometry_ok(f, w, h),
            repack_ready(f, w, h, planes@),
            gw == w,
            gh == h,
            sbn == sample_bytes(f.depth),
            sb == sbn,
            n == nplanes(f),
            p <= n,
            found@.len() == n,
            forall|q: int| 0 <= q < n ==> find_comp(planes@, #[trigger] layout_planes(f.layout)[q].component) == Some(found@[q] as int),
            forall|q: int| 0 <= q < n ==> (#[trigger] found@[q] as int) < planes@.len(),
            out@.len() == expected_total(f, gw, gh),
            forall|q: int, k: nat, j: nat|
                0 <= q < p && k < pcount(f, gw, gh, q) && j < sbn ==> out@[(src_pos(f, gw, gh, q, k) + j) as int]
                    == #[trigger] plane_for(f, planes@, q).bytes()[(k * sbn + j) as int],
            forall|x: nat| x < out@.len() && #[trigger] is_pad(f, x) ==> out@[x as int] == 0,
        decreases n - p,
    {
        proof {
            lemma_pcount_bounds(f, w, h, p as int);
            assert(find_comp(planes@, layout_planes(f.layout)[p as int].component) == Some(found@[p as int] as int));
        }
        let src = planes[found[p]].canonical_bytes();
        let (pw, ph) = match plane_dims(f.layout, w, h, p) {
            Ok(d) => d,
            Err(_) => (0, 0),
        };
        let cnt = pw * ph;
        let (base, step) = base_step(f, w, h, p);
        let ghost pp = p as int;
        let mut k: u64 = 0;
        while k < cnt
            invariant
                frame_geometry_ok(f, w, h),
                gw == w,
                gh == h,
                sbn == sample_bytes(f.depth),
                sb == sbn,
                n == nplanes(f),
                pp == p,
                p < n,
                cnt == pcount(f, gw, gh, pp),
                base == src_base(f, gw, gh, pp),
                step == src_step(f, pp),
                step <= 4,
                cnt <= expected_total(f, gw, gh),
                src@ == plane_for(f, planes@, pp).bytes(),
                src@.len() >= cnt * sbn,
                k <= cnt,
                out@.len() == expected_total(f, gw, gh),
                forall|q: int, kk: nat, j: nat|
                    0 <= q < p && kk < pcount(f, gw, gh, q) && j < sbn ==> out@[(src_pos(f, gw, gh, q, kk) + j) as int]
                        == #[trigger] plane_for(f, planes@, q).bytes()[(kk * sbn + j) as int],
                forall|kk: nat, j: nat|
                    kk < k && j < sbn ==> out@[(src_pos(f, gw, gh, pp, kk) + j) as int]
                        == #[trigger] plane_for(f, planes@, pp).bytes()[(kk * sbn + j) as int],
                forall|x: nat| x < out@.len() && #[trigger] is_pad(f, x) ==> out@[x as int] == 0,
            decreases cnt - k,
        {
            proof {
                lemma_pos_in_range(f, gw, gh, pp, k as nat);
                lemma_mul_upper_bound(k as int, cnt as int, step as int, 4);
                lemma_mul_upper_bound(k as int, cnt as int, sb as int, 2);
            }
            let mut j: u64 = 0;
            while j < sb
                invariant
                    frame_geometry_ok(f, w, h),
                    gw == w,
                    gh == h,
                    sbn == sample_bytes(f.depth),
                    sb == sbn,
                    n == nplanes(f),
                    pp == p,
                    p < n,
                    k < cnt,
                    cnt == pcount(f, gw, gh, pp),
                    base == src_base(f, gw, gh, pp),
                    step == src_step(f, pp),
                    src_pos(f, gw, gh, pp, k as nat) + sbn <= expected_total(f, gw, gh),
                    k * sb + sb <= src@.len(),
                    src@ == plane_for(f, planes@, pp).bytes(),
                    j <= sb,
                    out@.len() == expected_total(f, gw, gh),
                    forall|q: int, kk: nat, jj: nat|
                        0 <= q < p && kk < pcount(f, gw, gh, q) && jj < sbn ==> out@[(src_pos(f, gw, gh, q, kk) + jj) as int]
                            == #[trigger] plane_for(f, planes@, q).bytes()[(kk * sbn + jj) as int],
                    forall|kk: nat, jj: nat|
                        (kk < k && jj < sbn) || (kk == k && jj < j) ==> out@[(src_pos(f, gw, gh, pp, kk) + jj) as int]
                            == #[trigger] plane_for(f, planes@, pp).bytes()[(kk * sbn + jj) as int],
                    forall|x: nat| x < out@.len() && #[trigger] is_pad(f, x) ==> out@[x as int] == 0,
                decreases sb - j,
            {
                let at = base + k * step + j;
                let ghost gat = src_pos(f, gw, gh, pp, k as nat) + j;
                assert(at == gat);
                assert(gat < out@.len());
                let ghost before = out@;
                let idx = k * sb + j;
                assert(idx < src@.len());
                let slen = src.len();
                let olen = out.len();
                let ui = idx as usize;
                assert(ui as int == idx as int);
                assert(idx == k * sbn + j);
                let v = src[ui];
                assert(v == src@[ui as int]);
                assert(v == plane_for(f, planes@, pp).bytes()[(k * sbn + j) as int]);
                let ua = at as usize;
                assert(ua as int == gat);
                out.set(ua, v);
                assert(out@ == before.update(gat as int, v));
                proof {
                    lemma_repack_step(f, gw, gh, planes@, pp, k as nat, j as nat, before, out@);
                }
                j = j + 1;
            }
            k = k + 1;
        }
        p = p + 1;
    }
    Ok(out)
}

/// One byte written by the repacking loop keeps every byte already placed,
/// places the new one, and leaves padding untouched.
proof fn lemma_repack_step(
    f: SourceFormat,
    w: nat,
    h: nat,
    planes: Seq<Plane>,
    p: int,
    k: nat,
    j: nat,
    before: Seq<u8>,
    after: Seq<u8>,
)
    requires
        format_sane(f),
        0 <= p < nplanes(f),
        k < pcount(f, w, h, p),
        j < sample_bytes(f.depth),
        (f.kind is Yuyv || f.kind is Uyvy) ==> w % 2 == 0,
        before.len() == expected_total(f, w, h),
        after == before.update(
            (src_pos(f, w, h, p, k) + j) as int,
            plane_for(f, planes, p).bytes()[(k * sample_bytes(f.depth) + j) as int],
        ),
        forall|q: int, kk: nat, jj: nat|
            0 <= q < p && kk < pcount(f, w, h, q) && jj < sample_bytes(f.depth) ==> before[(src_pos(f, w, h, q, kk) + jj) as int]
                == #[trigger] plane_for(f, planes, q).bytes()[(kk * sample_bytes(f.depth) + jj) as int],
        forall|kk: nat, jj: nat|
            (kk < k && jj < sample_bytes(f.depth)) || (kk == k && jj < j) ==> before[(src_pos(f, w, h, p, kk) + jj) as int]
                == #[trigger] plane_for(f, planes, p).bytes()[(kk * sample_bytes(f.depth) + jj) as int],
        forall|x: nat| x < before.len() && #[trigger] is_pad(f, x) ==> before[x as int] == 0,
    ensures
        after.len() == expected_total(f, w, h),
        forall|q: int, kk: nat, jj: nat|
            0 <= q < p && kk < pcount(f, w, h, q) && jj < sample_bytes(f.depth) ==> after[(src_pos(f, w, h, q, kk) + jj) as int]
                == #[trigger] plane_for(f, planes, q).bytes()[(kk * sample_bytes(f.depth) + jj) as int],
        forall|kk: nat, jj: nat|
            (kk < k && jj < sample_bytes(f.depth)) || (kk == k && jj < j + 1) ==> after[(src_pos(f, w, h, p, kk) + jj) as int]
                == #[trigger] plane_for(f, planes, p).bytes()[(kk * sample_bytes(f.depth) + jj) as int],
        forall|x: nat| x < after.len() && #[trigger] is_pad(f, x) ==> after[x as int] == 0,
{
    let sb = sample_bytes(f.depth);
    let at = src_pos(f, w, h, p, k) + j;
    lemma_pos_in_range(f, w, h, p, k);
    lemma_pos_not_pad(f, w, h, p, k, j);
    assert forall|q: int, kk: nat, jj: nat|
        0 <= q < p && kk < pcount(f, w, h, q) && jj < sb implies after[(src_pos(f, w, h, q, kk) + jj) as int]
            == #[trigger] plane_for(f, planes, q).bytes()[(kk * sb + jj) as int] by {
        lemma_pos_in_range(f, w, h, q, kk);
        if src_pos(f, w, h, q, kk) + jj == at {
            lemma_pos_injective(f, w, h, q, kk, jj, p, k, j);
        }
    }
    assert forall|kk: nat, jj: nat|
        (kk < k && jj < sb) || (kk == k && jj < j + 1) implies after[(src_pos(f, w, h, p, kk) + jj) as int]
            == #[trigger] plane_for(f, planes, p).bytes()[(kk * sb + jj) as int] by {
        if !(kk == k && jj == j) {
            lemma_pos_in_range(f, w, h, p, kk);
            if src_pos(f, w, h, p, kk) + jj == at {
                lemma_pos_injective(f, w, h, p, kk, jj, p, k, j);
            }
        }
    }
    assert forall|x: nat| x < after.len() && #[trigger] is_pad(f, x) implies after[x as int] == 0 by {
        if x != at {
            assert(before[x as int] == 0);
        }
    }
}

/// The sample that repacking wrote for canonical plane `p` at sample `k`
/// reads back from the payload unchanged, inside the active depth.
proof fn lemma_word_readback(f: SourceFormat, w: u64, h: u64, planes: Seq<Plane>, out: Seq<u8>, p: int, k: nat)
    requires
        format_sane(f),
        0 <= p < nplanes(f),
        k < pcount(f, w as nat, h as nat, p),
        find_comp(planes, layout_planes(f.layout)[p].component) is Some,
        plane_for(f, planes, p).valid(),
        plane_for(f, planes, p).depth().b() == f.depth,
        repack_ready(f, w, h, planes),
        repacked(f, w, h, planes, out),
    ensures
        k < plane_for(f, planes, p).samples().len(),
        word_at(out, src_pos(f, w as nat, h as nat, p, k), sample_bytes(f.depth)) == plane_for(f, planes, p).samples()[k as int],
        word_at(out, src_pos(f, w as nat, h as nat, p, k), sample_bytes(f.depth)) <= max_sample_of(f.depth),
{
    let pl = plane_for(f, planes, p);
    let sb = sample_bytes(f.depth);
    let n = pcount(f, w as nat, h as nat, p);
    let pos = src_pos(f, w as nat, h as nat, p, k);
    pl.lemma_valid_bytes();
    assert(pl.bytes().len() >= n * sb);
    assert(pl.bytes().len() == pl.samples().len() * sb);
    if sb == 1 {
        assert(pl.samples().len() >= n);
        let j0: nat = 0;
        assert(out[(pos + j0) as int] == plane_for(f, planes, p).bytes()[(k * sb + j0) as int]);
        assert(pl.samples()[k as int] == pl.bytes()[k as int] as u32);
        vstd::arithmetic::power2::lemma2_to64();
    } else {
        assert(pl.samples().len() >= n) by (nonlinear_arith)
            requires
                pl.bytes().len() >= n * 2,
                pl.bytes().len() == pl.samples().len() * 2,
        ;
        let j0: nat = 0;
        let j1: nat = 1;
        assert(out[(pos + j0) as int] == plane_for(f, planes, p).bytes()[(k * sb + j0) as int]);
        assert(out[(pos + j1) as int] == plane_for(f, planes, p).bytes()[(k * sb + j1) as int]);
        assert(pl.samples()[k as int] == pl.bytes()[2 * (k as int)] + 256 * pl.bytes()[2 * (k as int) + 1]);
    }
}

/// Unpacking a repacked payload gives back every canonical plane: for
/// canonical planes at the format's depth, the payload that repacking
/// wrote passes every unpacking check, and each unpacked plane holds the
/// samples of the plane it was packed from.
pub proof fn law_unpack_after_repack(
    name: Seq<char>,
    f: SourceFormat,
    w: u64,
    h: u64,
    planes: Seq<Plane>,
    out: Seq<u8>,
)
    requires
        source_format(name) == Some(f),
        forall|i: int| 0 <= i < planes.len() ==> #[trigger] planes[i].valid(),
        has_components(f, planes),
        forall|p: int| 0 <= p < nplanes(f) ==> #[trigger] plane_for(f, planes, p).depth().b() == f.depth,
        repack_ready(f, w, h, planes),
        0 < w <= u32::MAX,
        0 < h <= u32::MAX,
        (f.kind is Yuyv || f.kind is Uyvy) ==> w % 2 == 0,
        repacked(f, w, h, planes, out),
    ensures
        unpack_ok(f, w, h, out),
        forall|p: int, q: Plane, k: nat|
            #![trigger unpacked_plane(f, w, h, p, q, out), q.samples()[k as int]]
            0 <= p < nplanes(f) && unpacked_plane(f, w, h, p, q, out) && k < pcount(f, w as nat, h as nat, p)
                ==> q.samples()[k as int] == plane_for(f, planes, p).samples()[k as int],
{
    lemma_table_sane(name);
    assert forall|p: int, k: nat|
        0 <= p < nplanes(f) && k < pcount(f, w as nat, h as nat, p) implies #[trigger] word_at(
            out,
            src_pos(f, w as nat, h as nat, p, k),
            sample_bytes(f.depth),
        ) <= max_sample_of(f.depth) by {
        assert(find_comp(planes, layout_planes(f.layout)[p].component) is Some);
        lemma_find_from_range(planes, layout_planes(f.layout)[p].component, 0);
        assert(plane_for(f, planes, p).valid());
        lemma_word_readback(f, w, h, planes, out, p, k);
    }
    assert forall|p: int, q: Plane, k: nat|
        #![trigger unpacked_plane(f, w, h, p, q, out), q.samples()[k as int]]
        0 <= p < nplanes(f) && unpacked_plane(f, w, h, p, q, out) && k < pcount(f, w as nat, h as nat, p)
            implies q.samples()[k as int] == plane_for(f, planes, p).samples()[k as int] by {
        assert(find_comp(planes, layout_planes(f.layout)[p].component) is Some);
        lemma_find_from_range(planes, layout_planes(f.layout)[p].component, 0);
        assert(plane_for(f, planes, p).valid());
        lemma_word_readback(f, w, h, planes, out, p, k);
    }
}

/// Whether payload position `i` holds byte `j` of sample `k` of canonical
/// plane `p`.
pub open spec fn holds_byte(f: SourceFormat, w: nat, h: nat, i: nat, p: int, k: nat, j: nat) -> bool {
    &&& 0 <= p < nplanes(f)
    &&& k < pcount(f, w, h, p)
    &&& j < sample_bytes(f.depth)
    &&& i == src_pos(f, w, h, p, k) + j
}

/// The planar plane whose samples cover sample slot `a`.
proof fn lemma_plane_of(f: SourceFormat, w: nat, h: nat, a: nat, p: int) -> (q: int)
    requires
        0 <= p,
        a < prefix_count(f, w, h, p + 1),
    ensures
        0 <= q <= p,
        prefix_count(f, w, h, q) <= a < prefix_count(f, w, h, q) + pcount(f, w, h, q),
    decreases p,
{
    assert(prefix_count(f, w, h, p + 1) == prefix_count(f, w, h, p) + pcount(f, w, h, p));
    if prefix_count(f, w, h, p) <= a {
        p
    } else {
        assert(p > 0);
        lemma_plane_of(f, w, h, a, p - 1)
    }
}

/// Every byte of a planar payload belongs to one sample.
proof fn lemma_cover_planar(f: SourceFormat, w: nat, h: nat, i: nat) -> (r: (int, nat, nat))
    requires
        format_sane(f),
        f.kind is Planar,
        i < expected_total(f, w, h),
    ensures
        holds_byte(f, w, h, i, r.0, r.1, r.2),
{
    let sb = sample_bytes(f.depth);
    let n = nplanes(f) as int;
    lemma_cdiv_small(w);
    lemma_cdiv_small(h);
    crate::media::layout::lemma_layout_subsampling_small(f.layout, 0);
    lemma_fundamental_div_mod(i as int, sb as int);
    let a = i / sb;
    let j = i % sb;
    assert(i == a * sb + j);
    assert(expected_total(f, w, h) == prefix_count(f, w, h, n) * sb);
    assert(a < prefix_count(f, w, h, n)) by (nonlinear_arith)
        requires
            i == a * sb + j,
            i < prefix_count(f, w, h, n) * sb,
            0 <= j,
            sb >= 1,
    ;
    if is_gbr(f.layout) {
        reveal_with_fuel(prefix_count, 5);
        let wh = w * h;
        assert(pcount(f, w, h, 0) == wh && pcount(f, w, h, 1) == wh && pcount(f, w, h, 2) == wh);
        assert(n == 4 ==> pcount(f, w, h, 3) == wh);
        assert(prefix_count(f, w, h, n) == n * wh) by (nonlinear_arith)
            requires
                n == 3 ==> prefix_count(f, w, h, n) == wh + wh + wh,
                n == 4 ==> prefix_count(f, w, h, n) == wh + wh + wh + wh,
                n == 3 || n == 4,
        ;
        assert(wh > 0) by (nonlinear_arith)
            requires
                a < n * wh,
                n >= 0,
        ;
        lemma_fundamental_div_mod(a as int, wh as int);
        let sl = a / wh;
        let k = a % wh;
        assert(sl < n) by (nonlinear_arith)
            requires
                a == wh * sl + k,
                a < n * wh,
                0 <= k,
                wh > 0,
        ;
        let p: int = if sl == 2 {
            0
        } else if sl == 0 {
            1
        } else if sl == 1 {
            2
        } else {
            3
        };
        assert(gbr_slot(p) == sl);
        assert(pcount(f, w, h, p) == wh);
        assert(src_pos(f, w, h, p, k) == sl * wh * sb + k * sb);
        assert(src_pos(f, w, h, p, k) == a * sb) by (nonlinear_arith)
            requires
                src_pos(f, w, h, p, k) == sl * wh * sb + k * sb,
                a == wh * sl + k,
        ;
        (p, k, j)
    } else {
        let p = lemma_plane_of(f, w, h, a, n - 1);
        let k = (a - prefix_count(f, w, h, p)) as nat;
        assert(src_pos(f, w, h, p, k) == prefix_count(f, w, h, p) * sb + k * sb);
        assert(src_pos(f, w, h, p, k) == a * sb) by (nonlinear_arith)
            requires
                src_pos(f, w, h, p, k) == prefix_count(f, w, h, p) * sb + k * sb,
                a == prefix_count(f, w, h, p) + k,
        ;
        (p, k, j)
    }
}

/// Every byte of a semi-planar payload belongs to one sample.
proof fn lemma_cover_semi(f: SourceFormat, w: nat, h: nat, i: nat) -> (r: (int, nat, nat))
    requires
        format_sane(f),
        f.kind is SemiPlanar,
        i < expected_total(f, w, h),
    ensures
        holds_byte(f, w, h, i, r.0, r.1, r.2),
{
    let sb = sample_bytes(f.depth);
    lemma_cdiv_small(w);
    lemma_cdiv_small(h);
    let wh = w * h;
    let c1 = pcount(f, w, h, 1);
    assert(pcount(f, w, h, 0) == wh);
    assert(pcount(f, w, h, 2) == c1);
    if i < wh * sb {
        lemma_fundamental_div_mod(i as int, sb as int);
        let k = i / sb;
        let j = i % sb;
        assert(k < wh) by (nonlinear_arith)
            requires
                i == sb * k + j,
                i < wh * sb,
                0 <= j,
                sb >= 1,
        ;
        assert(src_pos(f, w, h, 0, k) == k * sb);
        (0, k, j)
    } else {
        let rr = (i - wh * sb) as nat;
        let d = 2 * sb;
        lemma_fundamental_div_mod(rr as int, d as int);
        let k = rr / d;
        let t = rr % d;
        assert(rr < c1 * d) by (nonlinear_arith)
            requires
                i < wh * sb + c1 * 2 * sb,
                rr == i - wh * sb,
                d == 2 * sb,
        ;
        assert(k < c1) by (nonlinear_arith)
            requires
                rr == d * k + t,
                rr < c1 * d,
                0 <= t,
                d >= 1,
        ;
        let uv_first = f.kind->uv_first;
        assert(layout_planes(f.layout)[1].component == Component::Cb);
        assert(layout_planes(f.layout)[2].component == Component::Cr);
        let pf: int = if uv_first == Component::Cb {
            1
        } else {
            2
        };
        let ps: int = 3 - pf;
        assert(src_pos(f, w, h, pf, k) == wh * sb + k * d);
        assert(src_pos(f, w, h, ps, k) == wh * sb + sb + k * d);
        assert(i == wh * sb + k * d + t) by (nonlinear_arith)
            requires
                rr == d * k + t,
                rr == i - wh * sb,
        ;
        if t < sb {
            (pf, k, t)
        } else {
            (ps, k, (t - sb) as nat)
        }
    }
}

/// Every non-padding byte of a packed payload belongs to one sample.
proof fn lemma_cover_packed(f: SourceFormat, w: nat, h: nat, i: nat) -> (r: (int, nat, nat))
    requires
        format_sane(f),
        f.kind is Packed,
        i < expected_total(f, w, h),
        !is_pad(f, i),
    ensures
        holds_byte(f, w, h, i, r.0, r.1, r.2),
{
    lemma_cdiv_small(w);
    lemma_cdiv_small(h);
    let stride = f.kind->stride as nat;
    let first = f.kind->first as nat;
    assert(sample_bytes(f.depth) == 1);
    assert(expected_total(f, w, h) == w * h * stride * 1);
    lemma_fundamental_div_mod(i as int, stride as int);
    let k = i / stride;
    let lane = i % stride;
    assert(first <= lane < first + nplanes(f));
    let p = (lane - first) as int;
    assert(pcount(f, w, h, p) == w * h);
    assert(k < w * h) by (nonlinear_arith)
        requires
            i == stride * k + lane,
            i < w * h * stride * 1,
            0 <= lane,
            stride >= 1,
    ;
    assert(src_pos(f, w, h, p, k) == first + p + k * stride);
    (p, k, 0)
}

/// Every byte of a packed 4:2:2 payload belongs to one sample.
proof fn lemma_cover_yuyv(f: SourceFormat, w: nat, h: nat, i: nat) -> (r: (int, nat, nat))
    requires
        format_sane(f),
        f.kind is Yuyv || f.kind is Uyvy,
        i < expected_total(f, w, h),
        w % 2 == 0,
    ensures
        holds_byte(f, w, h, i, r.0, r.1, r.2),
{
    lemma_cdiv_small(w);
    lemma_cdiv_small(h);
    assert(sample_bytes(f.depth) == 1);
    let hw = w / 2;
    assert(pcount(f, w, h, 0) == w * h);
    assert(pcount(f, w, h, 1) == hw * h);
    assert(pcount(f, w, h, 2) == hw * h);
    assert(expected_total(f, w, h) == w * h * 2);
    assert(i < 4 * (hw * h)) by (nonlinear_arith)
        requires
            i < w * h * 2,
            w == 2 * hw,
    ;
    lemma_fundamental_div_mod(i as int, 2);
    lemma_fundamental_div_mod(i as int, 4);
    let k2 = i / 2;
    let k4 = i / 4;
    assert(k2 < w * h) by (nonlinear_arith)
        requires
            i == 2 * k2 + i % 2,
            i < w * h * 2,
            0 <= i % 2,
    ;
    assert(k4 < hw * h) by (nonlinear_arith)
        requires
            i == 4 * k4 + i % 4,
            i < 4 * (hw * h),
            0 <= i % 4,
    ;
    let m = i % 4;
    assert(i % 2 == m % 2) by {
        lemma_mod_mod(i as int, 2, 2);
        assert(i == 2 * (2 * k4 + m / 2) + m % 2);
        lemma_fundamental_div_mod_converse(i as int, 2, (2 * k4 + m / 2) as int, (m % 2) as int);
    }
    if f.kind is Yuyv {
        if m % 2 == 0 {
            (0, k2, 0)
        } else if m == 1 {
            (1, k4, 0)
        } else {
            (2, k4, 0)
        }
    } else {
        if m % 2 == 1 {
            assert(src_pos(f, w, h, 0, k2) == 1 + k2 * 2);
            (0, k2, 0)
        } else if m == 0 {
            (1, k4, 0)
        } else {
            (2, k4, 0)
        }
    }
}

/// Every non-padding byte of a frame payload belongs to one sample.
pub proof fn lemma_cover(f: SourceFormat, w: nat, h: nat, i: nat) -> (r: (int, nat, nat))
    requires
        format_sane(f),
        i < expected_total(f, w, h),
        !is_pad(f, i),
        (f.kind is Yuyv || f.kind is Uyvy) ==> w % 2 == 0,
    ensures
        holds_byte(f, w, h, i, r.0, r.1, r.2),
{
    match f.kind {
        SourceKind::Planar => lemma_cover_planar(f, w, h, i),
        SourceKind::SemiPlanar { .. } => lemma_cover_semi(f, w, h, i),
        SourceKind::Packed { .. } => lemma_cover_packed(f, w, h, i),
        SourceKind::Yuyv | SourceKind::Uyvy => lemma_cover_yuyv(f, w, h, i),
    }
}

/// In planes that follow the canonical layout order, each canonical
/// component is first found at its own index.
proof fn lemma_find_canonical(f: SourceFormat, ps: Seq<Plane>, p: int, i: int)
    requires
        0 <= i <= p < nplanes(f),
        ps.len() == nplanes(f),
        forall|q: int| 0 <= q < nplanes(f) ==> #[trigger] ps[q].comp() == layout_planes(f.layout)[q].component,
    ensures
        find_from(ps, layout_planes(f.layout)[p].component, i) == Some(p),
    decreases p - i,
{
    if i < p {
        crate::media::layout::lemma_layout_components_distinct(f.layout, i, p);
        assert(ps[i].comp() == layout_planes(f.layout)[i].component);
        lemma_find_canonical(f, ps, p, i + 1);
    }
}

/// The payload byte at a sample position is the plane byte that unpacking
/// decoded from it.
proof fn lemma_byte_readback(f: SourceFormat, w: u64, h: u64, payload: Seq<u8>, q: Plane, p: int, k: nat, j: nat)
    requires
        format_sane(f),
        0 <= p < nplanes(f),
        k < pcount(f, w as nat, h as nat, p),
        j < sample_bytes(f.depth),
        src_pos(f, w as nat, h as nat, p, k) + sample_bytes(f.depth) <= payload.len(),
        q.valid(),
        unpacked_plane(f, w, h, p, q, payload),
    ensures
        q.bytes()[(k * sample_bytes(f.depth) + j) as int] == payload[(src_pos(f, w as nat, h as nat, p, k) + j) as int],
{
    let sb = sample_bytes(f.depth);
    let pos = src_pos(f, w as nat, h as nat, p, k);
    q.lemma_valid_bytes();
    assert(q.samples()[k as int] == word_at(payload, pos, sb));
    if sb == 1 {
        assert(q.samples()[k as int] == q.bytes()[k as int] as u32);
        assert(k * sb + j == k);
    } else {
        let ki = k as int;
        assert(q.samples()[ki] == q.bytes()[2 * ki] + 256 * q.bytes()[2 * ki + 1]);
        let lo = q.bytes()[2 * ki] as int;
        let hi = q.bytes()[2 * ki + 1] as int;
        let plo = payload[pos as int] as int;
        let phi = payload[pos as int + 1] as int;
        assert(hi * 256 + lo == phi * 256 + plo);
        lemma_unique_divmod(hi, lo, phi, plo, 256);
        if j == 0 {
            assert(k * sb + j == 2 * ki);
        } else {
            assert(k * sb + j == 2 * ki + 1);
        }
    }
}

/// A payload with every padding byte cleared.
pub open spec fn zero_pads(f: SourceFormat, payload: Seq<u8>) -> Seq<u8> {
    Seq::new(payload.len(), |i: int| if is_pad(f, i as nat) { 0u8 } else { payload[i] })
}

/// Repacking the planes unpacked from a payload gives the payload back
/// with its padding bytes cleared.
pub proof fn lemma_repack_clears_pads(
    name: Seq<char>,
    f: SourceFormat,
    w: u64,
    h: u64,
    payload: Seq<u8>,
    ps: Seq<Plane>,
    out: Seq<u8>,
)
    requires
        source_format(name) == Some(f),
        payload.len() == expected_total(f, w as nat, h as nat),
        unpack_ok(f, w, h, payload),
        ps.len() == nplanes(f),
        forall|p: int| 0 <= p < nplanes(f) ==> #[trigger] ps[p].valid(),
        forall|p: int| 0 <= p < nplanes(f) ==> unpacked_plane(f, w, h, p, #[trigger] ps[p], payload),
        repacked(f, w, h, ps, out),
    ensures
        out == zero_pads(f, payload),
{
    lemma_table_sane(name);
    let sb = sample_bytes(f.depth);
    assert forall|i: int| 0 <= i < out.len() implies out[i] == zero_pads(f, payload)[i] by {
        let ii = i as nat;
        if is_pad(f, ii) {
            assert(out[ii as int] == 0);
        } else {
            let (p, k, j) = lemma_cover(f, w as nat, h as nat, ii);
            lemma_find_canonical(f, ps, p, 0);
            lemma_pos_in_range(f, w as nat, h as nat, p, k);
            lemma_byte_readback(f, w, h, payload, ps[p], p, k, j);
            assert(out[(src_pos(f, w as nat, h as nat, p, k) + j) as int] == plane_for(f, ps, p).bytes()[(k * sb + j) as int]);
        }
    }
    assert(out =~= zero_pads(f, payload));
}

/// The planes unpacked from a payload are ready to be repacked: every
/// component is present and every plane holds the bytes its position needs.
pub proof fn lemma_unpacked_repack_ready(
    name: Seq<char>,
    f: SourceFormat,
    w: u64,
    h: u64,
    payload: Seq<u8>,
    ps: Seq<Plane>,
)
    requires
        source_format(name) == Some(f),
        payload.len() == expected_total(f, w as nat, h as nat),
        unpack_ok(f, w, h, payload),
        ps.len() == nplanes(f),
        forall|p: int| 0 <= p < nplanes(f) ==> #[trigger] ps[p].valid(),
        forall|p: int| 0 <= p < nplanes(f) ==> unpacked_plane(f, w, h, p, #[trigger] ps[p], payload),
    ensures
        has_components(f, ps),
        repack_ready(f, w, h, ps),
{
    lemma_table_sane(name);
    let sb = sample_bytes(f.depth);
    assert forall|p: int| 0 <= p < nplanes(f) implies #[trigger] find_comp(ps, layout_planes(f.layout)[p].component)
        == Some(p) by {
        lemma_find_canonical(f, ps, p, 0);
    }
    assert forall|p: int| 0 <= p < nplanes(f) implies #[trigger] find_comp(ps, layout_planes(f.layout)[p].component)
        is Some by {
        lemma_find_canonical(f, ps, p, 0);
    }
    assert forall|p: int|
        0 <= p < nplanes(f) && #[trigger] find_comp(ps, layout_planes(f.layout)[p].component) is Some implies {
            let need = pcount(f, w as nat, h as nat, p) * sb;
            let have = plane_for(f, ps, p).bytes().len();
            if f.kind is Planar || (f.kind is SemiPlanar && p == 0) {
                have == need
            } else {
                have >= need
            }
        } by {
        lemma_find_canonical(f, ps, p, 0);
        ps[p].lemma_valid_bytes();
    }
}

/// Repacking the planes that unpacking produced gives back the payload,
/// byte for byte, wherever the payload's padding bytes are zero (repacking
/// writes padding as zero): the unpacked planes carry every component
/// repacking looks for, with the bytes it needs, and the repacked payload
/// equals the one they were unpacked from.
pub proof fn law_repack_after_unpack(
    name: Seq<char>,
    f: SourceFormat,
    w: u64,
    h: u64,
    payload: Seq<u8>,
    ps: Seq<Plane>,
    out: Seq<u8>,
)
    requires
        source_format(name) == Some(f),
        payload.len() == expected_total(f, w as nat, h as nat),
        unpack_ok(f, w, h, payload),
        ps.len() == nplanes(f),
        forall|p: int| 0 <= p < nplanes(f) ==> #[trigger] ps[p].valid(),
        forall|p: int| 0 <= p < nplanes(f) ==> unpacked_plane(f, w, h, p, #[trigger] ps[p], payload),
        forall|i: nat| i < payload.len() && #[trigger] is_pad(f, i) ==> payload[i as int] == 0,
        repacked(f, w, h, ps, out),
    ensures
        has_components(f, ps),
        repack_ready(f, w, h, ps),
        out == payload,
{
    lemma_table_sane(name);
    let sb = sample_bytes(f.depth);
    assert forall|p: int| 0 <= p < nplanes(f) implies #[trigger] find_comp(ps, layout_planes(f.layout)[p].component)
        == Some(p) by {
        lemma_find_canonical(f, ps, p, 0);
    }
    assert forall|p: int| 0 <= p < nplanes(f) implies #[trigger] find_comp(ps, layout_planes(f.layout)[p].component)
        is Some by {
        lemma_find_canonical(f, ps, p, 0);
    }
    assert forall|p: int|
        0 <= p < nplanes(f) && #[trigger] find_comp(ps, layout_planes(f.layout)[p].component) is Some implies {
            let need = pcount(f, w as nat, h as nat, p) * sb;
            let have = plane_for(f, ps, p).bytes().len();
            if f.kind is Planar || (f.kind is SemiPlanar && p == 0) {
                have == need
            } else {
                have >= need
            }
        } by {
        lemma_find_canonical(f, ps, p, 0);
        ps[p].lemma_valid_bytes();
    }
    assert forall|i: int| 0 <= i < out.len() implies out[i] == payload[i] by {
        let ii = i as nat;
        if is_pad(f, ii) {
            assert(out[ii as int] == 0);
        } else {
            let (p, k, j) = lemma_cover(f, w as nat, h as nat, ii);
            lemma_find_canonical(f, ps, p, 0);
            lemma_pos_in_range(f, w as nat, h as nat, p, k);
            lemma_byte_readback(f, w, h, payload, ps[p], p, k, j);
            assert(out[(src_pos(f, w as nat, h as nat, p, k) + j) as int] == plane_for(f, ps, p).bytes()[(k * sb + j) as int]);
        }
    }
    assert(out =~= payload);
}

/// A found plane index is in range and carries the component.
proof fn lemma_find_from_range(planes: Seq<Plane>, c: Component, i: int)
    ensures
        find_from(planes, c, i) matches Some(j) ==> 0 <= i <= j < planes.len() && planes[j].comp() == c,
    decreases planes.len() - i,
{
    if 0 <= i < planes.len() && planes[i].comp() != c {
        lemma_find_from_range(planes, c, i + 1);
    }
}


/// Where FFmpeg stores sample `k` (in raster order) of component `c` in
/// one `w × h` frame of the 8-bit formats whose samples share a payload
/// in a fixed pattern: the byte lane of `c` in each pixel group for the
/// packed formats, the interleaved chroma pair for `nv12`/`nv21`, the
/// G, B, R(, A) plane order for `gbrp`/`gbrap`. `None` for other names
/// and components.
pub open spec fn stored_at(name: Seq<char>, c: Component, w: nat, h: nat, k: nat) -> Option<nat> {
    if name == "gbrp"@ {
        if c == Component::G {
            Some(k)
        } else if c == Component::B {
            Some(w * h + k)
        } else if c == Component::R {
            Some(2 * (w * h) + k)
        } else {
            None
        }
    } else if name == "gbrap"@ {
        if c == Component::G {
            Some(k)
        } else if c == Component::B {
            Some(w * h + k)
        } else if c == Component::R {
            Some(2 * (w * h) + k)
        } else if c == Component::A {
            Some(3 * (w * h) + k)
        } else {
            None
        }
    } else if name == "nv12"@ {
        if c == Component::Y {
            Some(k)
        } else if c == Component::Cb {
            Some(w * h + 2 * k)
        } else if c == Component::Cr {
            Some(w * h + 2 * k + 1)
        } else {
            None
        }
    } else if name == "nv21"@ {
        if c == Component::Y {
            Some(k)
        } else if c == Component::Cr {
            Some(w * h + 2 * k)
        } else if c == Component::Cb {
            Some(w * h + 2 * k + 1)
        } else {
            None
        }
    } else if name == "rgb24"@ {
        if c == Component::R {
            Some(3 * k)
        } else if c == Component::G {
            Some(3 * k + 1)
        } else if c == Component::B {
            Some(3 * k + 2)
        } else {
            None
        }
    } else if name == "bgr24"@ {
        if c == Component::B {
            Some(3 * k)
        } else if c == Component::G {
            Some(3 * k + 1)
        } else if c == Component::R {
            Some(3 * k + 2)
        } else {
            None
        }
    } else if name == "rgb0"@ {
        if c == Component::R {
            Some(4 * k)
        } else if c == Component::G {
            Some(4 * k + 1)
        } else if c == Component::B {
            Some(4 * k + 2)
        } else {
            None
        }
    } else if name == "bgr0"@ {
        if c == Component::B {
            Some(4 * k)
        } else if c == Component::G {
            Some(4 * k + 1)
        } else if c == Component::R {
            Some(4 * k + 2)
        } else {
            None
        }
    } else if name == "0rgb"@ {
        if c == Component::R {
            Some(4 * k + 1)
        } else if c == Component::G {
            Some(4 * k + 2)
        } else if c == Component::B {
            Some(4 * k + 3)
        } else {
            None
        }
    } else if name == "0bgr"@ {
        if c == Component::B {
            Some(4 * k + 1)
        } else if c == Component::G {
            Some(4 * k + 2)
        } else if c == Component::R {
            Some(4 * k + 3)
        } else {
            None
        }
    } else if name == "rgba"@ {
        if c == Component::R {
            Some(4 * k)
        } else if c == Component::G {
            Some(4 * k + 1)
        } else if c == Component::B {
            Some(4 * k + 2)
        } else if c == Component::A {
            Some(4 * k + 3)
        } else {
            None
        }
    } else if name == "bgra"@ {
        if c == Component::B {
            Some(4 * k)
        } else if c == Component::G {
            Some(4 * k + 1)
        } else if c == Component::R {
            Some(4 * k + 2)
        } else if c == Component::A {
            Some(4 * k + 3)
        } else {
            None
        }
    } else if name == "argb"@ {
        if c == Component::A {
            Some(4 * k)
        } else if c == Component::R {
            Some(4 * k + 1)
        } else if c == Component::G {
            Some(4 * k + 2)
        } else if c == Component::B {
            Some(4 * k + 3)
        } else {
            None
        }
    } else if name == "abgr"@ {
        if c == Component::A {
            Some(4 * k)
        } else if c == Component::B {
            Some(4 * k + 1)
        } else if c == Component::G {
            Some(4 * k + 2)
        } else if c == Component::R {
            Some(4 * k + 3)
        } else {
            None
        }
    } else if name == "yuyv422"@ {
        if c == Component::Y {
            Some(2 * k)
        } else if c == Component::Cb {
            Some(4 * k + 1)
        } else if c == Component::Cr {
            Some(4 * k + 3)
        } else {
            None
        }
    } else if name == "uyvy422"@ {
        if c == Component::Y {
            Some(2 * k + 1)
        } else if c == Component::Cb {
            Some(4 * k)
        } else if c == Component::Cr {
            Some(4 * k + 2)
        } else {
            None
        }
    } else {
        None
    }
}

/// Whether `name` is one of the formats [`stored_at`] describes.
pub open spec fn fixed_pattern_name(name: Seq<char>) -> bool {
    name == "gbrp"@
        || name == "gbrap"@
        || name == "nv12"@
        || name == "nv21"@
        || name == "rgb24"@
        || name == "bgr24"@
        || name == "rgb0"@
        || name == "bgr0"@
        || name == "0rgb"@
        || name == "0bgr"@
        || name == "rgba"@
        || name == "bgra"@
        || name == "argb"@
        || name == "abgr"@
        || name == "yuyv422"@
        || name == "uyvy422"@
}

/// The supported format names are pairwise distinct.
proof fn lemma_format_names_distinct(name: Seq<char>)
    ensures
        name == "gbrp"@ ==> name != "gray"@ && name != "gray16le"@ && name != "yuv420p"@ && name != "yuv420p10le"@ && name != "yuv420p12le"@ && name != "yuv420p14le"@ && name != "yuv420p16le"@ && name != "yuv422p"@ && name != "yuv422p10le"@ && name != "yuv422p12le"@ && name != "yuv422p16le"@ && name != "yuv444p"@ && name != "yuv444p10le"@ && name != "yuv444p12le"@ && name != "yuv444p16le"@ && name != "yuva420p"@ && name != "yuva444p"@ && name != "yuva444p10le"@ && name != "yuva444p12le"@ && name != "yuva444p16le"@ && name != "gbrp10le"@ && name != "gbrp12le"@ && name != "gbrp16le"@ && name != "gbrap"@ && name != "gbrap10le"@ && name != "nv12"@ && name != "nv21"@ && name != "p010le"@ && name != "p016le"@ && name != "rgb24"@ && name != "bgr24"@ && name != "rgb0"@ && name != "bgr0"@ && name != "0rgb"@ && name != "0bgr"@ && name != "rgba"@ && name != "bgra"@ && name != "argb"@ && name != "abgr"@ && name != "yuyv422"@ && name != "uyvy422"@,
        name == "gbrap"@ ==> name != "gray"@ && name != "gray16le"@ && name != "yuv420p"@ && name != "yuv420p10le"@ && name != "yuv420p12le"@ && name != "yuv420p14le"@ && name != "yuv420p16le"@ && name != "yuv422p"@ && name != "yuv422p10le"@ && name != "yuv422p12le"@ && name != "yuv422p16le"@ && name != "yuv444p"@ && name != "yuv444p10le"@ && name != "yuv444p12le"@ && name != "yuv444p16le"@ && name != "yuva420p"@ && name != "yuva444p"@ && name != "yuva444p10le"@ && name != "yuva444p12le"@ && name != "yuva444p16le"@ && name != "gbrp"@ && name != "gbrp10le"@ && name != "gbrp12le"@ && name != "gbrp16le"@ && name != "gbrap10le"@ && name != "nv12"@ && name != "nv21"@ && name != "p010le"@ && name != "p016le"@ && name != "rgb24"@ && name != "bgr24"@ && name != "rgb0"@ && name != "bgr0"@ && name != "0rgb"@ && name != "0bgr"@ && name != "rgba"@ && name != "bgra"@ && name != "argb"@ && name != "abgr"@ && name != "yuyv422"@ && name != "uyvy422"@,
        name == "nv12"@ ==> name != "gray"@ && name != "gray16le"@ && name != "yuv420p"@ && name != "yuv420p10le"@ && name != "yuv420p12le"@ && name != "yuv420p14le"@ && name != "yuv420p16le"@ && name != "yuv422p"@ && name != "yuv422p10le"@ && name != "yuv422p12le"@ && name != "yuv422p16le"@ && name != "yuv444p"@ && name != "yuv444p10le"@ && name != "yuv444p12le"@ && name != "yuv444p16le"@ && name != "yuva420p"@ && name != "yuva444p"@ && name != "yuva444p10le"@ && name != "yuva444p12le"@ && name != "yuva444p16le"@ && name != "gbrp"@ && name != "gbrp10le"@ && name != "gbrp12le"@ && name != "gbrp16le"@ && name != "gbrap"@ && name != "gbrap10le"@ && name != "nv21"@ && name != "p010le"@ && name != "p016le"@ && name != "rgb24"@ && name != "bgr24"@ && name != "rgb0"@ && name != "bgr0"@ && name != "0rgb"@ && name != "0bgr"@ && name != "rgba"@ && name != "bgra"@ && name != "argb"@ && name != "abgr"@ && name != "yuyv422"@ && name != "uyvy422"@,
        name == "nv21"@ ==> name != "gray"@ && name != "gray16le"@ && name != "yuv420p"@ && name != "yuv420p10le"@ && name != "yuv420p12le"@ && name != "yuv420p14le"@ && name != "yuv420p16le"@ && name != "yuv422p"@ && name != "yuv422p10le"@ && name != "yuv422p12le"@ && name != "yuv422p16le"@ && name != "yuv444p"@ && name != "yuv444p10le"@ && name != "yuv444p12le"@ && name != "yuv444p16le"@ && name != "yuva420p"@ && name != "yuva444p"@ && name != "yuva444p10le"@ && name != "yuva444p12le"@ && name != "yuva444p16le"@ && name != "gbrp"@ && name != "gbrp10le"@ && name != "gbrp12le"@ && name != "gbrp16le"@ && name != "gbrap"@ && name != "gbrap10le"@ && name != "nv12"@ && name != "p010le"@ && name != "p016le"@ && name != "rgb24"@ && name != "bgr24"@ && name != "rgb0"@ && name != "bgr0"@ && name != "0rgb"@ && name != "0bgr"@ && name != "rgba"@ && name != "bgra"@ && name != "argb"@ && name != "abgr"@ && name != "yuyv422"@ && name != "uyvy422"@,
        name == "rgb24"@ ==> name != "gray"@ && name != "gray16le"@ && name != "yuv420p"@ && name != "yuv420p10le"@ && name != "yuv420p12le"@ && name != "yuv420p14le"@ && name != "yuv420p16le"@ && name != "yuv422p"@ && name != "yuv422p10le"@ && name != "yuv422p12le"@ && name != "yuv422p16le"@ && name != "yuv444p"@ && name != "yuv444p10le"@ && name != "yuv444p12le"@ && name != "yuv444p16le"@ && name != "yuva420p"@ && name != "yuva444p"@ && name != "yuva444p10le"@ && name != "yuva444p12le"@ && name != "yuva444p16le"@ && name != "gbrp"@ && name != "gbrp10le"@ && name != "gbrp12le"@ && name != "gbrp16le"@ && name != "gbrap"@ && name != "gbrap10le"@ && name != "nv12"@ && name != "nv21"@ && name != "p010le"@ && name != "p016le"@ && name != "bgr24"@ && name != "rgb0"@ && name != "bgr0"@ && name != "0rgb"@ && name != "0bgr"@ && name != "rgba"@ && name != "bgra"@ && name != "argb"@ && name != "abgr"@ && name != "yuyv422"@ && name != "uyvy422"@,
        name == "bgr24"@ ==> name != "gray"@ && name != "gray16le"@ && name != "yuv420p"@ && name != "yuv420p10le"@ && name != "yuv420p12le"@ && name != "yuv420p14le"@ && name != "yuv420p16le"@ && name != "yuv422p"@ && name != "yuv422p10le"@ && name != "yuv422p12le"@ && name != "yuv422p16le"@ && name != "yuv444p"@ && name != "yuv444p10le"@ && name != "yuv444p12le"@ && name != "yuv444p16le"@ && name != "yuva420p"@ && name != "yuva444p"@ && name != "yuva444p10le"@ && name != "yuva444p12le"@ && name != "yuva444p16le"@ && name != "gbrp"@ && name != "gbrp10le"@ && name != "gbrp12le"@ && name != "gbrp16le"@ && name != "gbrap"@ && name != "gbrap10le"@ && name != "nv12"@ && name != "nv21"@ && name != "p010le"@ && name != "p016le"@ && name != "rgb24"@ && name != "rgb0"@ && name != "bgr0"@ && name != "0rgb"@ && name != "0bgr"@ && name != "rgba"@ && name != "bgra"@ && name != "argb"@ && name != "abgr"@ && name != "yuyv422"@ && name != "uyvy422"@,
        name == "rgb0"@ ==> name != "gray"@ && name != "gray16le"@ && name != "yuv420p"@ && name != "yuv420p10le"@ && name != "yuv420p12le"@ && name != "yuv420p14le"@ && name != "yuv420p16le"@ && name != "yuv422p"@ && name != "yuv422p10le"@ && name != "yuv422p12le"@ && name != "yuv422p16le"@ && name != "yuv444p"@ && name != "yuv444p10le"@ && name != "yuv444p12le"@ && name != "yuv444p16le"@ && name != "yuva420p"@ && name != "yuva444p"@ && name != "yuva444p10le"@ && name != "yuva444p12le"@ && name != "yuva444p16le"@ && name != "gbrp"@ && name != "gbrp10le"@ && name != "gbrp12le"@ && name != "gbrp16le"@ && name != "gbrap"@ && name != "gbrap10le"@ && name != "nv12"@ && name != "nv21"@ && name != "p010le"@ && name != "p016le"@ && name != "rgb24"@ && name != "bgr24"@ && name != "bgr0"@ && name != "0rgb"@ && name != "0bgr"@ && name != "rgba"@ && name != "bgra"@ && name != "argb"@ && name != "abgr"@ && name != "yuyv422"@ && name != "uyvy422"@,
        name == "bgr0"@ ==> name != "gray"@ && name != "gray16le"@ && name != "yuv420p"@ && name != "yuv420p10le"@ && name != "yuv420p12le"@ && name != "yuv420p14le"@ && name != "yuv420p16le"@ && name != "yuv422p"@ && name != "yuv422p10le"@ && name != "yuv422p12le"@ && name != "yuv422p16le"@ && name != "yuv444p"@ && name != "yuv444p10le"@ && name != "yuv444p12le"@ && name != "yuv444p16le"@ && name != "yuva420p"@ && name != "yuva444p"@ && name != "yuva444p10le"@ && name != "yuva444p12le"@ && name != "yuva444p16le"@ && name != "gbrp"@ && name != "gbrp10le"@ && name != "gbrp12le"@ && name != "gbrp16le"@ && name != "gbrap"@ && name != "gbrap10le"@ && name != "nv12"@ && name != "nv21"@ && name != "p010le"@ && name != "p016le"@ && name != "rgb24"@ && name != "bgr24"@ && name != "rgb0"@ && name != "0rgb"@ && name != "0bgr"@ && name != "rgba"@ && name != "bgra"@ && name != "argb"@ && name != "abgr"@ && name != "yuyv422"@ && name != "uyvy422"@,
        name == "0rgb"@ ==> name != "gray"@ && name != "gray16le"@ && name != "yuv420p"@ && name != "yuv420p10le"@ && name != "yuv420p12le"@ && name != "yuv420p14le"@ && name != "yuv420p16le"@ && name != "yuv422p"@ && name != "yuv422p10le"@ && name != "yuv422p12le"@ && name != "yuv422p16le"@ && name != "yuv444p"@ && name != "yuv444p10le"@ && name != "yuv444p12le"@ && name != "yuv444p16le"@ && name != "yuva420p"@ && name != "yuva444p"@ && name != "yuva444p10le"@ && name != "yuva444p12le"@ && name != "yuva444p16le"@ && name != "gbrp"@ && name != "gbrp10le"@ && name != "gbrp12le"@ && name != "gbrp16le"@ && name != "gbrap"@ && name != "gbrap10le"@ && name != "nv12"@ && name != "nv21"@ && name != "p010le"@ && name != "p016le"@ && name != "rgb24"@ && name != "bgr24"@ && name != "rgb0"@ && name != "bgr0"@ && name != "0bgr"@ && name != "rgba"@ && name != "bgra"@ && name != "argb"@ && name != "abgr"@ && name != "yuyv422"@ && name != "uyvy422"@,
        name == "0bgr"@ ==> name != "gray"@ && name != "gray16le"@ && name != "yuv420p"@ && name != "yuv420p10le"@ && name != "yuv420p12le"@ && name != "yuv420p14le"@ && name != "yuv420p16le"@ && name != "yuv422p"@ && name != "yuv422p10le"@ && name != "yuv422p12le"@ && name != "yuv422p16le"@ && name != "yuv444p"@ && name != "yuv444p10le"@ && name != "yuv444p12le"@ && name != "yuv444p16le"@ && name != "yuva420p"@ && name != "yuva444p"@ && name != "yuva444p10le"@ && name != "yuva444p12le"@ && name != "yuva444p16le"@ && name != "gbrp"@ && name != "gbrp10le"@ && name != "gbrp12le"@ && name != "gbrp16le"@ && name != "gbrap"@ && name != "gbrap10le"@ && name != "nv12"@ && name != "nv21"@ && name != "p010le"@ && name != "p016le"@ && name != "rgb24"@ && name != "bgr24"@ && name != "rgb0"@ && name != "bgr0"@ && name != "0rgb"@ && name != "rgba"@ && name != "bgra"@ && name != "argb"@ && name != "abgr"@ && name != "yuyv422"@ && name != "uyvy422"@,
        name == "rgba"@ ==> name != "gray"@ && name != "gray16le"@ && name != "yuv420p"@ && name != "yuv420p10le"@ && name != "yuv420p12le"@ && name != "yuv420p14le"@ && name != "yuv420p16le"@ && name != "yuv422p"@ && name != "yuv422p10le"@ && name != "yuv422p12le"@ && name != "yuv422p16le"@ && name != "yuv444p"@ && name != "yuv444p10le"@ && name != "yuv444p12le"@ && name != "yuv444p16le"@ && name != "yuva420p"@ && name != "yuva444p"@ && name != "yuva444p10le"@ && name != "yuva444p12le"@ && name != "yuva444p16le"@ && name != "gbrp"@ && name != "gbrp10le"@ && name != "gbrp12le"@ && name != "gbrp16le"@ && name != "gbrap"@ && name != "gbrap10le"@ && name != "nv12"@ && name != "nv21"@ && name != "p010le"@ && name != "p016le"@ && name != "rgb24"@ && name != "bgr24"@ && name != "rgb0"@ && name != "bgr0"@ && name != "0rgb"@ && name != "0bgr"@ && name != "bgra"@ && name != "argb"@ && name != "abgr"@ && name != "yuyv422"@ && name != "uyvy422"@,
        name == "bgra"@ ==> name != "gray"@ && name != "gray16le"@ && name != "yuv420p"@ && name != "yuv420p10le"@ && name != "yuv420p12le"@ && name != "yuv420p14le"@ && name != "yuv420p16le"@ && name != "yuv422p"@ && name != "yuv422p10le"@ && name != "yuv422p12le"@ && name != "yuv422p16le"@ && name != "yuv444p"@ && name != "yuv444p10le"@ && name != "yuv444p12le"@ && name != "yuv444p16le"@ && name != "yuva420p"@ && name != "yuva444p"@ && name != "yuva444p10le"@ && name != "yuva444p12le"@ && name != "yuva444p16le"@ && name != "gbrp"@ && name != "gbrp10le"@ && name != "gbrp12le"@ && name != "gbrp16le"@ && name != "gbrap"@ && name != "gbrap10le"@ && name != "nv12"@ && name != "nv21"@ && name != "p010le"@ && name != "p016le"@ && name != "rgb24"@ && name != "bgr24"@ && name != "rgb0"@ && name != "bgr0"@ && name != "0rgb"@ && name != "0bgr"@ && name != "rgba"@ && name != "argb"@ && name != "abgr"@ && name != "yuyv422"@ && name != "uyvy422"@,
        name == "argb"@ ==> name != "gray"@ && name != "gray16le"@ && name != "yuv420p"@ && name != "yuv420p10le"@ && name != "yuv420p12le"@ && name != "yuv420p14le"@ && name != "yuv420p16le"@ && name != "yuv422p"@ && name != "yuv422p10le"@ && name != "yuv422p12le"@ && name != "yuv422p16le"@ && name != "yuv444p"@ && name != "yuv444p10le"@ && name != "yuv444p12le"@ && name != "yuv444p16le"@ && name != "yuva420p"@ && name != "yuva444p"@ && name != "yuva444p10le"@ && name != "yuva444p12le"@ && name != "yuva444p16le"@ && name != "gbrp"@ && name != "gbrp10le"@ && name != "gbrp12le"@ && name != "gbrp16le"@ && name != "gbrap"@ && name != "gbrap10le"@ && name != "nv12"@ && name != "nv21"@ && name != "p010le"@ && name != "p016le"@ && name != "rgb24"@ && name != "bgr24"@ && name != "rgb0"@ && name != "bgr0"@ && name != "0rgb"@ && name != "0bgr"@ && name != "rgba"@ && name != "bgra"@ && name != "abgr"@ && name != "yuyv422"@ && name != "uyvy422"@,
        name == "abgr"@ ==> name != "gray"@ && name != "gray16le"@ && name != "yuv420p"@ && name != "yuv420p10le"@ && name != "yuv420p12le"@ && name != "yuv420p14le"@ && name != "yuv420p16le"@ && name != "yuv422p"@ && name != "yuv422p10le"@ && name != "yuv422p12le"@ && name != "yuv422p16le"@ && name != "yuv444p"@ && name != "yuv444p10le"@ && name != "yuv444p12le"@ && name != "yuv444p16le"@ && name != "yuva420p"@ && name != "yuva444p"@ && name != "yuva444p10le"@ && name != "yuva444p12le"@ && name != "yuva444p16le"@ && name != "gbrp"@ && name != "gbrp10le"@ && name != "gbrp12le"@ && name != "gbrp16le"@ && name != "gbrap"@ && name != "gbrap10le"@ && name != "nv12"@ && name != "nv21"@ && name != "p010le"@ && name != "p016le"@ && name != "rgb24"@ && name != "bgr24"@ && name != "rgb0"@ && name != "bgr0"@ && name != "0rgb"@ && name != "0bgr"@ && name != "rgba"@ && name != "bgra"@ && name != "argb"@ && name != "yuyv422"@ && name != "uyvy422"@,
        name == "yuyv422"@ ==> name != "gray"@ && name != "gray16le"@ && name != "yuv420p"@ && name != "yuv420p10le"@ && name != "yuv420p12le"@ && name != "yuv420p14le"@ && name != "yuv420p16le"@ && name != "yuv422p"@ && name != "yuv422p10le"@ && name != "yuv422p12le"@ && name != "yuv422p16le"@ && name != "yuv444p"@ && name != "yuv444p10le"@ && name != "yuv444p12le"@ && name != "yuv444p16le"@ && name != "yuva420p"@ && name != "yuva444p"@ && name != "yuva444p10le"@ && name != "yuva444p12le"@ && name != "yuva444p16le"@ && name != "gbrp"@ && name != "gbrp10le"@ && name != "gbrp12le"@ && name != "gbrp16le"@ && name != "gbrap"@ && name != "gbrap10le"@ && name != "nv12"@ && name != "nv21"@ && name != "p010le"@ && name != "p016le"@ && name != "rgb24"@ && name != "bgr24"@ && name != "rgb0"@ && name != "bgr0"@ && name != "0rgb"@ && name != "0bgr"@ && name != "rgba"@ && name != "bgra"@ && name != "argb"@ && name != "abgr"@ && name != "uyvy422"@,
        name == "uyvy422"@ ==> name != "gray"@ && name != "gray16le"@ && name != "yuv420p"@ && name != "yuv420p10le"@ && name != "yuv420p12le"@ && name != "yuv420p14le"@ && name != "yuv420p16le"@ && name != "yuv422p"@ && name != "yuv422p10le"@ && name != "yuv422p12le"@ && name != "yuv422p16le"@ && name != "yuv444p"@ && name != "yuv444p10le"@ && name != "yuv444p12le"@ && name != "yuv444p16le"@ && name != "yuva420p"@ && name != "yuva444p"@ && name != "yuva444p10le"@ && name != "yuva444p12le"@ && name != "yuva444p16le"@ && name != "gbrp"@ && name != "gbrp10le"@ && name != "gbrp12le"@ && name != "gbrp16le"@ && name != "gbrap"@ && name != "gbrap10le"@ && name != "nv12"@ && name != "nv21"@ && name != "p010le"@ && name != "p016le"@ && name != "rgb24"@ && name != "bgr24"@ && name != "rgb0"@ && name != "bgr0"@ && name != "0rgb"@ && name != "0bgr"@ && name != "rgba"@ && name != "bgra"@ && name != "argb"@ && name != "abgr"@ && name != "yuyv422"@,
{
    reveal_strlit("gray");
    reveal_strlit("gray16le");
    reveal_strlit("yuv420p");
    reveal_strlit("yuv420p10le");
    reveal_strlit("yuv420p12le");
    reveal_strlit("yuv420p14le");
    reveal_strlit("yuv420p16le");
    reveal_strlit("yuv422p");
    reveal_strlit("yuv422p10le");
    reveal_strlit("yuv422p12le");
    reveal_strlit("yuv422p16le");
    reveal_strlit("yuv444p");
    reveal_strlit("yuv444p10le");
    reveal_strlit("yuv444p12le");
    reveal_strlit("yuv444p16le");
    reveal_strlit("yuva420p");
    reveal_strlit("yuva444p");
    reveal_strlit("yuva444p10le");
    reveal_strlit("yuva444p12le");
    reveal_strlit("yuva444p16le");
    reveal_strlit("gbrp");
    reveal_strlit("gbrp10le");
    reveal_strlit("gbrp12le");
    reveal_strlit("gbrp16le");
    reveal_strlit("gbrap");
    reveal_strlit("gbrap10le");
    reveal_strlit("nv12");
    reveal_strlit("nv21");
    reveal_strlit("p010le");
    reveal_strlit("p016le");
    reveal_strlit("rgb24");
    reveal_strlit("bgr24");
    reveal_strlit("rgb0");
    reveal_strlit("bgr0");
    reveal_strlit("0rgb");
    reveal_strlit("0bgr");
    reveal_strlit("rgba");
    reveal_strlit("bgra");
    reveal_strlit("argb");
    reveal_strlit("abgr");
    reveal_strlit("yuyv422");
    reveal_strlit("uyvy422");
    if name == "gbrp"@ {
        assert("gbrp"@[1] != "gray"@[1]);
        assert("gbrp"@.len() != "gray16le"@.len());
        assert("gbrp"@.len() != "yuv420p"@.len());
        assert("gbrp"@.len() != "yuv420p10le"@.len());
        assert("gbrp"@.len() != "yuv420p12le"@.len());
        assert("gbrp"@.len() != "yuv420p14le"@.len());
        assert("gbrp"@.len() != "yuv420p16le"@.len());
        assert("gbrp"@.len() != "yuv422p"@.len());
        assert("gbrp"@.len() != "yuv422p10le"@.len());
        assert("gbrp"@.len() != "yuv422p12le"@.len());
        assert("gbrp"@.len() != "yuv422p16le"@.len());
        assert("gbrp"@.len() != "yuv444p"@.len());
        assert("gbrp"@.len() != "yuv444p10le"@.len());
        assert("gbrp"@.len() != "yuv444p12le"@.len());
        assert("gbrp"@.len() != "yuv444p16le"@.len());
        assert("gbrp"@.len() != "yuva420p"@.len());
        assert("gbrp"@.len() != "yuva444p"@.len());
        assert("gbrp"@.len() != "yuva444p10le"@.len());
        assert("gbrp"@.len() != "yuva444p12le"@.len());
        assert("gbrp"@.len() != "yuva444p16le"@.len());
        assert("gbrp"@.len() != "gbrp10le"@.len());
        assert("gbrp"@.len() != "gbrp12le"@.len());
        assert("gbrp"@.len() != "gbrp16le"@.len());
        assert("gbrp"@.len() != "gbrap"@.len());
        assert("gbrp"@.len() != "gbrap10le"@.len());
        assert("gbrp"@[0] != "nv12"@[0]);
        assert("gbrp"@[0] != "nv21"@[0]);
        assert("gbrp"@.len() != "p010le"@.len());
        assert("gbrp"@.len() != "p016le"@.len());
        assert("gbrp"@.len() != "rgb24"@.len());
        assert("gbrp"@.len() != "bgr24"@.len());
        assert("gbrp"@[0] != "rgb0"@[0]);
        assert("gbrp"@[0] != "bgr0"@[0]);
        assert("gbrp"@[0] != "0rgb"@[0]);
        assert("gbrp"@[0] != "0bgr"@[0]);
        assert("gbrp"@[0] != "rgba"@[0]);
        assert("gbrp"@[0] != "bgra"@[0]);
        assert("gbrp"@[0] != "argb"@[0]);
        assert("gbrp"@[0] != "abgr"@[0]);
        assert("gbrp"@.len() != "yuyv422"@.len());
        assert("gbrp"@.len() != "uyvy422"@.len());
    }
    if name == "gbrap"@ {
        assert("gbrap"@.len() != "gray"@.len());
        assert("gbrap"@.len() != "gray16le"@.len());
        assert("gbrap"@.len() != "yuv420p"@.len());
        assert("gbrap"@.len() != "yuv420p10le"@.len());
        assert("gbrap"@.len() != "yuv420p12le"@.len());
        assert("gbrap"@.len() != "yuv420p14le"@.len());
        assert("gbrap"@.len() != "yuv420p16le"@.len());
        assert("gbrap"@.len() != "yuv422p"@.len());
        assert("gbrap"@.len() != "yuv422p10le"@.len());
        assert("gbrap"@.len() != "yuv422p12le"@.len());
        assert("gbrap"@.len() != "yuv422p16le"@.len());
        assert("gbrap"@.len() != "yuv444p"@.len());
        assert("gbrap"@.len() != "yuv444p10le"@.len());
        assert("gbrap"@.len() != "yuv444p12le"@.len());
        assert("gbrap"@.len() != "yuv444p16le"@.len());
        assert("gbrap"@.len() != "yuva420p"@.len());
        assert("gbrap"@.len() != "yuva444p"@.len());
        assert("gbrap"@.len() != "yuva444p10le"@.len());
        assert("gbrap"@.len() != "yuva444p12le"@.len());
        assert("gbrap"@.len() != "yuva444p16le"@.len());
        assert("gbrap"@.len() != "gbrp"@.len());
        assert("gbrap"@.len() != "gbrp10le"@.len());
        assert("gbrap"@.len() != "gbrp12le"@.len());
        assert("gbrap"@.len() != "gbrp16le"@.len());
        assert("gbrap"@.len() != "gbrap10le"@.len());
        assert("gbrap"@.len() != "nv12"@.len());
        assert("gbrap"@.len() != "nv21"@.len());
        assert("gbrap"@.len() != "p010le"@.len());
        assert("gbrap"@.len() != "p016le"@.len());
        assert("gbrap"@[0] != "rgb24"@[0]);
        assert("gbrap"@[0] != "bgr24"@[0]);
        assert("gbrap"@.len() != "rgb0"@.len());
        assert("gbrap"@.len() != "bgr0"@.len());
        assert("gbrap"@.len() != "0rgb"@.len());
        assert("gbrap"@.len() != "0bgr"@.len());
        assert("gbrap"@.len() != "rgba"@.len());
        assert("gbrap"@.len() != "bgra"@.len());
        assert("gbrap"@.len() != "argb"@.len());
        assert("gbrap"@.len() != "abgr"@.len());
        assert("gbrap"@.len() != "yuyv422"@.len());
        assert("gbrap"@.len() != "uyvy422"@.len());
    }
    if name == "nv12"@ {
        assert("nv12"@[0] != "gray"@[0]);
        assert("nv12"@.len() != "gray16le"@.len());
        assert("nv12"@.len() != "yuv420p"@.len());
        assert("nv12"@.len() != "yuv420p10le"@.len());
        assert("nv12"@.len() != "yuv420p12le"@.len());
        assert("nv12"@.len() != "yuv420p14le"@.len());
        assert("nv12"@.len() != "yuv420p16le"@.len());
        assert("nv12"@.len() != "yuv422p"@.len());
        assert("nv12"@.len() != "yuv422p10le"@.len());
        assert("nv12"@.len() != "yuv422p12le"@.len());
        assert("nv12"@.len() != "yuv422p16le"@.len());
        assert("nv12"@.len() != "yuv444p"@.len());
        assert("nv12"@.len() != "yuv444p10le"@.len());
        assert("nv12"@.len() != "yuv444p12le"@.len());
        assert("nv12"@.len() != "yuv444p16le"@.len());
        assert("nv12"@.len() != "yuva420p"@.len());
        assert("nv12"@.len() != "yuva444p"@.len());
        assert("nv12"@.len() != "yuva444p10le"@.len());
        assert("nv12"@.len() != "yuva444p12le"@.len());
        assert("nv12"@.len() != "yuva444p16le"@.len());
        assert("nv12"@[0] != "gbrp"@[0]);
        assert("nv12"@.len() != "gbrp10le"@.len());
        assert("nv12"@.len() != "gbrp12le"@.len());
        assert("nv12"@.len() != "gbrp16le"@.len());
        assert("nv12"@.len() != "gbrap"@.len());
        assert("nv12"@.len() != "gbrap10le"@.len());
        assert("nv12"@[2] != "nv21"@[2]);
        assert("nv12"@.len() != "p010le"@.len());
        assert("nv12"@.len() != "p016le"@.len());
        assert("nv12"@.len() != "rgb24"@.len());
        assert("nv12"@.len() != "bgr24"@.len());
        assert("nv12"@[0] != "rgb0"@[0]);
        assert("nv12"@[0] != "bgr0"@[0]);
        assert("nv12"@[0] != "0rgb"@[0]);
        assert("nv12"@[0] != "0bgr"@[0]);
        assert("nv12"@[0] != "rgba"@[0]);
        assert("nv12"@[0] != "bgra"@[0]);
        assert("nv12"@[0] != "argb"@[0]);
        assert("nv12"@[0] != "abgr"@[0]);
        assert("nv12"@.len() != "yuyv422"@.len());
        assert("nv12"@.len() != "uyvy422"@.len());
    }
    if name == "nv21"@ {
        assert("nv21"@[0] != "gray"@[0]);
        assert("nv21"@.len() != "gray16le"@.len());
        assert("nv21"@.len() != "yuv420p"@.len());
        assert("nv21"@.len() != "yuv420p10le"@.len());
        assert("nv21"@.len() != "yuv420p12le"@.len());
        assert("nv21"@.len() != "yuv420p14le"@.len());
        assert("nv21"@.len() != "yuv420p16le"@.len());
        assert("nv21"@.len() != "yuv422p"@.len());
        assert("nv21"@.len() != "yuv422p10le"@.len());
        assert("nv21"@.len() != "yuv422p12le"@.len());
        assert("nv21"@.len() != "yuv422p16le"@.len());
        assert("nv21"@.len() != "yuv444p"@.len());
        assert("nv21"@.len() != "yuv444p10le"@.len());
        assert("nv21"@.len() != "yuv444p12le"@.len());
        assert("nv21"@.len() != "yuv444p16le"@.len());
        assert("nv21"@.len() != "yuva420p"@.len());
        assert("nv21"@.len() != "yuva444p"@.len());
        assert("nv21"@.len() != "yuva444p10le"@.len());
        assert("nv21"@.len() != "yuva444p12le"@.len());
        assert("nv21"@.len() != "yuva444p16le"@.len());
        assert("nv21"@[0] != "gbrp"@[0]);
        assert("nv21"@.len() != "gbrp10le"@.len());
        assert("nv21"@.len() != "gbrp12le"@.len());
        assert("nv21"@.len() != "gbrp16le"@.len());
        assert("nv21"@.len() != "gbrap"@.len());
        assert("nv21"@.len() != "gbrap10le"@.len());
        assert("nv21"@[2] != "nv12"@[2]);
        assert("nv21"@.len() != "p010le"@.len());
        assert("nv21"@.len() != "p016le"@.len());
        assert("nv21"@.len() != "rgb24"@.len());
        assert("nv21"@.len() != "bgr24"@.len());
        assert("nv21"@[0] != "rgb0"@[0]);
        assert("nv21"@[0] != "bgr0"@[0]);
        assert("nv21"@[0] != "0rgb"@[0]);
        assert("nv21"@[0] != "0bgr"@[0]);
        assert("nv21"@[0] != "rgba"@[0]);
        assert("nv21"@[0] != "bgra"@[0]);
        assert("nv21"@[0] != "argb"@[0]);
        assert("nv21"@[0] != "abgr"@[0]);
        assert("nv21"@.len() != "yuyv422"@.len());
        assert("nv21"@.len() != "uyvy422"@.len());
    }
    if name == "rgb24"@ {
        assert("rgb24"@.len() != "gray"@.len());
        assert("rgb24"@.len() != "gray16le"@.len());
        assert("rgb24"@.len() != "yuv420p"@.len());
        assert("rgb24"@.len() != "yuv420p10le"@.len());
        assert("rgb24"@.len() != "yuv420p12le"@.len());
        assert("rgb24"@.len() != "yuv420p14le"@.len());
        assert("rgb24"@.len() != "yuv420p16le"@.len());
        assert("rgb24"@.len() != "yuv422p"@.len());
        assert("rgb24"@.len() != "yuv422p10le"@.len());
        assert("rgb24"@.len() != "yuv422p12le"@.len());
        assert("rgb24"@.len() != "yuv422p16le"@.len());
        assert("rgb24"@.len() != "yuv444p"@.len());
        assert("rgb24"@.len() != "yuv444p10le"@.len());
        assert("rgb24"@.len() != "yuv444p12le"@.len());
        assert("rgb24"@.len() != "yuv444p16le"@.len());
        assert("rgb24"@.len() != "yuva420p"@.len());
        assert("rgb24"@.len() != "yuva444p"@.len());
        assert("rgb24"@.len() != "yuva444p10le"@.len());
        assert("rgb24"@.len() != "yuva444p12le"@.len());
        assert("rgb24"@.len() != "yuva444p16le"@.len());
        assert("rgb24"@.len() != "gbrp"@.len());
        assert("rgb24"@.len() != "gbrp10le"@.len());
        assert("rgb24"@.len() != "gbrp12le"@.len());
        assert("rgb24"@.len() != "gbrp16le"@.len());
        assert("rgb24"@[0] != "gbrap"@[0]);
        assert("rgb24"@.len() != "gbrap10le"@.len());
        assert("rgb24"@.len() != "nv12"@.len());
        assert("rgb24"@.len() != "nv21"@.len());
        assert("rgb24"@.len() != "p010le"@.len());
        assert("rgb24"@.len() != "p016le"@.len());
        assert("rgb24"@[0] != "bgr24"@[0]);
        assert("rgb24"@.len() != "rgb0"@.len());
        assert("rgb24"@.len() != "bgr0"@.len());
        assert("rgb24"@.len() != "0rgb"@.len());
        assert("rgb24"@.len() != "0bgr"@.len());
        assert("rgb24"@.len() != "rgba"@.len());
        assert("rgb24"@.len() != "bgra"@.len());
        assert("rgb24"@.len() != "argb"@.len());
        assert("rgb24"@.len() != "abgr"@.len());
        assert("rgb24"@.len() != "yuyv422"@.len());
        assert("rgb24"@.len() != "uyvy422"@.len());
    }
    if name == "bgr24"@ {
        assert("bgr24"@.len() != "gray"@.len());
        assert("bgr24"@.len() != "gray16le"@.len());
        assert("bgr24"@.len() != "yuv420p"@.len());
        assert("bgr24"@.len() != "yuv420p10le"@.len());
        assert("bgr24"@.len() != "yuv420p12le"@.len());
        assert("bgr24"@.len() != "yuv420p14le"@.len());
        assert("bgr24"@.len() != "yuv420p16le"@.len());
        assert("bgr24"@.len() != "yuv422p"@.len());
        assert("bgr24"@.len() != "yuv422p10le"@.len());
        assert("bgr24"@.len() != "yuv422p12le"@.len());
        assert("bgr24"@.len() != "yuv422p16le"@.len());
        assert("bgr24"@.len() != "yuv444p"@.len());
        assert("bgr24"@.len() != "yuv444p10le"@.len());
        assert("bgr24"@.len() != "yuv444p12le"@.len());
        assert("bgr24"@.len() != "yuv444p16le"@.len());
        assert("bgr24"@.len() != "yuva420p"@.len());
        assert("bgr24"@.len() != "yuva444p"@.len());
        assert("bgr24"@.len() != "yuva444p10le"@.len());
        assert("bgr24"@.len() != "yuva444p12le"@.len());
        assert("bgr24"@.len() != "yuva444p16le"@.len());
        assert("bgr24"@.len() != "gbrp"@.len());
        assert("bgr24"@.len() != "gbrp10le"@.len());
        assert("bgr24"@.len() != "gbrp12le"@.len());
        assert("bgr24"@.len() != "gbrp16le"@.len());
        assert("bgr24"@[0] != "gbrap"@[0]);
        assert("bgr24"@.len() != "gbrap10le"@.len());
        assert("bgr24"@.len() != "nv12"@.len());
        assert("bgr24"@.len() != "nv21"@.len());
        assert("bgr24"@.len() != "p010le"@.len());
        assert("bgr24"@.len() != "p016le"@.len());
        assert("bgr24"@[0] != "rgb24"@[0]);
        assert("bgr24"@.len() != "rgb0"@.len());
        assert("bgr24"@.len() != "bgr0"@.len());
        assert("bgr24"@.len() != "0rgb"@.len());
        assert("bgr24"@.len() != "0bgr"@.len());
        assert("bgr24"@.len() != "rgba"@.len());
        assert("bgr24"@.len() != "bgra"@.len());
        assert("bgr24"@.len() != "argb"@.len());
        assert("bgr24"@.len() != "abgr"@.len());
        assert("bgr24"@.len() != "yuyv422"@.len());
        assert("bgr24"@.len() != "uyvy422"@.len());
    }
    if name == "rgb0"@ {
        assert("rgb0"@[0] != "gray"@[0]);
        assert("rgb0"@.len() != "gray16le"@.len());
        assert("rgb0"@.len() != "yuv420p"@.len());
        assert("rgb0"@.len() != "yuv420p10le"@.len());
        assert("rgb0"@.len() != "yuv420p12le"@.len());
        assert("rgb0"@.len() != "yuv420p14le"@.len());
        assert("rgb0"@.len() != "yuv420p16le"@.len());
        assert("rgb0"@.len() != "yuv422p"@.len());
        assert("rgb0"@.len() != "yuv422p10le"@.len());
        assert("rgb0"@.len() != "yuv422p12le"@.len());
        assert("rgb0"@.len() != "yuv422p16le"@.len());
        assert("rgb0"@.len() != "yuv444p"@.len());
        assert("rgb0"@.len() != "yuv444p10le"@.len());
        assert("rgb0"@.len() != "yuv444p12le"@.len());
        assert("rgb0"@.len() != "yuv444p16le"@.len());
        assert("rgb0"@.len() != "yuva420p"@.len());
        assert("rgb0"@.len() != "yuva444p"@.len());
        assert("rgb0"@.len() != "yuva444p10le"@.len());
        assert("rgb0"@.len() != "yuva444p12le"@.len());
        assert("rgb0"@.len() != "yuva444p16le"@.len());
        assert("rgb0"@[0] != "gbrp"@[0]);
        assert("rgb0"@.len() != "gbrp10le"@.len());
        assert("rgb0"@.len() != "gbrp12le"@.len());
        assert("rgb0"@.len() != "gbrp16le"@.len());
        assert("rgb0"@.len() != "gbrap"@.len());
        assert("rgb0"@.len() != "gbrap10le"@.len());
        assert("rgb0"@[0] != "nv12"@[0]);
        assert("rgb0"@[0] != "nv21"@[0]);
        assert("rgb0"@.len() != "p010le"@.len());
        assert("rgb0"@.len() != "p016le"@.len());
        assert("rgb0"@.len() != "rgb24"@.len());
        assert("rgb0"@.len() != "bgr24"@.len());
        assert("rgb0"@[0] != "bgr0"@[0]);
        assert("rgb0"@[0] != "0rgb"@[0]);
        assert("rgb0"@[0] != "0bgr"@[0]);
        assert("rgb0"@[3] != "rgba"@[3]);
        assert("rgb0"@[0] != "bgra"@[0]);
        assert("rgb0"@[0] != "argb"@[0]);
        assert("rgb0"@[0] != "abgr"@[0]);
        assert("rgb0"@.len() != "yuyv422"@.len());
        assert("rgb0"@.len() != "uyvy422"@.len());
    }
    if name == "bgr0"@ {
        assert("bgr0"@[0] != "gray"@[0]);
        assert("bgr0"@.len() != "gray16le"@.len());
        assert("bgr0"@.len() != "yuv420p"@.len());
        assert("bgr0"@.len() != "yuv420p10le"@.len());
        assert("bgr0"@.len() != "yuv420p12le"@.len());
        assert("bgr0"@.len() != "yuv420p14le"@.len());
        assert("bgr0"@.len() != "yuv420p16le"@.len());
        assert("bgr0"@.len() != "yuv422p"@.len());
        assert("bgr0"@.len() != "yuv422p10le"@.len());
        assert("bgr0"@.len() != "yuv422p12le"@.len());
        assert("bgr0"@.len() != "yuv422p16le"@.len());
        assert("bgr0"@.len() != "yuv444p"@.len());
        assert("bgr0"@.len() != "yuv444p10le"@.len());
        assert("bgr0"@.len() != "yuv444p12le"@.len());
        assert("bgr0"@.len() != "yuv444p16le"@.len());
        assert("bgr0"@.len() != "yuva420p"@.len());
        assert("bgr0"@.len() != "yuva444p"@.len());
        assert("bgr0"@.len() != "yuva444p10le"@.len());
        assert("bgr0"@.len() != "yuva444p12le"@.len());
        assert("bgr0"@.len() != "yuva444p16le"@.len());
        assert("bgr0"@[0] != "gbrp"@[0]);
        assert("bgr0"@.len() != "gbrp10le"@.len());
        assert("bgr0"@.len() != "gbrp12le"@.len());
        assert("bgr0"@.len() != "gbrp16le"@.len());
        assert("bgr0"@.len() != "gbrap"@.len());
        assert("bgr0"@.len() != "gbrap10le"@.len());
        assert("bgr0"@[0] != "nv12"@[0]);
        assert("bgr0"@[0] != "nv21"@[0]);
        assert("bgr0"@.len() != "p010le"@.len());
        assert("bgr0"@.len() != "p016le"@.len());
        assert("bgr0"@.len() != "rgb24"@.len());
        assert("bgr0"@.len() != "bgr24"@.len());
        assert("bgr0"@[0] != "rgb0"@[0]);
        assert("bgr0"@[0] != "0rgb"@[0]);
        assert("bgr0"@[0] != "0bgr"@[0]);
        assert("bgr0"@[0] != "rgba"@[0]);
        assert("bgr0"@[3] != "bgra"@[3]);
        assert("bgr0"@[0] != "argb"@[0]);
        assert("bgr0"@[0] != "abgr"@[0]);
        assert("bgr0"@.len() != "yuyv422"@.len());
        assert("bgr0"@.len() != "uyvy422"@.len());
    }
    if name == "0rgb"@ {
        assert("0rgb"@[0] != "gray"@[0]);
        assert("0rgb"@.len() != "gray16le"@.len());
        assert("0rgb"@.len() != "yuv420p"@.len());
        assert("0rgb"@.len() != "yuv420p10le"@.len());
        assert("0rgb"@.len() != "yuv420p12le"@.len());
        assert("0rgb"@.len() != "yuv420p14le"@.len());
        assert("0rgb"@.len() != "yuv420p16le"@.len());
        assert("0rgb"@.len() != "yuv422p"@.len());
        assert("0rgb"@.len() != "yuv422p10le"@.len());
        assert("0rgb"@.len() != "yuv422p12le"@.len());
        assert("0rgb"@.len() != "yuv422p16le"@.len());
        assert("0rgb"@.len() != "yuv444p"@.len());
        assert("0rgb"@.len() != "yuv444p10le"@.len());
        assert("0rgb"@.len() != "yuv444p12le"@.len());
        assert("0rgb"@.len() != "yuv444p16le"@.len());
        assert("0rgb"@.len() != "yuva420p"@.len());
        assert("0rgb"@.len() != "yuva444p"@.len());
        assert("0rgb"@.len() != "yuva444p10le"@.len());
        assert("0rgb"@.len() != "yuva444p12le"@.len());
        assert("0rgb"@.len() != "yuva444p16le"@.len());
        assert("0rgb"@[0] != "gbrp"@[0]);
        assert("0rgb"@.len() != "gbrp10le"@.len());
        assert("0rgb"@.len() != "gbrp12le"@.len());
        assert("0rgb"@.len() != "gbrp16le"@.len());
        assert("0rgb"@.len() != "gbrap"@.len());
        assert("0rgb"@.len() != "gbrap10le"@.len());
        assert("0rgb"@[0] != "nv12"@[0]);
        assert("0rgb"@[0] != "nv21"@[0]);
        assert("0rgb"@.len() != "p010le"@.len());
        assert("0rgb"@.len() != "p016le"@.len());
        assert("0rgb"@.len() != "rgb24"@.len());
        assert("0rgb"@.len() != "bgr24"@.len());
        assert("0rgb"@[0] != "rgb0"@[0]);
        assert("0rgb"@[0] != "bgr0"@[0]);
        assert("0rgb"@[1] != "0bgr"@[1]);
        assert("0rgb"@[0] != "rgba"@[0]);
        assert("0rgb"@[0] != "bgra"@[0]);
        assert("0rgb"@[0] != "argb"@[0]);
        assert("0rgb"@[0] != "abgr"@[0]);
        assert("0rgb"@.len() != "yuyv422"@.len());
        assert("0rgb"@.len() != "uyvy422"@.len());
    }
    if name == "0bgr"@ {
        assert("0bgr"@[0] != "gray"@[0]);
        assert("0bgr"@.len() != "gray16le"@.len());
        assert("0bgr"@.len() != "yuv420p"@.len());
        assert("0bgr"@.len() != "yuv420p10le"@.len());
        assert("0bgr"@.len() != "yuv420p12le"@.len());
        assert("0bgr"@.len() != "yuv420p14le"@.len());
        assert("0bgr"@.len() != "yuv420p16le"@.len());
        assert("0bgr"@.len() != "yuv422p"@.len());
        assert("0bgr"@.len() != "yuv422p10le"@.len());
        assert("0bgr"@.len() != "yuv422p12le"@.len());
        assert("0bgr"@.len() != "yuv422p16le"@.len());
        assert("0bgr"@.len() != "yuv444p"@.len());
        assert("0bgr"@.len() != "yuv444p10le"@.len());
        assert("0bgr"@.len() != "yuv444p12le"@.len());
        assert("0bgr"@.len() != "yuv444p16le"@.len());
        assert("0bgr"@.len() != "yuva420p"@.len());
        assert("0bgr"@.len() != "yuva444p"@.len());
        assert("0bgr"@.len() != "yuva444p10le"@.len());
        assert("0bgr"@.len() != "yuva444p12le"@.len());
        assert("0bgr"@.len() != "yuva444p16le"@.len());
        assert("0bgr"@[0] != "gbrp"@[0]);
        assert("0bgr"@.len() != "gbrp10le"@.len());
        assert("0bgr"@.len() != "gbrp12le"@.len());
        assert("0bgr"@.len() != "gbrp16le"@.len());
        assert("0bgr"@.len() != "gbrap"@.len());
        assert("0bgr"@.len() != "gbrap10le"@.len());
        assert("0bgr"@[0] != "nv12"@[0]);
        assert("0bgr"@[0] != "nv21"@[0]);
        assert("0bgr"@.len() != "p010le"@.len());
        assert("0bgr"@.len() != "p016le"@.len());
        assert("0bgr"@.len() != "rgb24"@.len());
        assert("0bgr"@.len() != "bgr24"@.len());
        assert("0bgr"@[0] != "rgb0"@[0]);
        assert("0bgr"@[0] != "bgr0"@[0]);
        assert("0bgr"@[1] != "0rgb"@[1]);
        assert("0bgr"@[0] != "rgba"@[0]);
        assert("0bgr"@[0] != "bgra"@[0]);
        assert("0bgr"@[0] != "argb"@[0]);
        assert("0bgr"@[0] != "abgr"@[0]);
        assert("0bgr"@.len() != "yuyv422"@.len());
        assert("0bgr"@.len() != "uyvy422"@.len());
    }
    if name == "rgba"@ {
        assert("rgba"@[0] != "gray"@[0]);
        assert("rgba"@.len() != "gray16le"@.len());
        assert("rgba"@.len() != "yuv420p"@.len());
        assert("rgba"@.len() != "yuv420p10le"@.len());
        assert("rgba"@.len() != "yuv420p12le"@.len());
        assert("rgba"@.len() != "yuv420p14le"@.len());
        assert("rgba"@.len() != "yuv420p16le"@.len());
        assert("rgba"@.len() != "yuv422p"@.len());
        assert("rgba"@.len() != "yuv422p10le"@.len());
        assert("rgba"@.len() != "yuv422p12le"@.len());
        assert("rgba"@.len() != "yuv422p16le"@.len());
        assert("rgba"@.len() != "yuv444p"@.len());
        assert("rgba"@.len() != "yuv444p10le"@.len());
        assert("rgba"@.len() != "yuv444p12le"@.len());
        assert("rgba"@.len() != "yuv444p16le"@.len());
        assert("rgba"@.len() != "yuva420p"@.len());
        assert("rgba"@.len() != "yuva444p"@.len());
        assert("rgba"@.len() != "yuva444p10le"@.len());
        assert("rgba"@.len() != "yuva444p12le"@.len());
        assert("rgba"@.len() != "yuva444p16le"@.len());
        assert("rgba"@[0] != "gbrp"@[0]);
        assert("rgba"@.len() != "gbrp10le"@.len());
        assert("rgba"@.len() != "gbrp12le"@.len());
        assert("rgba"@.len() != "gbrp16le"@.len());
        assert("rgba"@.len() != "gbrap"@.len());
        assert("rgba"@.len() != "gbrap10le"@.len());
        assert("rgba"@[0] != "nv12"@[0]);
        assert("rgba"@[0] != "nv21"@[0]);
        assert("rgba"@.len() != "p010le"@.len());
        assert("rgba"@.len() != "p016le"@.len());
        assert("rgba"@.len() != "rgb24"@.len());
        assert("rgba"@.len() != "bgr24"@.len());
        assert("rgba"@[3] != "rgb0"@[3]);
        assert("rgba"@[0] != "bgr0"@[0]);
        assert("rgba"@[0] != "0rgb"@[0]);
        assert("rgba"@[0] != "0bgr"@[0]);
        assert("rgba"@[0] != "bgra"@[0]);
        assert("rgba"@[0] != "argb"@[0]);
        assert("rgba"@[0] != "abgr"@[0]);
        assert("rgba"@.len() != "yuyv422"@.len());
        assert("rgba"@.len() != "uyvy422"@.len());
    }
    if name == "bgra"@ {
        assert("bgra"@[0] != "gray"@[0]);
        assert("bgra"@.len() != "gray16le"@.len());
        assert("bgra"@.len() != "yuv420p"@.len());
        assert("bgra"@.len() != "yuv420p10le"@.len());
        assert("bgra"@.len() != "yuv420p12le"@.len());
        assert("bgra"@.len() != "yuv420p14le"@.len());
        assert("bgra"@.len() != "yuv420p16le"@.len());
        assert("bgra"@.len() != "yuv422p"@.len());
        assert("bgra"@.len() != "yuv422p10le"@.len());
        assert("bgra"@.len() != "yuv422p12le"@.len());
        assert("bgra"@.len() != "yuv422p16le"@.len());
        assert("bgra"@.len() != "yuv444p"@.len());
        assert("bgra"@.len() != "yuv444p10le"@.len());
        assert("bgra"@.len() != "yuv444p12le"@.len());
        assert("bgra"@.len() != "yuv444p16le"@.len());
        assert("bgra"@.len() != "yuva420p"@.len());
        assert("bgra"@.len() != "yuva444p"@.len());
        assert("bgra"@.len() != "yuva444p10le"@.len());
        assert("bgra"@.len() != "yuva444p12le"@.len());
        assert("bgra"@.len() != "yuva444p16le"@.len());
        assert("bgra"@[0] != "gbrp"@[0]);
        assert("bgra"@.len() != "gbrp10le"@.len());
        assert("bgra"@.len() != "gbrp12le"@.len());
        assert("bgra"@.len() != "gbrp16le"@.len());
        assert("bgra"@.len() != "gbrap"@.len());
        assert("bgra"@.len() != "gbrap10le"@.len());
        assert("bgra"@[0] != "nv12"@[0]);
        assert("bgra"@[0] != "nv21"@[0]);
        assert("bgra"@.len() != "p010le"@.len());
        assert("bgra"@.len() != "p016le"@.len());
        assert("bgra"@.len() != "rgb24"@.len());
        assert("bgra"@.len() != "bgr24"@.len());
        assert("bgra"@[0] != "rgb0"@[0]);
        assert("bgra"@[3] != "bgr0"@[3]);
        assert("bgra"@[0] != "0rgb"@[0]);
        assert("bgra"@[0] != "0bgr"@[0]);
        assert("bgra"@[0] != "rgba"@[0]);
        assert("bgra"@[0] != "argb"@[0]);
        assert("bgra"@[0] != "abgr"@[0]);
        assert("bgra"@.len() != "yuyv422"@.len());
        assert("bgra"@.len() != "uyvy422"@.len());
    }
    if name == "argb"@ {
        assert("argb"@[0] != "gray"@[0]);
        assert("argb"@.len() != "gray16le"@.len());
        assert("argb"@.len() != "yuv420p"@.len());
        assert("argb"@.len() != "yuv420p10le"@.len());
        assert("argb"@.len() != "yuv420p12le"@.len());
        assert("argb"@.len() != "yuv420p14le"@.len());
        assert("argb"@.len() != "yuv420p16le"@.len());
        assert("argb"@.len() != "yuv422p"@.len());
        assert("argb"@.len() != "yuv422p10le"@.len());
        assert("argb"@.len() != "yuv422p12le"@.len());
        assert("argb"@.len() != "yuv422p16le"@.len());
        assert("argb"@.len() != "yuv444p"@.len());
        assert("argb"@.len() != "yuv444p10le"@.len());
        assert("argb"@.len() != "yuv444p12le"@.len());
        assert("argb"@.len() != "yuv444p16le"@.len());
        assert("argb"@.len() != "yuva420p"@.len());
        assert("argb"@.len() != "yuva444p"@.len());
        assert("argb"@.len() != "yuva444p10le"@.len());
        assert("argb"@.len() != "yuva444p12le"@.len());
        assert("argb"@.len() != "yuva444p16le"@.len());
        assert("argb"@[0] != "gbrp"@[0]);
        assert("argb"@.len() != "gbrp10le"@.len());
        assert("argb"@.len() != "gbrp12le"@.len());
        assert("argb"@.len() != "gbrp16le"@.len());
        assert("argb"@.len() != "gbrap"@.len());
        assert("argb"@.len() != "gbrap10le"@.len());
        assert("argb"@[0] != "nv12"@[0]);
        assert("argb"@[0] != "nv21"@[0]);
        assert("argb"@.len() != "p010le"@.len());
        assert("argb"@.len() != "p016le"@.len());
        assert("argb"@.len() != "rgb24"@.len());
        assert("argb"@.len() != "bgr24"@.len());
        assert("argb"@[0] != "rgb0"@[0]);
        assert("argb"@[0] != "bgr0"@[0]);
        assert("argb"@[0] != "0rgb"@[0]);
        assert("argb"@[0] != "0bgr"@[0]);
        assert("argb"@[0] != "rgba"@[0]);
        assert("argb"@[0] != "bgra"@[0]);
        assert("argb"@[1] != "abgr"@[1]);
        assert("argb"@.len() != "yuyv422"@.len());
        assert("argb"@.len() != "uyvy422"@.len());
    }
    if name == "abgr"@ {
        assert("abgr"@[0] != "gray"@[0]);
        assert("abgr"@.len() != "gray16le"@.len());
        assert("abgr"@.len() != "yuv420p"@.len());
        assert("abgr"@.len() != "yuv420p10le"@.len());
        assert("abgr"@.len() != "yuv420p12le"@.len());
        assert("abgr"@.len() != "yuv420p14le"@.len());
        assert("abgr"@.len() != "yuv420p16le"@.len());
        assert("abgr"@.len() != "yuv422p"@.len());
        assert("abgr"@.len() != "yuv422p10le"@.len());
        assert("abgr"@.len() != "yuv422p12le"@.len());
        assert("abgr"@.len() != "yuv422p16le"@.len());
        assert("abgr"@.len() != "yuv444p"@.len());
        assert("abgr"@.len() != "yuv444p10le"@.len());
        assert("abgr"@.len() != "yuv444p12le"@.len());
        assert("abgr"@.len() != "yuv444p16le"@.len());
        assert("abgr"@.len() != "yuva420p"@.len());
        assert("abgr"@.len() != "yuva444p"@.len());
        assert("abgr"@.len() != "yuva444p10le"@.len());
        assert("abgr"@.len() != "yuva444p12le"@.len());
        assert("abgr"@.len() != "yuva444p16le"@.len());
        assert("abgr"@[0] != "gbrp"@[0]);
        assert("abgr"@.len() != "gbrp10le"@.len());
        assert("abgr"@.len() != "gbrp12le"@.len());
        assert("abgr"@.len() != "gbrp16le"@.len());
        assert("abgr"@.len() != "gbrap"@.len());
        assert("abgr"@.len() != "gbrap10le"@.len());
        assert("abgr"@[0] != "nv12"@[0]);
        assert("abgr"@[0] != "nv21"@[0]);
        assert("abgr"@.len() != "p010le"@.len());
        assert("abgr"@.len() != "p016le"@.len());
        assert("abgr"@.len() != "rgb24"@.len());
        assert("abgr"@.len() != "bgr24"@.len());
        assert("abgr"@[0] != "rgb0"@[0]);
        assert("abgr"@[0] != "bgr0"@[0]);
        assert("abgr"@[0] != "0rgb"@[0]);
        assert("abgr"@[0] != "0bgr"@[0]);
        assert("abgr"@[0] != "rgba"@[0]);
        assert("abgr"@[0] != "bgra"@[0]);
        assert("abgr"@[1] != "argb"@[1]);
        assert("abgr"@.len() != "yuyv422"@.len());
        assert("abgr"@.len() != "uyvy422"@.len());
    }
    if name == "yuyv422"@ {
        assert("yuyv422"@.len() != "gray"@.len());
        assert("yuyv422"@.len() != "gray16le"@.len());
        assert("yuyv422"@[2] != "yuv420p"@[2]);
        assert("yuyv422"@.len() != "yuv420p10le"@.len());
        assert("yuyv422"@.len() != "yuv420p12le"@.len());
        assert("yuyv422"@.len() != "yuv420p14le"@.len());
        assert("yuyv422"@.len() != "yuv420p16le"@.len());
        assert("yuyv422"@[2] != "yuv422p"@[2]);
        assert("yuyv422"@.len() != "yuv422p10le"@.len());
        assert("yuyv422"@.len() != "yuv422p12le"@.len());
        assert("yuyv422"@.len() != "yuv422p16le"@.len());
        assert("yuyv422"@[2] != "yuv444p"@[2]);
        assert("yuyv422"@.len() != "yuv444p10le"@.len());
        assert("yuyv422"@.len() != "yuv444p12le"@.len());
        assert("yuyv422"@.len() != "yuv444p16le"@.len());
        assert("yuyv422"@.len() != "yuva420p"@.len());
        assert("yuyv422"@.len() != "yuva444p"@.len());
        assert("yuyv422"@.len() != "yuva444p10le"@.len());
        assert("yuyv422"@.len() != "yuva444p12le"@.len());
        assert("yuyv422"@.len() != "yuva444p16le"@.len());
        assert("yuyv422"@.len() != "gbrp"@.len());
        assert("yuyv422"@.len() != "gbrp10le"@.len());
        assert("yuyv422"@.len() != "gbrp12le"@.len());
        assert("yuyv422"@.len() != "gbrp16le"@.len());
        assert("yuyv422"@.len() != "gbrap"@.len());
        assert("yuyv422"@.len() != "gbrap10le"@.len());
        assert("yuyv422"@.len() != "nv12"@.len());
        assert("yuyv422"@.len() != "nv21"@.len());
        assert("yuyv422"@.len() != "p010le"@.len());
        assert("yuyv422"@.len() != "p016le"@.len());
        assert("yuyv422"@.len() != "rgb24"@.len());
        assert("yuyv422"@.len() != "bgr24"@.len());
        assert("yuyv422"@.len() != "rgb0"@.len());
        assert("yuyv422"@.len() != "bgr0"@.len());
        assert("yuyv422"@.len() != "0rgb"@.len());
        assert("yuyv422"@.len() != "0bgr"@.len());
        assert("yuyv422"@.len() != "rgba"@.len());
        assert("yuyv422"@.len() != "bgra"@.len());
        assert("yuyv422"@.len() != "argb"@.len());
        assert("yuyv422"@.len() != "abgr"@.len());
        assert("yuyv422"@[0] != "uyvy422"@[0]);
    }
    if name == "uyvy422"@ {
        assert("uyvy422"@.len() != "gray"@.len());
        assert("uyvy422"@.len() != "gray16le"@.len());
        assert("uyvy422"@[0] != "yuv420p"@[0]);
        assert("uyvy422"@.len() != "yuv420p10le"@.len());
        assert("uyvy422"@.len() != "yuv420p12le"@.len());
        assert("uyvy422"@.len() != "yuv420p14le"@.len());
        assert("uyvy422"@.len() != "yuv420p16le"@.len());
        assert("uyvy422"@[0] != "yuv422p"@[0]);
        assert("uyvy422"@.len() != "yuv422p10le"@.len());
        assert("uyvy422"@.len() != "yuv422p12le"@.len());
        assert("uyvy422"@.len() != "yuv422p16le"@.len());
        assert("uyvy422"@[0] != "yuv444p"@[0]);
        assert("uyvy422"@.len() != "yuv444p10le"@.len());
        assert("uyvy422"@.len() != "yuv444p12le"@.len());
        assert("uyvy422"@.len() != "yuv444p16le"@.len());
        assert("uyvy422"@.len() != "yuva420p"@.len());
        assert("uyvy422"@.len() != "yuva444p"@.len());
        assert("uyvy422"@.len() != "yuva444p10le"@.len());
        assert("uyvy422"@.len() != "yuva444p12le"@.len());
        assert("uyvy422"@.len() != "yuva444p16le"@.len());
        assert("uyvy422"@.len() != "gbrp"@.len());
        assert("uyvy422"@.len() != "gbrp10le"@.len());
        assert("uyvy422"@.len() != "gbrp12le"@.len());
        assert("uyvy422"@.len() != "gbrp16le"@.len());
        assert("uyvy422"@.len() != "gbrap"@.len());
        assert("uyvy422"@.len() != "gbrap10le"@.len());
        assert("uyvy422"@.len() != "nv12"@.len());
        assert("uyvy422"@.len() != "nv21"@.len());
        assert("uyvy422"@.len() != "p010le"@.len());
        assert("uyvy422"@.len() != "p016le"@.len());
        assert("uyvy422"@.len() != "rgb24"@.len());
        assert("uyvy422"@.len() != "bgr24"@.len());
        assert("uyvy422"@.len() != "rgb0"@.len());
        assert("uyvy422"@.len() != "bgr0"@.len());
        assert("uyvy422"@.len() != "0rgb"@.len());
        assert("uyvy422"@.len() != "0bgr"@.len());
        assert("uyvy422"@.len() != "rgba"@.len());
        assert("uyvy422"@.len() != "bgra"@.len());
        assert("uyvy422"@.len() != "argb"@.len());
        assert("uyvy422"@.len() != "abgr"@.len());
        assert("uyvy422"@[0] != "yuyv422"@[0]);
    }
}

/// Unpacking reads each canonical plane from where FFmpeg stores its
/// component: for every format with a fixed storage pattern, sample `k` of
/// the unpacked plane carrying component `c` is the payload byte at
/// [`stored_at`] of that format name, `c` and `k`; and every plane's
/// component is one the format's name stores.
pub proof fn law_stored_components(name: Seq<char>, w: u64, h: u64, payload: Seq<u8>, planes: Seq<Plane>, p: int, k: nat)
    requires
        fixed_pattern_name(name),
        source_format(name) matches Some(f) && planes.len() == nplanes(f) && forall|q: int|
            0 <= q < planes.len() ==> unpacked_plane(f, w, h, q, #[trigger] planes[q], payload),
        0 <= p < planes.len(),
        k < planes[p].samples().len(),
    ensures
        stored_at(name, planes[p].comp(), w as nat, h as nat, k) matches Some(pos) && planes[p].samples()[k as int]
            == payload[pos as int] as u32,
{
    lemma_format_names_distinct(name);
    let f = source_format(name)->0;
    assert(unpacked_plane(f, w, h, p, planes[p], payload));
    assert(src_pos(f, w as nat, h as nat, p, k) == src_base(f, w as nat, h as nat, p) + k * src_step(f, p));
    assert(sample_bytes(f.depth) == 1);
    let wh = (w as nat) * (h as nat);
    assert(k * 1 == k && k * 2 == 2 * k && wh * 1 == wh && 0 * wh == 0 && 1 * wh == wh) by (nonlinear_arith);
    assert(2 * wh * 1 == 2 * wh && 3 * wh * 1 == 3 * wh) by (nonlinear_arith);
    if name == "rgb24"@ {
        assert(f == SourceFormat { layout: PixelLayout::Rgb, depth: 8, kind: SourceKind::Packed { stride: 3, first: 0 } });
        if p == 0 {
            assert(planes[p].comp() == Component::R);
            assert(src_pos(f, w as nat, h as nat, p, k) == (3 * k));
        } else if p == 1 {
            assert(planes[p].comp() == Component::G);
            assert(src_pos(f, w as nat, h as nat, p, k) == (3 * k + 1));
        } else if p == 2 {
            assert(planes[p].comp() == Component::B);
            assert(src_pos(f, w as nat, h as nat, p, k) == (3 * k + 2));
        }
    } else if name == "bgr24"@ {
        assert(f == SourceFormat { layout: PixelLayout::Bgr, depth: 8, kind: SourceKind::Packed { stride: 3, first: 0 } });
        if p == 0 {
            assert(planes[p].comp() == Component::B);
            assert(src_pos(f, w as nat, h as nat, p, k) == (3 * k));
        } else if p == 1 {
            assert(planes[p].comp() == Component::G);
            assert(src_pos(f, w as nat, h as nat, p, k) == (3 * k + 1));
        } else if p == 2 {
            assert(planes[p].comp() == Component::R);
            assert(src_pos(f, w as nat, h as nat, p, k) == (3 * k + 2));
        }
    } else if name == "rgb0"@ {
        assert(f == SourceFormat { layout: PixelLayout::Rgb, depth: 8, kind: SourceKind::Packed { stride: 4, first: 0 } });
        if p == 0 {
            assert(planes[p].comp() == Component::R);
            assert(src_pos(f, w as nat, h as nat, p, k) == (4 * k));
        } else if p == 1 {
            assert(planes[p].comp() == Component::G);
            assert(src_pos(f, w as nat, h as nat, p, k) == (4 * k + 1));
        } else if p == 2 {
            assert(planes[p].comp() == Component::B);
            assert(src_pos(f, w as nat, h as nat, p, k) == (4 * k + 2));
        }
    } else if name == "bgr0"@ {
        assert(f == SourceFormat { layout: PixelLayout::Bgr, depth: 8, kind: SourceKind::Packed { stride: 4, first: 0 } });
        if p == 0 {
            assert(planes[p].comp() == Component::B);
            assert(src_pos(f, w as nat, h as nat, p, k) == (4 * k));
        } else if p == 1 {
            assert(planes[p].comp() == Component::G);
            assert(src_pos(f, w as nat, h as nat, p, k) == (4 * k + 1));
        } else if p == 2 {
            assert(planes[p].comp() == Component::R);
            assert(src_pos(f, w as nat, h as nat, p, k) == (4 * k + 2));
        }
    } else if name == "0rgb"@ {
        assert(f == SourceFormat { layout: PixelLayout::Rgb, depth: 8, kind: SourceKind::Packed { stride: 4, first: 1 } });
        if p == 0 {
            assert(planes[p].comp() == Component::R);
            assert(src_pos(f, w as nat, h as nat, p, k) == (4 * k + 1));
        } else if p == 1 {
            assert(planes[p].comp() == Component::G);
            assert(src_pos(f, w as nat, h as nat, p, k) == (4 * k + 2));
        } else if p == 2 {
            assert(planes[p].comp() == Component::B);
            assert(src_pos(f, w as nat, h as nat, p, k) == (4 * k + 3));
        }
    } else if name == "0bgr"@ {
        assert(f == SourceFormat { layout: PixelLayout::Bgr, depth: 8, kind: SourceKind::Packed { stride: 4, first: 1 } });
        if p == 0 {
            assert(planes[p].comp() == Component::B);
            assert(src_pos(f, w as nat, h as nat, p, k) == (4 * k + 1));
        } else if p == 1 {
            assert(planes[p].comp() == Component::G);
            assert(src_pos(f, w as nat, h as nat, p, k) == (4 * k + 2));
        } else if p == 2 {
            assert(planes[p].comp() == Component::R);
            assert(src_pos(f, w as nat, h as nat, p, k) == (4 * k + 3));
        }
    } else if name == "rgba"@ {
        assert(f == SourceFormat { layout: PixelLayout::Rgba, depth: 8, kind: SourceKind::Packed { stride: 4, first: 0 } });
        if p == 0 {
            assert(planes[p].comp() == Component::R);
            assert(src_pos(f, w as nat, h as nat, p, k) == (4 * k));
        } else if p == 1 {
            assert(planes[p].comp() == Component::G);
            assert(src_pos(f, w as nat, h as nat, p, k) == (4 * k + 1));
        } else if p == 2 {
            assert(planes[p].comp() == Component::B);
            assert(src_pos(f, w as nat, h as nat, p, k) == (4 * k + 2));
        } else if p == 3 {
            assert(planes[p].comp() == Component::A);
            assert(src_pos(f, w as nat, h as nat, p, k) == (4 * k + 3));
        }
    } else if name == "bgra"@ {
        assert(f == SourceFormat { layout: PixelLayout::Bgra, depth: 8, kind: SourceKind::Packed { stride: 4, first: 0 } });
        if p == 0 {
            assert(planes[p].comp() == Component::B);
            assert(src_pos(f, w as nat, h as nat, p, k) == (4 * k));
        } else if p == 1 {
            assert(planes[p].comp() == Component::G);
            assert(src_pos(f, w as nat, h as nat, p, k) == (4 * k + 1));
        } else if p == 2 {
            assert(planes[p].comp() == Component::R);
            assert(src_pos(f, w as nat, h as nat, p, k) == (4 * k + 2));
        } else if p == 3 {
            assert(planes[p].comp() == Component::A);
            assert(src_pos(f, w as nat, h as nat, p, k) == (4 * k + 3));
        }
    } else if name == "argb"@ {
        assert(f == SourceFormat { layout: PixelLayout::Argb, depth: 8, kind: SourceKind::Packed { stride: 4, first: 0 } });
        if p == 0 {
            assert(planes[p].comp() == Component::A);
            assert(src_pos(f, w as nat, h as nat, p, k) == (4 * k));
        } else if p == 1 {
            assert(planes[p].comp() == Component::R);
            assert(src_pos(f, w as nat, h as nat, p, k) == (4 * k + 1));
        } else if p == 2 {
            assert(planes[p].comp() == Component::G);
            assert(src_pos(f, w as nat, h as nat, p, k) == (4 * k + 2));
        } else if p == 3 {
            assert(planes[p].comp() == Component::B);
            assert(src_pos(f, w as nat, h as nat, p, k) == (4 * k + 3));
        }
    } else if name == "abgr"@ {
        assert(f == SourceFormat { layout: PixelLayout::Abgr, depth: 8, kind: SourceKind::Packed { stride: 4, first: 0 } });
        if p == 0 {
            assert(planes[p].comp() == Component::A);
            assert(src_pos(f, w as nat, h as nat, p, k) == (4 * k));
        } else if p == 1 {
            assert(planes[p].comp() == Component::B);
            assert(src_pos(f, w as nat, h as nat, p, k) == (4 * k + 1));
        } else if p == 2 {
            assert(planes[p].comp() == Component::G);
            assert(src_pos(f, w as nat, h as nat, p, k) == (4 * k + 2));
        } else if p == 3 {
            assert(planes[p].comp() == Component::R);
            assert(src_pos(f, w as nat, h as nat, p, k) == (4 * k + 3));
        }
    } else if name == "yuyv422"@ {
        assert(f == SourceFormat { layout: PixelLayout::Yuv422, depth: 8, kind: SourceKind::Yuyv });
        if p == 0 {
            assert(planes[p].comp() == Component::Y);
            assert(src_pos(f, w as nat, h as nat, p, k) == (2 * k));
        } else if p == 1 {
            assert(planes[p].comp() == Component::Cb);
            assert(src_pos(f, w as nat, h as nat, p, k) == (4 * k + 1));
        } else if p == 2 {
            assert(planes[p].comp() == Component::Cr);
            assert(src_pos(f, w as nat, h as nat, p, k) == (4 * k + 3));
        }
    } else if name == "uyvy422"@ {
        assert(f == SourceFormat { layout: PixelLayout::Yuv422, depth: 8, kind: SourceKind::Uyvy });
        if p == 0 {
            assert(planes[p].comp() == Component::Y);
            assert(src_pos(f, w as nat, h as nat, p, k) == (2 * k + 1));
        } else if p == 1 {
            assert(planes[p].comp() == Component::Cb);
            assert(src_pos(f, w as nat, h as nat, p, k) == (4 * k));
        } else if p == 2 {
            assert(planes[p].comp() == Component::Cr);
            assert(src_pos(f, w as nat, h as nat, p, k) == (4 * k + 2));
        }
    } else if name == "nv12"@ {
        assert(f == SourceFormat { layout: PixelLayout::Yuv420, depth: 8, kind: SourceKind::SemiPlanar { uv_first: Component::Cb } });
        if p == 0 {
            assert(planes[p].comp() == Component::Y);
            assert(src_pos(f, w as nat, h as nat, p, k) == (k));
        } else if p == 1 {
            assert(planes[p].comp() == Component::Cb);
            assert(src_pos(f, w as nat, h as nat, p, k) == ((w as nat) * (h as nat) + 2 * k));
        } else if p == 2 {
            assert(planes[p].comp() == Component::Cr);
            assert(src_pos(f, w as nat, h as nat, p, k) == ((w as nat) * (h as nat) + 2 * k + 1));
        }
    } else if name == "nv21"@ {
        assert(f == SourceFormat { layout: PixelLayout::Yuv420, depth: 8, kind: SourceKind::SemiPlanar { uv_first: Component::Cr } });
        if p == 0 {
            assert(planes[p].comp() == Component::Y);
            assert(src_pos(f, w as nat, h as nat, p, k) == (k));
        } else if p == 1 {
            assert(planes[p].comp() == Component::Cb);
            assert(src_pos(f, w as nat, h as nat, p, k) == ((w as nat) * (h as nat) + 2 * k + 1));
        } else if p == 2 {
            assert(planes[p].comp() == Component::Cr);
            assert(src_pos(f, w as nat, h as nat, p, k) == ((w as nat) * (h as nat) + 2 * k));
        }
    } else if name == "gbrp"@ {
        assert(f == SourceFormat { layout: PixelLayout::Gbr, depth: 8, kind: SourceKind::Planar });
        if p == 0 {
            assert(planes[p].comp() == Component::R);
            assert(src_pos(f, w as nat, h as nat, p, k) == (2 * ((w as nat) * (h as nat)) + k));
        } else if p == 1 {
            assert(planes[p].comp() == Component::G);
            assert(src_pos(f, w as nat, h as nat, p, k) == (k));
        } else if p == 2 {
            assert(planes[p].comp() == Component::B);
            assert(src_pos(f, w as nat, h as nat, p, k) == ((w as nat) * (h as nat) + k));
        }
    } else if name == "gbrap"@ {
        assert(f == SourceFormat { layout: PixelLayout::Gbra, depth: 8, kind: SourceKind::Planar });
        if p == 0 {
            assert(planes[p].comp() == Component::R);
            assert(src_pos(f, w as nat, h as nat, p, k) == (2 * ((w as nat) * (h as nat)) + k));
        } else if p == 1 {
            assert(planes[p].comp() == Component::G);
            assert(src_pos(f, w as nat, h as nat, p, k) == (k));
        } else if p == 2 {
            assert(planes[p].comp() == Component::B);
            assert(src_pos(f, w as nat, h as nat, p, k) == ((w as nat) * (h as nat) + k));
        } else if p == 3 {
            assert(planes[p].comp() == Component::A);
            assert(src_pos(f, w as nat, h as nat, p, k) == (3 * ((w as nat) * (h as nat)) + k));
        }
    }
}

/// The canonical layout and depth each supported FFmpeg pixel format name
/// unpacks to: the family from the name's stem (`gray`, `yuv420p`, `gbrp`,
/// `rgb24`, …) and the bit depth from its suffix (`10le` is 10 bits, none
/// is 8).
pub proof fn law_format_names(name: Seq<char>)
    ensures
        name == "gray"@ ==> (source_format(name) matches Some(f) && f.layout == PixelLayout::Gray && f.depth == 8),
        name == "gray16le"@ ==> (source_format(name) matches Some(f) && f.layout == PixelLayout::Gray && f.depth == 16),
        name == "yuv420p"@ ==> (source_format(name) matches Some(f) && f.layout == PixelLayout::Yuv420 && f.depth == 8),
        name == "yuv420p10le"@ ==> (source_format(name) matches Some(f) && f.layout == PixelLayout::Yuv420 && f.depth == 10),
        name == "yuv420p12le"@ ==> (source_format(name) matches Some(f) && f.layout == PixelLayout::Yuv420 && f.depth == 12),
        name == "yuv420p14le"@ ==> (source_format(name) matches Some(f) && f.layout == PixelLayout::Yuv420 && f.depth == 14),
        name == "yuv420p16le"@ ==> (source_format(name) matches Some(f) && f.layout == PixelLayout::Yuv420 && f.depth == 16),
        name == "yuv422p"@ ==> (source_format(name) matches Some(f) && f.layout == PixelLayout::Yuv422 && f.depth == 8),
        name == "yuv422p10le"@ ==> (source_format(name) matches Some(f) && f.layout == PixelLayout::Yuv422 && f.depth == 10),
        name == "yuv422p12le"@ ==> (source_format(name) matches Some(f) && f.layout == PixelLayout::Yuv422 && f.depth == 12),
        name == "yuv422p16le"@ ==> (source_format(name) matches Some(f) && f.layout == PixelLayout::Yuv422 && f.depth == 16),
        name == "yuv444p"@ ==> (source_format(name) matches Some(f) && f.layout == PixelLayout::Yuv444 && f.depth == 8),
        name == "yuv444p10le"@ ==> (source_format(name) matches Some(f) && f.layout == PixelLayout::Yuv444 && f.depth == 10),
        name == "yuv444p12le"@ ==> (source_format(name) matches Some(f) && f.layout == PixelLayout::Yuv444 && f.depth == 12),
        name == "yuv444p16le"@ ==> (source_format(name) matches Some(f) && f.layout == PixelLayout::Yuv444 && f.depth == 16),
        name == "yuva420p"@ ==> (source_format(name) matches Some(f) && f.layout == PixelLayout::Yuva420 && f.depth == 8),
        name == "yuva444p"@ ==> (source_format(name) matches Some(f) && f.layout == PixelLayout::Yuva444 && f.depth == 8),
        name == "yuva444p10le"@ ==> (source_format(name) matches Some(f) && f.layout == PixelLayout::Yuva444 && f.depth == 10),
        name == "yuva444p12le"@ ==> (source_format(name) matches Some(f) && f.layout == PixelLayout::Yuva444 && f.depth == 12),
        name == "yuva444p16le"@ ==> (source_format(name) matches Some(f) && f.layout == PixelLayout::Yuva444 && f.depth == 16),
        name == "gbrp"@ ==> (source_format(name) matches Some(f) && f.layout == PixelLayout::Gbr && f.depth == 8),
        name == "gbrp10le"@ ==> (source_format(name) matches Some(f) && f.layout == PixelLayout::Gbr && f.depth == 10),
        name == "gbrp12le"@ ==> (source_format(name) matches Some(f) && f.layout == PixelLayout::Gbr && f.depth == 12),
        name == "gbrp16le"@ ==> (source_format(name) matches Some(f) && f.layout == PixelLayout::Gbr && f.depth == 16),
        name == "gbrap"@ ==> (source_format(name) matches Some(f) && f.layout == PixelLayout::Gbra && f.depth == 8),
        name == "gbrap10le"@ ==> (source_format(name) matches Some(f) && f.layout == PixelLayout::Gbra && f.depth == 10),
        name == "nv12"@ ==> (source_format(name) matches Some(f) && f.layout == PixelLayout::Yuv420 && f.depth == 8),
        name == "nv21"@ ==> (source_format(name) matches Some(f) && f.layout == PixelLayout::Yuv420 && f.depth == 8),
        name == "p010le"@ ==> (source_format(name) matches Some(f) && f.layout == PixelLayout::Yuv420 && f.depth == 10),
        name == "p016le"@ ==> (source_format(name) matches Some(f) && f.layout == PixelLayout::Yuv420 && f.depth == 16),
        name == "rgb24"@ ==> (source_format(name) matches Some(f) && f.layout == PixelLayout::Rgb && f.depth == 8),
        name == "bgr24"@ ==> (source_format(name) matches Some(f) && f.layout == PixelLayout::Bgr && f.depth == 8),
        name == "rgb0"@ ==> (source_format(name) matches Some(f) && f.layout == PixelLayout::Rgb && f.depth == 8),
        name == "bgr0"@ ==> (source_format(name) matches Some(f) && f.layout == PixelLayout::Bgr && f.depth == 8),
        name == "0rgb"@ ==> (source_format(name) matches Some(f) && f.layout == PixelLayout::Rgb && f.depth == 8),
        name == "0bgr"@ ==> (source_format(name) matches Some(f) && f.layout == PixelLayout::Bgr && f.depth == 8),
        name == "rgba"@ ==> (source_format(name) matches Some(f) && f.layout == PixelLayout::Rgba && f.depth == 8),
        name == "bgra"@ ==> (source_format(name) matches Some(f) && f.layout == PixelLayout::Bgra && f.depth == 8),
        name == "argb"@ ==> (source_format(name) matches Some(f) && f.layout == PixelLayout::Argb && f.depth == 8),
        name == "abgr"@ ==> (source_format(name) matches Some(f) && f.layout == PixelLayout::Abgr && f.depth == 8),
        name == "yuyv422"@ ==> (source_format(name) matches Some(f) && f.layout == PixelLayout::Yuv422 && f.depth == 8),
        name == "uyvy422"@ ==> (source_format(name) matches Some(f) && f.layout == PixelLayout::Yuv422 && f.depth == 8),
{
    reveal_strlit("gray");
    reveal_strlit("gray16le");
    reveal_strlit("yuv420p");
    reveal_strlit("yuv420p10le");
    reveal_strlit("yuv420p12le");
    reveal_strlit("yuv420p14le");
    reveal_strlit("yuv420p16le");
    reveal_strlit("yuv422p");
    reveal_strlit("yuv422p10le");
    reveal_strlit("yuv422p12le");
    reveal_strlit("yuv422p16le");
    reveal_strlit("yuv444p");
    reveal_strlit("yuv444p10le");
    reveal_strlit("yuv444p12le");
    reveal_strlit("yuv444p16le");
    reveal_strlit("yuva420p");
    reveal_strlit("yuva444p");
    reveal_strlit("yuva444p10le");
    reveal_strlit("yuva444p12le");
    reveal_strlit("yuva444p16le");
    reveal_strlit("gbrp");
    reveal_strlit("gbrp10le");
    reveal_strlit("gbrp12le");
    reveal_strlit("gbrp16le");
    reveal_strlit("gbrap");
    reveal_strlit("gbrap10le");
    reveal_strlit("nv12");
    reveal_strlit("nv21");
    reveal_strlit("p010le");
    reveal_strlit("p016le");
    reveal_strlit("rgb24");
    reveal_strlit("bgr24");
    reveal_strlit("rgb0");
    reveal_strlit("bgr0");
    reveal_strlit("0rgb");
    reveal_strlit("0bgr");
    reveal_strlit("rgba");
    reveal_strlit("bgra");
    reveal_strlit("argb");
    reveal_strlit("abgr");
    reveal_strlit("yuyv422");
    reveal_strlit("uyvy422");
    if name == "gray"@ {
    }
    if name == "gray16le"@ {
        assert("gray16le"@.len() != "gray"@.len());
    }
    if name == "yuv420p"@ {
        assert("yuv420p"@.len() != "gray"@.len());
        assert("yuv420p"@.len() != "gray16le"@.len());
    }
    if name == "yuv420p10le"@ {
        assert("yuv420p10le"@.len() != "gray"@.len());
        assert("yuv420p10le"@.len() != "gray16le"@.len());
        assert("yuv420p10le"@.len() != "yuv420p"@.len());
    }
    if name == "yuv420p12le"@ {
        assert("yuv420p12le"@.len() != "gray"@.len());
        assert("yuv420p12le"@.len() != "gray16le"@.len());
        assert("yuv420p12le"@.len() != "yuv420p"@.len());
        assert("yuv420p12le"@[8] != "yuv420p10le"@[8]);
    }
    if name == "yuv420p14le"@ {
        assert("yuv420p14le"@.len() != "gray"@.len());
        assert("yuv420p14le"@.len() != "gray16le"@.len());
        assert("yuv420p14le"@.len() != "yuv420p"@.len());
        assert("yuv420p14le"@[8] != "yuv420p10le"@[8]);
        assert("yuv420p14le"@[8] != "yuv420p12le"@[8]);
    }
    if name == "yuv420p16le"@ {
        assert("yuv420p16le"@.len() != "gray"@.len());
        assert("yuv420p16le"@.len() != "gray16le"@.len());
        assert("yuv420p16le"@.len() != "yuv420p"@.len());
        assert("yuv420p16le"@[8] != "yuv420p10le"@[8]);
        assert("yuv420p16le"@[8] != "yuv420p12le"@[8]);
        assert("yuv420p16le"@[8] != "yuv420p14le"@[8]);
    }
    if name == "yuv422p"@ {
        assert("yuv422p"@.len() != "gray"@.len());
        assert("yuv422p"@.len() != "gray16le"@.len());
        assert("yuv422p"@[5] != "yuv420p"@[5]);
        assert("yuv422p"@.len() != "yuv420p10le"@.len());
        assert("yuv422p"@.len() != "yuv420p12le"@.len());
        assert("yuv422p"@.len() != "yuv420p14le"@.len());
        assert("yuv422p"@.len() != "yuv420p16le"@.len());
    }
    if name == "yuv422p10le"@ {
        assert("yuv422p10le"@.len() != "gray"@.len());
        assert("yuv422p10le"@.len() != "gray16le"@.len());
        assert("yuv422p10le"@.len() != "yuv420p"@.len());
        assert("yuv422p10le"@[5] != "yuv420p10le"@[5]);
        assert("yuv422p10le"@[5] != "yuv420p12le"@[5]);
        assert("yuv422p10le"@[5] != "yuv420p14le"@[5]);
        assert("yuv422p10le"@[5] != "yuv420p16le"@[5]);
        assert("yuv422p10le"@.len() != "yuv422p"@.len());
    }
    if name == "yuv422p12le"@ {
        assert("yuv422p12le"@.len() != "gray"@.len());
        assert("yuv422p12le"@.len() != "gray16le"@.len());
        assert("yuv422p12le"@.len() != "yuv420p"@.len());
        assert("yuv422p12le"@[5] != "yuv420p10le"@[5]);
        assert("yuv422p12le"@[5] != "yuv420p12le"@[5]);
        assert("yuv422p12le"@[5] != "yuv420p14le"@[5]);
        assert("yuv422p12le"@[5] != "yuv420p16le"@[5]);
        assert("yuv422p12le"@.len() != "yuv422p"@.len());
        assert("yuv422p12le"@[8] != "yuv422p10le"@[8]);
    }
    if name == "yuv422p16le"@ {
        assert("yuv422p16le"@.len() != "gray"@.len());
        assert("yuv422p16le"@.len() != "gray16le"@.len());
        assert("yuv422p16le"@.len() != "yuv420p"@.len());
        assert("yuv422p16le"@[5] != "yuv420p10le"@[5]);
        assert("yuv422p16le"@[5] != "yuv420p12le"@[5]);
        assert("yuv422p16le"@[5] != "yuv420p14le"@[5]);
        assert("yuv422p16le"@[5] != "yuv420p16le"@[5]);
        assert("yuv422p16le"@.len() != "yuv422p"@.len());
        assert("yuv422p16le"@[8] != "yuv422p10le"@[8]);
        assert("yuv422p16le"@[8] != "yuv422p12le"@[8]);
    }
    if name == "yuv444p"@ {
        assert("yuv444p"@.len() != "gray"@.len());
        assert("yuv444p"@.len() != "gray16le"@.len());
        assert("yuv444p"@[4] != "yuv420p"@[4]);
        assert("yuv444p"@.len() != "yuv420p10le"@.len());
        assert("yuv444p"@.len() != "yuv420p12le"@.len());
        assert("yuv444p"@.len() != "yuv420p14le"@.len());
        assert("yuv444p"@.len() != "yuv420p16le"@.len());
        assert("yuv444p"@[4] != "yuv422p"@[4]);
        assert("yuv444p"@.len() != "yuv422p10le"@.len());
        assert("yuv444p"@.len() != "yuv422p12le"@.len());
        assert("yuv444p"@.len() != "yuv422p16le"@.len());
    }
    if name == "yuv444p10le"@ {
        assert("yuv444p10le"@.len() != "gray"@.len());
        assert("yuv444p10le"@.len() != "gray16le"@.len());
        assert("yuv444p10le"@.len() != "yuv420p"@.len());
        assert("yuv444p10le"@[4] != "yuv420p10le"@[4]);
        assert("yuv444p10le"@[4] != "yuv420p12le"@[4]);
        assert("yuv444p10le"@[4] != "yuv420p14le"@[4]);
        assert("yuv444p10le"@[4] != "yuv420p16le"@[4]);
        assert("yuv444p10le"@.len() != "yuv422p"@.len());
        assert("yuv444p10le"@[4] != "yuv422p10le"@[4]);
        assert("yuv444p10le"@[4] != "yuv422p12le"@[4]);
        assert("yuv444p10le"@[4] != "yuv422p16le"@[4]);
        assert("yuv444p10le"@.len() != "yuv444p"@.len());
    }
    if name == "yuv444p12le"@ {
        assert("yuv444p12le"@.len() != "gray"@.len());
        assert("yuv444p12le"@.len() != "gray16le"@.len());
        assert("yuv444p12le"@.len() != "yuv420p"@.len());
        assert("yuv444p12le"@[4] != "yuv420p10le"@[4]);
        assert("yuv444p12le"@[4] != "yuv420p12le"@[4]);
        assert("yuv444p12le"@[4] != "yuv420p14le"@[4]);
        assert("yuv444p12le"@[4] != "yuv420p16le"@[4]);
        assert("yuv444p12le"@.len() != "yuv422p"@.len());
        assert("yuv444p12le"@[4] != "yuv422p10le"@[4]);
        assert("yuv444p12le"@[4] != "yuv422p12le"@[4]);
        assert("yuv444p12le"@[4] != "yuv422p16le"@[4]);
        assert("yuv444p12le"@.len() != "yuv444p"@.len());
        assert("yuv444p12le"@[8] != "yuv444p10le"@[8]);
    }
    if name == "yuv444p16le"@ {
        assert("yuv444p16le"@.len() != "gray"@.len());
        assert("yuv444p16le"@.len() != "gray16le"@.len());
        assert("yuv444p16le"@.len() != "yuv420p"@.len());
        assert("yuv444p16le"@[4] != "yuv420p10le"@[4]);
        assert("yuv444p16le"@[4] != "yuv420p12le"@[4]);
        assert("yuv444p16le"@[4] != "yuv420p14le"@[4]);
        assert("yuv444p16le"@[4] != "yuv420p16le"@[4]);
        assert("yuv444p16le"@.len() != "yuv422p"@.len());
        assert("yuv444p16le"@[4] != "yuv422p10le"@[4]);
        assert("yuv444p16le"@[4] != "yuv422p12le"@[4]);
        assert("yuv444p16le"@[4] != "yuv422p16le"@[4]);
        assert("yuv444p16le"@.len() != "yuv444p"@.len());
        assert("yuv444p16le"@[8] != "yuv444p10le"@[8]);
        assert("yuv444p16le"@[8] != "yuv444p12le"@[8]);
    }
    if name == "yuva420p"@ {
        assert("yuva420p"@.len() != "gray"@.len());
        assert("yuva420p"@[0] != "gray16le"@[0]);
        assert("yuva420p"@.len() != "yuv420p"@.len());
        assert("yuva420p"@.len() != "yuv420p10le"@.len());
        assert("yuva420p"@.len() != "yuv420p12le"@.len());
        assert("yuva420p"@.len() != "yuv420p14le"@.len());
        assert("yuva420p"@.len() != "yuv420p16le"@.len());
        assert("yuva420p"@.len() != "yuv422p"@.len());
        assert("yuva420p"@.len() != "yuv422p10le"@.len());
        assert("yuva420p"@.len() != "yuv422p12le"@.len());
        assert("yuva420p"@.len() != "yuv422p16le"@.len());
        assert("yuva420p"@.len() != "yuv444p"@.len());
        assert("yuva420p"@.len() != "yuv444p10le"@.len());
        assert("yuva420p"@.len() != "yuv444p12le"@.len());
        assert("yuva420p"@.len() != "yuv444p16le"@.len());
    }
    if name == "yuva444p"@ {
        assert("yuva444p"@.len() != "gray"@.len());
        assert("yuva444p"@[0] != "gray16le"@[0]);
        assert("yuva444p"@.len() != "yuv420p"@.len());
        assert("yuva444p"@.len() != "yuv420p10le"@.len());
        assert("yuva444p"@.len() != "yuv420p12le"@.len());
        assert("yuva444p"@.len() != "yuv420p14le"@.len());
        assert("yuva444p"@.len() != "yuv420p16le"@.len());
        assert("yuva444p"@.len() != "yuv422p"@.len());
        assert("yuva444p"@.len() != "yuv422p10le"@.len());
        assert("yuva444p"@.len() != "yuv422p12le"@.len());
        assert("yuva444p"@.len() != "yuv422p16le"@.len());
        assert("yuva444p"@.len() != "yuv444p"@.len());
        assert("yuva444p"@.len() != "yuv444p10le"@.len());
        assert("yuva444p"@.len() != "yuv444p12le"@.len());
        assert("yuva444p"@.len() != "yuv444p16le"@.len());
        assert("yuva444p"@[5] != "yuva420p"@[5]);
    }
    if name == "yuva444p10le"@ {
        assert("yuva444p10le"@.len() != "gray"@.len());
        assert("yuva444p10le"@.len() != "gray16le"@.len());
        assert("yuva444p10le"@.len() != "yuv420p"@.len());
        assert("yuva444p10le"@.len() != "yuv420p10le"@.len());
        assert("yuva444p10le"@.len() != "yuv420p12le"@.len());
        assert("yuva444p10le"@.len() != "yuv420p14le"@.len());
        assert("yuva444p10le"@.len() != "yuv420p16le"@.len());
        assert("yuva444p10le"@.len() != "yuv422p"@.len());
        assert("yuva444p10le"@.len() != "yuv422p10le"@.len());
        assert("yuva444p10le"@.len() != "yuv422p12le"@.len());
        assert("yuva444p10le"@.len() != "yuv422p16le"@.len());
        assert("yuva444p10le"@.len() != "yuv444p"@.len());
        assert("yuva444p10le"@.len() != "yuv444p10le"@.len());
        assert("yuva444p10le"@.len() != "yuv444p12le"@.len());
        assert("yuva444p10le"@.len() != "yuv444p16le"@.len());
        assert("yuva444p10le"@.len() != "yuva420p"@.len());
        assert("yuva444p10le"@.len() != "yuva444p"@.len());
    }
    if name == "yuva444p12le"@ {
        assert("yuva444p12le"@.len() != "gray"@.len());
        assert("yuva444p12le"@.len() != "gray16le"@.len());
        assert("yuva444p12le"@.len() != "yuv420p"@.len());
        assert("yuva444p12le"@.len() != "yuv420p10le"@.len());
        assert("yuva444p12le"@.len() != "yuv420p12le"@.len());
        assert("yuva444p12le"@.len() != "yuv420p14le"@.len());
        assert("yuva444p12le"@.len() != "yuv420p16le"@.len());
        assert("yuva444p12le"@.len() != "yuv422p"@.len());
        assert("yuva444p12le"@.len() != "yuv422p10le"@.len());
        assert("yuva444p12le"@.len() != "yuv422p12le"@.len());
        assert("yuva444p12le"@.len() != "yuv422p16le"@.len());
        assert("yuva444p12le"@.len() != "yuv444p"@.len());
        assert("yuva444p12le"@.len() != "yuv444p10le"@.len());
        assert("yuva444p12le"@.len() != "yuv444p12le"@.len());
        assert("yuva444p12le"@.len() != "yuv444p16le"@.len());
        assert("yuva444p12le"@.len() != "yuva420p"@.len());
        assert("yuva444p12le"@.len() != "yuva444p"@.len());
        assert("yuva444p12le"@[9] != "yuva444p10le"@[9]);
    }
    if name == "yuva444p16le"@ {
        assert("yuva444p16le"@.len() != "gray"@.len());
        assert("yuva444p16le"@.len() != "gray16le"@.len());
        assert("yuva444p16le"@.len() != "yuv420p"@.len());
        assert("yuva444p16le"@.len() != "yuv420p10le"@.len());
        assert("yuva444p16le"@.len() != "yuv420p12le"@.len());
        assert("yuva444p16le"@.len() != "yuv420p14le"@.len());
        assert("yuva444p16le"@.len() != "yuv420p16le"@.len());
        assert("yuva444p16le"@.len() != "yuv422p"@.len());
        assert("yuva444p16le"@.len() != "yuv422p10le"@.len());
        assert("yuva444p16le"@.len() != "yuv422p12le"@.len());
        assert("yuva444p16le"@.len() != "yuv422p16le"@.len());
        assert("yuva444p16le"@.len() != "yuv444p"@.len());
        assert("yuva444p16le"@.len() != "yuv444p10le"@.len());
        assert("yuva444p16le"@.len() != "yuv444p12le"@.len());
        assert("yuva444p16le"@.len() != "yuv444p16le"@.len());
        assert("yuva444p16le"@.len() != "yuva420p"@.len());
        assert("yuva444p16le"@.len() != "yuva444p"@.len());
        assert("yuva444p16le"@[9] != "yuva444p10le"@[9]);
        assert("yuva444p16le"@[9] != "yuva444p12le"@[9]);
    }
    if name == "gbrp"@ {
        assert("gbrp"@[1] != "gray"@[1]);
        assert("gbrp"@.len() != "gray16le"@.len());
        assert("gbrp"@.len() != "yuv420p"@.len());
        assert("gbrp"@.len() != "yuv420p10le"@.len());
        assert("gbrp"@.len() != "yuv420p12le"@.len());
        assert("gbrp"@.len() != "yuv420p14le"@.len());
        assert("gbrp"@.len() != "yuv420p16le"@.len());
        assert("gbrp"@.len() != "yuv422p"@.len());
        assert("gbrp"@.len() != "yuv422p10le"@.len());
        assert("gbrp"@.len() != "yuv422p12le"@.len());
        assert("gbrp"@.len() != "yuv422p16le"@.len());
        assert("gbrp"@.len() != "yuv444p"@.len());
        assert("gbrp"@.len() != "yuv444p10le"@.len());
        assert("gbrp"@.len() != "yuv444p12le"@.len());
        assert("gbrp"@.len() != "yuv444p16le"@.len());
        assert("gbrp"@.len() != "yuva420p"@.len());
        assert("gbrp"@.len() != "yuva444p"@.len());
        assert("gbrp"@.len() != "yuva444p10le"@.len());
        assert("gbrp"@.len() != "yuva444p12le"@.len());
        assert("gbrp"@.len() != "yuva444p16le"@.len());
    }
    if name == "gbrp10le"@ {
        assert("gbrp10le"@.len() != "gray"@.len());
        assert("gbrp10le"@[1] != "gray16le"@[1]);
        assert("gbrp10le"@.len() != "yuv420p"@.len());
        assert("gbrp10le"@.len() != "yuv420p10le"@.len());
        assert("gbrp10le"@.len() != "yuv420p12le"@.len());
        assert("gbrp10le"@.len() != "yuv420p14le"@.len());
        assert("gbrp10le"@.len() != "yuv420p16le"@.len());
        assert("gbrp10le"@.len() != "yuv422p"@.len());
        assert("gbrp10le"@.len() != "yuv422p10le"@.len());
        assert("gbrp10le"@.len() != "yuv422p12le"@.len());
        assert("gbrp10le"@.len() != "yuv422p16le"@.len());
        assert("gbrp10le"@.len() != "yuv444p"@.len());
        assert("gbrp10le"@.len() != "yuv444p10le"@.len());
        assert("gbrp10le"@.len() != "yuv444p12le"@.len());
        assert("gbrp10le"@.len() != "yuv444p16le"@.len());
        assert("gbrp10le"@[0] != "yuva420p"@[0]);
        assert("gbrp10le"@[0] != "yuva444p"@[0]);
        assert("gbrp10le"@.len() != "yuva444p10le"@.len());
        assert("gbrp10le"@.len() != "yuva444p12le"@.len());
        assert("gbrp10le"@.len() != "yuva444p16le"@.len());
        assert("gbrp10le"@.len() != "gbrp"@.len());
    }
    if name == "gbrp12le"@ {
        assert("gbrp12le"@.len() != "gray"@.len());
        assert("gbrp12le"@[1] != "gray16le"@[1]);
        assert("gbrp12le"@.len() != "yuv420p"@.len());
        assert("gbrp12le"@.len() != "yuv420p10le"@.len());
        assert("gbrp12le"@.len() != "yuv420p12le"@.len());
        assert("gbrp12le"@.len() != "yuv420p14le"@.len());
        assert("gbrp12le"@.len() != "yuv420p16le"@.len());
        assert("gbrp12le"@.len() != "yuv422p"@.len());
        assert("gbrp12le"@.len() != "yuv422p10le"@.len());
        assert("gbrp12le"@.len() != "yuv422p12le"@.len());
        assert("gbrp12le"@.len() != "yuv422p16le"@.len());
        assert("gbrp12le"@.len() != "yuv444p"@.len());
        assert("gbrp12le"@.len() != "yuv444p10le"@.len());
        assert("gbrp12le"@.len() != "yuv444p12le"@.len());
        assert("gbrp12le"@.len() != "yuv444p16le"@.len());
        assert("gbrp12le"@[0] != "yuva420p"@[0]);
        assert("gbrp12le"@[0] != "yuva444p"@[0]);
        assert("gbrp12le"@.len() != "yuva444p10le"@.len());
        assert("gbrp12le"@.len() != "yuva444p12le"@.len());
        assert("gbrp12le"@.len() != "yuva444p16le"@.len());
        assert("gbrp12le"@.len() != "gbrp"@.len());
        assert("gbrp12le"@[5] != "gbrp10le"@[5]);
    }
    if name == "gbrp16le"@ {
        assert("gbrp16le"@.len() != "gray"@.len());
        assert("gbrp16le"@[1] != "gray16le"@[1]);
        assert("gbrp16le"@.len() != "yuv420p"@.len());
        assert("gbrp16le"@.len() != "yuv420p10le"@.len());
        assert("gbrp16le"@.len() != "yuv420p12le"@.len());
        assert("gbrp16le"@.len() != "yuv420p14le"@.len());
        assert("gbrp16le"@.len() != "yuv420p16le"@.len());
        assert("gbrp16le"@.len() != "yuv422p"@.len());
        assert("gbrp16le"@.len() != "yuv422p10le"@.len());
        assert("gbrp16le"@.len() != "yuv422p12le"@.len());
        assert("gbrp16le"@.len() != "yuv422p16le"@.len());
        assert("gbrp16le"@.len() != "yuv444p"@.len());
        assert("gbrp16le"@.len() != "yuv444p10le"@.len());
        assert("gbrp16le"@.len() != "yuv444p12le"@.len());
        assert("gbrp16le"@.len() != "yuv444p16le"@.len());
        assert("gbrp16le"@[0] != "yuva420p"@[0]);
        assert("gbrp16le"@[0] != "yuva444p"@[0]);
        assert("gbrp16le"@.len() != "yuva444p10le"@.len());
        assert("gbrp16le"@.len() != "yuva444p12le"@.len());
        assert("gbrp16le"@.len() != "yuva444p16le"@.len());
        assert("gbrp16le"@.len() != "gbrp"@.len());
        assert("gbrp16le"@[5] != "gbrp10le"@[5]);
        assert("gbrp16le"@[5] != "gbrp12le"@[5]);
    }
    if name == "gbrap"@ {
        assert("gbrap"@.len() != "gray"@.len());
        assert("gbrap"@.len() != "gray16le"@.len());
        assert("gbrap"@.len() != "yuv420p"@.len());
        assert("gbrap"@.len() != "yuv420p10le"@.len());
        assert("gbrap"@.len() != "yuv420p12le"@.len());
        assert("gbrap"@.len() != "yuv420p14le"@.len());
        assert("gbrap"@.len() != "yuv420p16le"@.len());
        assert("gbrap"@.len() != "yuv422p"@.len());
        assert("gbrap"@.len() != "yuv422p10le"@.len());
        assert("gbrap"@.len() != "yuv422p12le"@.len());
        assert("gbrap"@.len() != "yuv422p16le"@.len());
        assert("gbrap"@.len() != "yuv444p"@.len());
        assert("gbrap"@.len() != "yuv444p10le"@.len());
        assert("gbrap"@.len() != "yuv444p12le"@.len());
        assert("gbrap"@.len() != "yuv444p16le"@.len());
        assert("gbrap"@.len() != "yuva420p"@.len());
        assert("gbrap"@.len() != "yuva444p"@.len());
        assert("gbrap"@.len() != "yuva444p10le"@.len());
        assert("gbrap"@.len() != "yuva444p12le"@.len());
        assert("gbrap"@.len() != "yuva444p16le"@.len());
        assert("gbrap"@.len() != "gbrp"@.len());
        assert("gbrap"@.len() != "gbrp10le"@.len());
        assert("gbrap"@.len() != "gbrp12le"@.len());
        assert("gbrap"@.len() != "gbrp16le"@.len());
    }
    if name == "gbrap10le"@ {
        assert("gbrap10le"@.len() != "gray"@.len());
        assert("gbrap10le"@.len() != "gray16le"@.len());
        assert("gbrap10le"@.len() != "yuv420p"@.len());
        assert("gbrap10le"@.len() != "yuv420p10le"@.len());
        assert("gbrap10le"@.len() != "yuv420p12le"@.len());
        assert("gbrap10le"@.len() != "yuv420p14le"@.len());
        assert("gbrap10le"@.len() != "yuv420p16le"@.len());
        assert("gbrap10le"@.len() != "yuv422p"@.len());
        assert("gbrap10le"@.len() != "yuv422p10le"@.len());
        assert("gbrap10le"@.len() != "yuv422p12le"@.len());
        assert("gbrap10le"@.len() != "yuv422p16le"@.len());
        assert("gbrap10le"@.len() != "yuv444p"@.len());
        assert("gbrap10le"@.len() != "yuv444p10le"@.len());
        assert("gbrap10le"@.len() != "yuv444p12le"@.len());
        assert("gbrap10le"@.len() != "yuv444p16le"@.len());
        assert("gbrap10le"@.len() != "yuva420p"@.len());
        assert("gbrap10le"@.len() != "yuva444p"@.len());
        assert("gbrap10le"@.len() != "yuva444p10le"@.len());
        assert("gbrap10le"@.len() != "yuva444p12le"@.len());
        assert("gbrap10le"@.len() != "yuva444p16le"@.len());
        assert("gbrap10le"@.len() != "gbrp"@.len());
        assert("gbrap10le"@.len() != "gbrp10le"@.len());
        assert("gbrap10le"@.len() != "gbrp12le"@.len());
        assert("gbrap10le"@.len() != "gbrp16le"@.len());
        assert("gbrap10le"@.len() != "gbrap"@.len());
    }
    if name == "nv12"@ {
        assert("nv12"@[0] != "gray"@[0]);
        assert("nv12"@.len() != "gray16le"@.len());
        assert("nv12"@.len() != "yuv420p"@.len());
        assert("nv12"@.len() != "yuv420p10le"@.len());
        assert("nv12"@.len() != "yuv420p12le"@.len());
        assert("nv12"@.len() != "yuv420p14le"@.len());
        assert("nv12"@.len() != "yuv420p16le"@.len());
        assert("nv12"@.len() != "yuv422p"@.len());
        assert("nv12"@.len() != "yuv422p10le"@.len());
        assert("nv12"@.len() != "yuv422p12le"@.len());
        assert("nv12"@.len() != "yuv422p16le"@.len());
        assert("nv12"@.len() != "yuv444p"@.len());
        assert("nv12"@.len() != "yuv444p10le"@.len());
        assert("nv12"@.len() != "yuv444p12le"@.len());
        assert("nv12"@.len() != "yuv444p16le"@.len());
        assert("nv12"@.len() != "yuva420p"@.len());
        assert("nv12"@.len() != "yuva444p"@.len());
        assert("nv12"@.len() != "yuva444p10le"@.len());
        assert("nv12"@.len() != "yuva444p12le"@.len());
        assert("nv12"@.len() != "yuva444p16le"@.len());
        assert("nv12"@[0] != "gbrp"@[0]);
        assert("nv12"@.len() != "gbrp10le"@.len());
        assert("nv12"@.len() != "gbrp12le"@.len());
        assert("nv12"@.len() != "gbrp16le"@.len());
        assert("nv12"@.len() != "gbrap"@.len());
        assert("nv12"@.len() != "gbrap10le"@.len());
    }
    if name == "nv21"@ {
        assert("nv21"@[0] != "gray"@[0]);
        assert("nv21"@.len() != "gray16le"@.len());
        assert("nv21"@.len() != "yuv420p"@.len());
        assert("nv21"@.len() != "yuv420p10le"@.len());
        assert("nv21"@.len() != "yuv420p12le"@.len());
        assert("nv21"@.len() != "yuv420p14le"@.len());
        assert("nv21"@.len() != "yuv420p16le"@.len());
        assert("nv21"@.len() != "yuv422p"@.len());
        assert("nv21"@.len() != "yuv422p10le"@.len());
        assert("nv21"@.len() != "yuv422p12le"@.len());
        assert("nv21"@.len() != "yuv422p16le"@.len());
        assert("nv21"@.len() != "yuv444p"@.len());
        assert("nv21"@.len() != "yuv444p10le"@.len());
        assert("nv21"@.len() != "yuv444p12le"@.len());
        assert("nv21"@.len() != "yuv444p16le"@.len());
        assert("nv21"@.len() != "yuva420p"@.len());
        assert("nv21"@.len() != "yuva444p"@.len());
        assert("nv21"@.len() != "yuva444p10le"@.len());
        assert("nv21"@.len() != "yuva444p12le"@.len());
        assert("nv21"@.len() != "yuva444p16le"@.len());
        assert("nv21"@[0] != "gbrp"@[0]);
        assert("nv21"@.len() != "gbrp10le"@.len());
        assert("nv21"@.len() != "gbrp12le"@.len());
        assert("nv21"@.len() != "gbrp16le"@.len());
        assert("nv21"@.len() != "gbrap"@.len());
        assert("nv21"@.len() != "gbrap10le"@.len());
        assert("nv21"@[2] != "nv12"@[2]);
    }
    if name == "p010le"@ {
        assert("p010le"@.len() != "gray"@.len());
        assert("p010le"@.len() != "gray16le"@.len());
        assert("p010le"@.len() != "yuv420p"@.len());
        assert("p010le"@.len() != "yuv420p10le"@.len());
        assert("p010le"@.len() != "yuv420p12le"@.len());
        assert("p010le"@.len() != "yuv420p14le"@.len());
        assert("p010le"@.len() != "yuv420p16le"@.len());
        assert("p010le"@.len() != "yuv422p"@.len());
        assert("p010le"@.len() != "yuv422p10le"@.len());
        assert("p010le"@.len() != "yuv422p12le"@.len());
        assert("p010le"@.len() != "yuv422p16le"@.len());
        assert("p010le"@.len() != "yuv444p"@.len());
        assert("p010le"@.len() != "yuv444p10le"@.len());
        assert("p010le"@.len() != "yuv444p12le"@.len());
        assert("p010le"@.len() != "yuv444p16le"@.len());
        assert("p010le"@.len() != "yuva420p"@.len());
        assert("p010le"@.len() != "yuva444p"@.len());
        assert("p010le"@.len() != "yuva444p10le"@.len());
        assert("p010le"@.len() != "yuva444p12le"@.len());
        assert("p010le"@.len() != "yuva444p16le"@.len());
        assert("p010le"@.len() != "gbrp"@.len());
        assert("p010le"@.len() != "gbrp10le"@.len());
        assert("p010le"@.len() != "gbrp12le"@.len());
        assert("p010le"@.len() != "gbrp16le"@.len());
        assert("p010le"@.len() != "gbrap"@.len());
        assert("p010le"@.len() != "gbrap10le"@.len());
        assert("p010le"@.len() != "nv12"@.len());
        assert("p010le"@.len() != "nv21"@.len());
    }
    if name == "p016le"@ {
        assert("p016le"@.len() != "gray"@.len());
        assert("p016le"@.len() != "gray16le"@.len());
        assert("p016le"@.len() != "yuv420p"@.len());
        assert("p016le"@.len() != "yuv420p10le"@.len());
        assert("p016le"@.len() != "yuv420p12le"@.len());
        assert("p016le"@.len() != "yuv420p14le"@.len());
        assert("p016le"@.len() != "yuv420p16le"@.len());
        assert("p016le"@.len() != "yuv422p"@.len());
        assert("p016le"@.len() != "yuv422p10le"@.len());
        assert("p016le"@.len() != "yuv422p12le"@.len());
        assert("p016le"@.len() != "yuv422p16le"@.len());
        assert("p016le"@.len() != "yuv444p"@.len());
        assert("p016le"@.len() != "yuv444p10le"@.len());
        assert("p016le"@.len() != "yuv444p12le"@.len());
        assert("p016le"@.len() != "yuv444p16le"@.len());
        assert("p016le"@.len() != "yuva420p"@.len());
        assert("p016le"@.len() != "yuva444p"@.len());
        assert("p016le"@.len() != "yuva444p10le"@.len());
        assert("p016le"@.len() != "yuva444p12le"@.len());
        assert("p016le"@.len() != "yuva444p16le"@.len());
        assert("p016le"@.len() != "gbrp"@.len());
        assert("p016le"@.len() != "gbrp10le"@.len());
        assert("p016le"@.len() != "gbrp12le"@.len());
        assert("p016le"@.len() != "gbrp16le"@.len());
        assert("p016le"@.len() != "gbrap"@.len());
        assert("p016le"@.len() != "gbrap10le"@.len());
        assert("p016le"@.len() != "nv12"@.len());
        assert("p016le"@.len() != "nv21"@.len());
        assert("p016le"@[3] != "p010le"@[3]);
    }
    if name == "rgb24"@ {
        assert("rgb24"@.len() != "gray"@.len());
        assert("rgb24"@.len() != "gray16le"@.len());
        assert("rgb24"@.len() != "yuv420p"@.len());
        assert("rgb24"@.len() != "yuv420p10le"@.len());
        assert("rgb24"@.len() != "yuv420p12le"@.len());
        assert("rgb24"@.len() != "yuv420p14le"@.len());
        assert("rgb24"@.len() != "yuv420p16le"@.len());
        assert("rgb24"@.len() != "yuv422p"@.len());
        assert("rgb24"@.len() != "yuv422p10le"@.len());
        assert("rgb24"@.len() != "yuv422p12le"@.len());
        assert("rgb24"@.len() != "yuv422p16le"@.len());
        assert("rgb24"@.len() != "yuv444p"@.len());
        assert("rgb24"@.len() != "yuv444p10le"@.len());
        assert("rgb24"@.len() != "yuv444p12le"@.len());
        assert("rgb24"@.len() != "yuv444p16le"@.len());
        assert("rgb24"@.len() != "yuva420p"@.len());
        assert("rgb24"@.len() != "yuva444p"@.len());
        assert("rgb24"@.len() != "yuva444p10le"@.len());
        assert("rgb24"@.len() != "yuva444p12le"@.len());
        assert("rgb24"@.len() != "yuva444p16le"@.len());
        assert("rgb24"@.len() != "gbrp"@.len());
        assert("rgb24"@.len() != "gbrp10le"@.len());
        assert("rgb24"@.len() != "gbrp12le"@.len());
        assert("rgb24"@.len() != "gbrp16le"@.len());
        assert("rgb24"@[0] != "gbrap"@[0]);
        assert("rgb24"@.len() != "gbrap10le"@.len());
        assert("rgb24"@.len() != "nv12"@.len());
        assert("rgb24"@.len() != "nv21"@.len());
        assert("rgb24"@.len() != "p010le"@.len());
        assert("rgb24"@.len() != "p016le"@.len());
    }
    if name == "bgr24"@ {
        assert("bgr24"@.len() != "gray"@.len());
        assert("bgr24"@.len() != "gray16le"@.len());
        assert("bgr24"@.len() != "yuv420p"@.len());
        assert("bgr24"@.len() != "yuv420p10le"@.len());
        assert("bgr24"@.len() != "yuv420p12le"@.len());
        assert("bgr24"@.len() != "yuv420p14le"@.len());
        assert("bgr24"@.len() != "yuv420p16le"@.len());
        assert("bgr24"@.len() != "yuv422p"@.len());
        assert("bgr24"@.len() != "yuv422p10le"@.len());
        assert("bgr24"@.len() != "yuv422p12le"@.len());
        assert("bgr24"@.len() != "yuv422p16le"@.len());
        assert("bgr24"@.len() != "yuv444p"@.len());
        assert("bgr24"@.len() != "yuv444p10le"@.len());
        assert("bgr24"@.len() != "yuv444p12le"@.len());
        assert("bgr24"@.len() != "yuv444p16le"@.len());
        assert("bgr24"@.len() != "yuva420p"@.len());
        assert("bgr24"@.len() != "yuva444p"@.len());
        assert("bgr24"@.len() != "yuva444p10le"@.len());
        assert("bgr24"@.len() != "yuva444p12le"@.len());
        assert("bgr24"@.len() != "yuva444p16le"@.len());
        assert("bgr24"@.len() != "gbrp"@.len());
        assert("bgr24"@.len() != "gbrp10le"@.len());
        assert("bgr24"@.len() != "gbrp12le"@.len());
        assert("bgr24"@.len() != "gbrp16le"@.len());
        assert("bgr24"@[0] != "gbrap"@[0]);
        assert("bgr24"@.len() != "gbrap10le"@.len());
        assert("bgr24"@.len() != "nv12"@.len());
        assert("bgr24"@.len() != "nv21"@.len());
        assert("bgr24"@.len() != "p010le"@.len());
        assert("bgr24"@.len() != "p016le"@.len());
        assert("bgr24"@[0] != "rgb24"@[0]);
    }
    if name == "rgb0"@ {
        assert("rgb0"@[0] != "gray"@[0]);
        assert("rgb0"@.len() != "gray16le"@.len());
        assert("rgb0"@.len() != "yuv420p"@.len());
        assert("rgb0"@.len() != "yuv420p10le"@.len());
        assert("rgb0"@.len() != "yuv420p12le"@.len());
        assert("rgb0"@.len() != "yuv420p14le"@.len());
        assert("rgb0"@.len() != "yuv420p16le"@.len());
        assert("rgb0"@.len() != "yuv422p"@.len());
        assert("rgb0"@.len() != "yuv422p10le"@.len());
        assert("rgb0"@.len() != "yuv422p12le"@.len());
        assert("rgb0"@.len() != "yuv422p16le"@.len());
        assert("rgb0"@.len() != "yuv444p"@.len());
        assert("rgb0"@.len() != "yuv444p10le"@.len());
        assert("rgb0"@.len() != "yuv444p12le"@.len());
        assert("rgb0"@.len() != "yuv444p16le"@.len());
        assert("rgb0"@.len() != "yuva420p"@.len());
        assert("rgb0"@.len() != "yuva444p"@.len());
        assert("rgb0"@.len() != "yuva444p10le"@.len());
        assert("rgb0"@.len() != "yuva444p12le"@.len());
        assert("rgb0"@.len() != "yuva444p16le"@.len());
        assert("rgb0"@[0] != "gbrp"@[0]);
        assert("rgb0"@.len() != "gbrp10le"@.len());
        assert("rgb0"@.len() != "gbrp12le"@.len());
        assert("rgb0"@.len() != "gbrp16le"@.len());
        assert("rgb0"@.len() != "gbrap"@.len());
        assert("rgb0"@.len() != "gbrap10le"@.len());
        assert("rgb0"@[0] != "nv12"@[0]);
        assert("rgb0"@[0] != "nv21"@[0]);
        assert("rgb0"@.len() != "p010le"@.len());
        assert("rgb0"@.len() != "p016le"@.len());
        assert("rgb0"@.len() != "rgb24"@.len());
        assert("rgb0"@.len() != "bgr24"@.len());
    }
    if name == "bgr0"@ {
        assert("bgr0"@[0] != "gray"@[0]);
        assert("bgr0"@.len() != "gray16le"@.len());
        assert("bgr0"@.len() != "yuv420p"@.len());
        assert("bgr0"@.len() != "yuv420p10le"@.len());
        assert("bgr0"@.len() != "yuv420p12le"@.len());
        assert("bgr0"@.len() != "yuv420p14le"@.len());
        assert("bgr0"@.len() != "yuv420p16le"@.len());
        assert("bgr0"@.len() != "yuv422p"@.len());
        assert("bgr0"@.len() != "yuv422p10le"@.len());
        assert("bgr0"@.len() != "yuv422p12le"@.len());
        assert("bgr0"@.len() != "yuv422p16le"@.len());
        assert("bgr0"@.len() != "yuv444p"@.len());
        assert("bgr0"@.len() != "yuv444p10le"@.len());
        assert("bgr0"@.len() != "yuv444p12le"@.len());
        assert("bgr0"@.len() != "yuv444p16le"@.len());
        assert("bgr0"@.len() != "yuva420p"@.len());
        assert("bgr0"@.len() != "yuva444p"@.len());
        assert("bgr0"@.len() != "yuva444p10le"@.len());
        assert("bgr0"@.len() != "yuva444p12le"@.len());
        assert("bgr0"@.len() != "yuva444p16le"@.len());
        assert("bgr0"@[0] != "gbrp"@[0]);
        assert("bgr0"@.len() != "gbrp10le"@.len());
        assert("bgr0"@.len() != "gbrp12le"@.len());
        assert("bgr0"@.len() != "gbrp16le"@.len());
        assert("bgr0"@.len() != "gbrap"@.len());
        assert("bgr0"@.len() != "gbrap10le"@.len());
        assert("bgr0"@[0] != "nv12"@[0]);
        assert("bgr0"@[0] != "nv21"@[0]);
        assert("bgr0"@.len() != "p010le"@.len());
        assert("bgr0"@.len() != "p016le"@.len());
        assert("bgr0"@.len() != "rgb24"@.len());
        assert("bgr0"@.len() != "bgr24"@.len());
        assert("bgr0"@[0] != "rgb0"@[0]);
    }
    if name == "0rgb"@ {
        assert("0rgb"@[0] != "gray"@[0]);
        assert("0rgb"@.len() != "gray16le"@.len());
        assert("0rgb"@.len() != "yuv420p"@.len());
        assert("0rgb"@.len() != "yuv420p10le"@.len());
        assert("0rgb"@.len() != "yuv420p12le"@.len());
        assert("0rgb"@.len() != "yuv420p14le"@.len());
        assert("0rgb"@.len() != "yuv420p16le"@.len());
        assert("0rgb"@.len() != "yuv422p"@.len());
        assert("0rgb"@.len() != "yuv422p10le"@.len());
        assert("0rgb"@.len() != "yuv422p12le"@.len());
        assert("0rgb"@.len() != "yuv422p16le"@.len());
        assert("0rgb"@.len() != "yuv444p"@.len());
        assert("0rgb"@.len() != "yuv444p10le"@.len());
        assert("0rgb"@.len() != "yuv444p12le"@.len());
        assert("0rgb"@.len() != "yuv444p16le"@.len());
        assert("0rgb"@.len() != "yuva420p"@.len());
        assert("0rgb"@.len() != "yuva444p"@.len());
        assert("0rgb"@.len() != "yuva444p10le"@.len());
        assert("0rgb"@.len() != "yuva444p12le"@.len());
        assert("0rgb"@.len() != "yuva444p16le"@.len());
        assert("0rgb"@[0] != "gbrp"@[0]);
        assert("0rgb"@.len() != "gbrp10le"@.len());
        assert("0rgb"@.len() != "gbrp12le"@.len());
        assert("0rgb"@.len() != "gbrp16le"@.len());
        assert("0rgb"@.len() != "gbrap"@.len());
        assert("0rgb"@.len() != "gbrap10le"@.len());
        assert("0rgb"@[0] != "nv12"@[0]);
        assert("0rgb"@[0] != "nv21"@[0]);
        assert("0rgb"@.len() != "p010le"@.len());
        assert("0rgb"@.len() != "p016le"@.len());
        assert("0rgb"@.len() != "rgb24"@.len());
        assert("0rgb"@.len() != "bgr24"@.len());
        assert("0rgb"@[0] != "rgb0"@[0]);
        assert("0rgb"@[0] != "bgr0"@[0]);
    }
    if name == "0bgr"@ {
        assert("0bgr"@[0] != "gray"@[0]);
        assert("0bgr"@.len() != "gray16le"@.len());
        assert("0bgr"@.len() != "yuv420p"@.len());
        assert("0bgr"@.len() != "yuv420p10le"@.len());
        assert("0bgr"@.len() != "yuv420p12le"@.len());
        assert("0bgr"@.len() != "yuv420p14le"@.len());
        assert("0bgr"@.len() != "yuv420p16le"@.len());
        assert("0bgr"@.len() != "yuv422p"@.len());
        assert("0bgr"@.len() != "yuv422p10le"@.len());
        assert("0bgr"@.len() != "yuv422p12le"@.len());
        assert("0bgr"@.len() != "yuv422p16le"@.len());
        assert("0bgr"@.len() != "yuv444p"@.len());
        assert("0bgr"@.len() != "yuv444p10le"@.len());
        assert("0bgr"@.len() != "yuv444p12le"@.len());
        assert("0bgr"@.len() != "yuv444p16le"@.len());
        assert("0bgr"@.len() != "yuva420p"@.len());
        assert("0bgr"@.len() != "yuva444p"@.len());
        assert("0bgr"@.len() != "yuva444p10le"@.len());
        assert("0bgr"@.len() != "yuva444p12le"@.len());
        assert("0bgr"@.len() != "yuva444p16le"@.len());
        assert("0bgr"@[0] != "gbrp"@[0]);
        assert("0bgr"@.len() != "gbrp10le"@.len());
        assert("0bgr"@.len() != "gbrp12le"@.len());
        assert("0bgr"@.len() != "gbrp16le"@.len());
        assert("0bgr"@.len() != "gbrap"@.len());
        assert("0bgr"@.len() != "gbrap10le"@.len());
        assert("0bgr"@[0] != "nv12"@[0]);
        assert("0bgr"@[0] != "nv21"@[0]);
        assert("0bgr"@.len() != "p010le"@.len());
        assert("0bgr"@.len() != "p016le"@.len());
        assert("0bgr"@.len() != "rgb24"@.len());
        assert("0bgr"@.len() != "bgr24"@.len());
        assert("0bgr"@[0] != "rgb0"@[0]);
        assert("0bgr"@[0] != "bgr0"@[0]);
        assert("0bgr"@[1] != "0rgb"@[1]);
    }
    if name == "rgba"@ {
        assert("rgba"@[0] != "gray"@[0]);
        assert("rgba"@.len() != "gray16le"@.len());
        assert("rgba"@.len() != "yuv420p"@.len());
        assert("rgba"@.len() != "yuv420p10le"@.len());
        assert("rgba"@.len() != "yuv420p12le"@.len());
        assert("rgba"@.len() != "yuv420p14le"@.len());
        assert("rgba"@.len() != "yuv420p16le"@.len());
        assert("rgba"@.len() != "yuv422p"@.len());
        assert("rgba"@.len() != "yuv422p10le"@.len());
        assert("rgba"@.len() != "yuv422p12le"@.len());
        assert("rgba"@.len() != "yuv422p16le"@.len());
        assert("rgba"@.len() != "yuv444p"@.len());
        assert("rgba"@.len() != "yuv444p10le"@.len());
        assert("rgba"@.len() != "yuv444p12le"@.len());
        assert("rgba"@.len() != "yuv444p16le"@.len());
        assert("rgba"@.len() != "yuva420p"@.len());
        assert("rgba"@.len() != "yuva444p"@.len());
        assert("rgba"@.len() != "yuva444p10le"@.len());
        assert("rgba"@.len() != "yuva444p12le"@.len());
        assert("rgba"@.len() != "yuva444p16le"@.len());
        assert("rgba"@[0] != "gbrp"@[0]);
        assert("rgba"@.len() != "gbrp10le"@.len());
        assert("rgba"@.len() != "gbrp12le"@.len());
        assert("rgba"@.len() != "gbrp16le"@.len());
        assert("rgba"@.len() != "gbrap"@.len());
        assert("rgba"@.len() != "gbrap10le"@.len());
        assert("rgba"@[0] != "nv12"@[0]);
        assert("rgba"@[0] != "nv21"@[0]);
        assert("rgba"@.len() != "p010le"@.len());
        assert("rgba"@.len() != "p016le"@.len());
        assert("rgba"@.len() != "rgb24"@.len());
        assert("rgba"@.len() != "bgr24"@.len());
        assert("rgba"@[3] != "rgb0"@[3]);
        assert("rgba"@[0] != "bgr0"@[0]);
        assert("rgba"@[0] != "0rgb"@[0]);
        assert("rgba"@[0] != "0bgr"@[0]);
    }
    if name == "bgra"@ {
        assert("bgra"@[0] != "gray"@[0]);
        assert("bgra"@.len() != "gray16le"@.len());
        assert("bgra"@.len() != "yuv420p"@.len());
        assert("bgra"@.len() != "yuv420p10le"@.len());
        assert("bgra"@.len() != "yuv420p12le"@.len());
        assert("bgra"@.len() != "yuv420p14le"@.len());
        assert("bgra"@.len() != "yuv420p16le"@.len());
        assert("bgra"@.len() != "yuv422p"@.len());
        assert("bgra"@.len() != "yuv422p10le"@.len());
        assert("bgra"@.len() != "yuv422p12le"@.len());
        assert("bgra"@.len() != "yuv422p16le"@.len());
        assert("bgra"@.len() != "yuv444p"@.len());
        assert("bgra"@.len() != "yuv444p10le"@.len());
        assert("bgra"@.len() != "yuv444p12le"@.len());
        assert("bgra"@.len() != "yuv444p16le"@.len());
        assert("bgra"@.len() != "yuva420p"@.len());
        assert("bgra"@.len() != "yuva444p"@.len());
        assert("bgra"@.len() != "yuva444p10le"@.len());
        assert("bgra"@.len() != "yuva444p12le"@.len());
        assert("bgra"@.len() != "yuva444p16le"@.len());
        assert("bgra"@[0] != "gbrp"@[0]);
        assert("bgra"@.len() != "gbrp10le"@.len());
        assert("bgra"@.len() != "gbrp12le"@.len());
        assert("bgra"@.len() != "gbrp16le"@.len());
        assert("bgra"@.len() != "gbrap"@.len());
        assert("bgra"@.len() != "gbrap10le"@.len());
        assert("bgra"@[0] != "nv12"@[0]);
        assert("bgra"@[0] != "nv21"@[0]);
        assert("bgra"@.len() != "p010le"@.len());
        assert("bgra"@.len() != "p016le"@.len());
        assert("bgra"@.len() != "rgb24"@.len());
        assert("bgra"@.len() != "bgr24"@.len());
        assert("bgra"@[0] != "rgb0"@[0]);
        assert("bgra"@[3] != "bgr0"@[3]);
        assert("bgra"@[0] != "0rgb"@[0]);
        assert("bgra"@[0] != "0bgr"@[0]);
        assert("bgra"@[0] != "rgba"@[0]);
    }
    if name == "argb"@ {
        assert("argb"@[0] != "gray"@[0]);
        assert("argb"@.len() != "gray16le"@.len());
        assert("argb"@.len() != "yuv420p"@.len());
        assert("argb"@.len() != "yuv420p10le"@.len());
        assert("argb"@.len() != "yuv420p12le"@.len());
        assert("argb"@.len() != "yuv420p14le"@.len());
        assert("argb"@.len() != "yuv420p16le"@.len());
        assert("argb"@.len() != "yuv422p"@.len());
        assert("argb"@.len() != "yuv422p10le"@.len());
        assert("argb"@.len() != "yuv422p12le"@.len());
        assert("argb"@.len() != "yuv422p16le"@.len());
        assert("argb"@.len() != "yuv444p"@.len());
        assert("argb"@.len() != "yuv444p10le"@.len());
        assert("argb"@.len() != "yuv444p12le"@.len());
        assert("argb"@.len() != "yuv444p16le"@.len());
        assert("argb"@.len() != "yuva420p"@.len());
        assert("argb"@.len() != "yuva444p"@.len());
        assert("argb"@.len() != "yuva444p10le"@.len());
        assert("argb"@.len() != "yuva444p12le"@.len());
        assert("argb"@.len() != "yuva444p16le"@.len());
        assert("argb"@[0] != "gbrp"@[0]);
        assert("argb"@.len() != "gbrp10le"@.len());
        assert("argb"@.len() != "gbrp12le"@.len());
        assert("argb"@.len() != "gbrp16le"@.len());
        assert("argb"@.len() != "gbrap"@.len());
        assert("argb"@.len() != "gbrap10le"@.len());
        assert("argb"@[0] != "nv12"@[0]);
        assert("argb"@[0] != "nv21"@[0]);
        assert("argb"@.len() != "p010le"@.len());
        assert("argb"@.len() != "p016le"@.len());
        assert("argb"@.len() != "rgb24"@.len());
        assert("argb"@.len() != "bgr24"@.len());
        assert("argb"@[0] != "rgb0"@[0]);
        assert("argb"@[0] != "bgr0"@[0]);
        assert("argb"@[0] != "0rgb"@[0]);
        assert("argb"@[0] != "0bgr"@[0]);
        assert("argb"@[0] != "rgba"@[0]);
        assert("argb"@[0] != "bgra"@[0]);
    }
    if name == "abgr"@ {
        assert("abgr"@[0] != "gray"@[0]);
        assert("abgr"@.len() != "gray16le"@.len());
        assert("abgr"@.len() != "yuv420p"@.len());
        assert("abgr"@.len() != "yuv420p10le"@.len());
        assert("abgr"@.len() != "yuv420p12le"@.len());
        assert("abgr"@.len() != "yuv420p14le"@.len());
        assert("abgr"@.len() != "yuv420p16le"@.len());
        assert("abgr"@.len() != "yuv422p"@.len());
        assert("abgr"@.len() != "yuv422p10le"@.len());
        assert("abgr"@.len() != "yuv422p12le"@.len());
        assert("abgr"@.len() != "yuv422p16le"@.len());
        assert("abgr"@.len() != "yuv444p"@.len());
        assert("abgr"@.len() != "yuv444p10le"@.len());
        assert("abgr"@.len() != "yuv444p12le"@.len());
        assert("abgr"@.len() != "yuv444p16le"@.len());
        assert("abgr"@.len() != "yuva420p"@.len());
        assert("abgr"@.len() != "yuva444p"@.len());
        assert("abgr"@.len() != "yuva444p10le"@.len());
        assert("abgr"@.len() != "yuva444p12le"@.len());
        assert("abgr"@.len() != "yuva444p16le"@.len());
        assert("abgr"@[0] != "gbrp"@[0]);
        assert("abgr"@.len() != "gbrp10le"@.len());
        assert("abgr"@.len() != "gbrp12le"@.len());
        assert("abgr"@.len() != "gbrp16le"@.len());
        assert("abgr"@.len() != "gbrap"@.len());
        assert("abgr"@.len() != "gbrap10le"@.len());
        assert("abgr"@[0] != "nv12"@[0]);
        assert("abgr"@[0] != "nv21"@[0]);
        assert("abgr"@.len() != "p010le"@.len());
        assert("abgr"@.len() != "p016le"@.len());
        assert("abgr"@.len() != "rgb24"@.len());
        assert("abgr"@.len() != "bgr24"@.len());
        assert("abgr"@[0] != "rgb0"@[0]);
        assert("abgr"@[0] != "bgr0"@[0]);
        assert("abgr"@[0] != "0rgb"@[0]);
        assert("abgr"@[0] != "0bgr"@[0]);
        assert("abgr"@[0] != "rgba"@[0]);
        assert("abgr"@[0] != "bgra"@[0]);
        assert("abgr"@[1] != "argb"@[1]);
    }
    if name == "yuyv422"@ {
        assert("yuyv422"@.len() != "gray"@.len());
        assert("yuyv422"@.len() != "gray16le"@.len());
        assert("yuyv422"@[2] != "yuv420p"@[2]);
        assert("yuyv422"@.len() != "yuv420p10le"@.len());
        assert("yuyv422"@.len() != "yuv420p12le"@.len());
        assert("yuyv422"@.len() != "yuv420p14le"@.len());
        assert("yuyv422"@.len() != "yuv420p16le"@.len());
        assert("yuyv422"@[2] != "yuv422p"@[2]);
        assert("yuyv422"@.len() != "yuv422p10le"@.len());
        assert("yuyv422"@.len() != "yuv422p12le"@.len());
        assert("yuyv422"@.len() != "yuv422p16le"@.len());
        assert("yuyv422"@[2] != "yuv444p"@[2]);
        assert("yuyv422"@.len() != "yuv444p10le"@.len());
        assert("yuyv422"@.len() != "yuv444p12le"@.len());
        assert("yuyv422"@.len() != "yuv444p16le"@.len());
        assert("yuyv422"@.len() != "yuva420p"@.len());
        assert("yuyv422"@.len() != "yuva444p"@.len());
        assert("yuyv422"@.len() != "yuva444p10le"@.len());
        assert("yuyv422"@.len() != "yuva444p12le"@.len());
        assert("yuyv422"@.len() != "yuva444p16le"@.len());
        assert("yuyv422"@.len() != "gbrp"@.len());
        assert("yuyv422"@.len() != "gbrp10le"@.len());
        assert("yuyv422"@.len() != "gbrp12le"@.len());
        assert("yuyv422"@.len() != "gbrp16le"@.len());
        assert("yuyv422"@.len() != "gbrap"@.len());
        assert("yuyv422"@.len() != "gbrap10le"@.len());
        assert("yuyv422"@.len() != "nv12"@.len());
        assert("yuyv422"@.len() != "nv21"@.len());
        assert("yuyv422"@.len() != "p010le"@.len());
        assert("yuyv422"@.len() != "p016le"@.len());
        assert("yuyv422"@.len() != "rgb24"@.len());
        assert("yuyv422"@.len() != "bgr24"@.len());
        assert("yuyv422"@.len() != "rgb0"@.len());
        assert("yuyv422"@.len() != "bgr0"@.len());
        assert("yuyv422"@.len() != "0rgb"@.len());
        assert("yuyv422"@.len() != "0bgr"@.len());
        assert("yuyv422"@.len() != "rgba"@.len());
        assert("yuyv422"@.len() != "bgra"@.len());
        assert("yuyv422"@.len() != "argb"@.len());
        assert("yuyv422"@.len() != "abgr"@.len());
    }
    if name == "uyvy422"@ {
        assert("uyvy422"@.len() != "gray"@.len());
        assert("uyvy422"@.len() != "gray16le"@.len());
        assert("uyvy422"@[0] != "yuv420p"@[0]);
        assert("uyvy422"@.len() != "yuv420p10le"@.len());
        assert("uyvy422"@.len() != "yuv420p12le"@.len());
        assert("uyvy422"@.len() != "yuv420p14le"@.len());
        assert("uyvy422"@.len() != "yuv420p16le"@.len());
        assert("uyvy422"@[0] != "yuv422p"@[0]);
        assert("uyvy422"@.len() != "yuv422p10le"@.len());
        assert("uyvy422"@.len() != "yuv422p12le"@.len());
        assert("uyvy422"@.len() != "yuv422p16le"@.len());
        assert("uyvy422"@[0] != "yuv444p"@[0]);
        assert("uyvy422"@.len() != "yuv444p10le"@.len());
        assert("uyvy422"@.len() != "yuv444p12le"@.len());
        assert("uyvy422"@.len() != "yuv444p16le"@.len());
        assert("uyvy422"@.len() != "yuva420p"@.len());
        assert("uyvy422"@.len() != "yuva444p"@.len());
        assert("uyvy422"@.len() != "yuva444p10le"@.len());
        assert("uyvy422"@.len() != "yuva444p12le"@.len());
        assert("uyvy422"@.len() != "yuva444p16le"@.len());
        assert("uyvy422"@.len() != "gbrp"@.len());
        assert("uyvy422"@.len() != "gbrp10le"@.len());
        assert("uyvy422"@.len() != "gbrp12le"@.len());
        assert("uyvy422"@.len() != "gbrp16le"@.len());
        assert("uyvy422"@.len() != "gbrap"@.len());
        assert("uyvy422"@.len() != "gbrap10le"@.len());
        assert("uyvy422"@.len() != "nv12"@.len());
        assert("uyvy422"@.len() != "nv21"@.len());
        assert("uyvy422"@.len() != "p010le"@.len());
        assert("uyvy422"@.len() != "p016le"@.len());
        assert("uyvy422"@.len() != "rgb24"@.len());
        assert("uyvy422"@.len() != "bgr24"@.len());
        assert("uyvy422"@.len() != "rgb0"@.len());
        assert("uyvy422"@.len() != "bgr0"@.len());
        assert("uyvy422"@.len() != "0rgb"@.len());
        assert("uyvy422"@.len() != "0bgr"@.len());
        assert("uyvy422"@.len() != "rgba"@.len());
        assert("uyvy422"@.len() != "bgra"@.len());
        assert("uyvy422"@.len() != "argb"@.len());
        assert("uyvy422"@.len() != "abgr"@.len());
        assert("uyvy422"@[0] != "yuyv422"@[0]);
    }
}
} // verus!
