//! Probe manifest.
//!
//! Before any decode, the bridge records the source's interpretation from
//! the prober: container, stream, geometry, pixel format, time base, frame
//! rates, SAR, field order, colour signalling, orientation tags and frame
//! count where available. The manifest is evidence, never a playback
//! dependency.
//!
//! The prober's `key=value` text output is parsed here (running the prober
//! is the application's concern); stream records are delimited by their
//! `index=` lines. Unknown values stay unspecified and the raw strings are
//! kept, so nothing is silently guessed.

use vstd::prelude::*;
use vstd::utf8::encode_utf8;

use crate::error::VoleError;
use crate::media::bridge::text::{
    i64_text, is_run, lines_of, parse_i64, parse_u64,
    split_lines, starts_with, trim, trimmed, u64_text,
};
use crate::media::color::{ChromaLocation, ColorPrimaries, ColorRange, MatrixCoefficients, TransferCharacteristic};
use crate::media::meta::{FieldStructure, Orientation};

verus! {

/// The container-level format facts.
#[derive(Debug, Clone)]
pub struct FormatInfo {
    /// Raw `format_name` (may be a comma list).
    pub container: Option<String>,
    /// Raw `duration` seconds string.
    pub duration: Option<String>,
    /// Raw `start_time` seconds string.
    pub start_time: Option<String>,
    /// Raw `bit_rate` string.
    pub bit_rate: Option<String>,
    /// Declared stream count.
    pub nb_streams: Option<u64>,
}

/// One probed video stream (only fields the bridge interprets; raw strings
/// are kept for evidence).
#[derive(Debug, Clone)]
pub struct StreamInfo {
    /// Stream index.
    pub index: u64,
    /// `codec_name`.
    pub codec_name: Option<String>,
    /// `codec_type`.
    pub codec_type: Option<String>,
    /// `profile`.
    pub profile: Option<String>,
    /// Coded width.
    pub width: Option<u64>,
    /// Coded height.
    pub height: Option<u64>,
    /// `coded_width` when present.
    pub coded_width: Option<u64>,
    /// `coded_height` when present.
    pub coded_height: Option<u64>,
    /// Decoded pixel format name (`pix_fmt`).
    pub pix_fmt: Option<String>,
    /// Stream time base `num/den` string.
    pub time_base: Option<String>,
    /// `start_pts`.
    pub start_pts: Option<String>,
    /// `duration_ts`.
    pub duration_ts: Option<String>,
    /// `nb_frames` where the container declares it.
    pub nb_frames: Option<String>,
    /// `avg_frame_rate` rational string.
    pub avg_frame_rate: Option<String>,
    /// `r_frame_rate` rational string.
    pub r_frame_rate: Option<String>,
    /// `sample_aspect_ratio` `a:b` string.
    pub sample_aspect_ratio: Option<String>,
    /// `field_order` string.
    pub field_order: Option<String>,
    /// `color_range` raw string (`tv`/`pc`/`unknown`/…).
    pub color_range: Option<String>,
    /// `color_space` raw string.
    pub color_space: Option<String>,
    /// `color_transfer` raw string.
    pub color_transfer: Option<String>,
    /// `color_primaries` raw string.
    pub color_primaries: Option<String>,
    /// `chroma_location` raw string.
    pub chroma_location: Option<String>,
    /// `bits_per_raw_sample`.
    pub bits_per_raw_sample: Option<String>,
    /// Stream tags (`TAG:NAME=value`).
    pub tags: Vec<(String, String)>,
    /// `disposition.attached_pic` flag.
    pub attached_pic: bool,
    /// `disposition.default` flag.
    pub is_default: bool,
}

/// The probed manifest: container facts plus every probed video stream and
/// the chosen stream's index.
#[derive(Debug, Clone)]
pub struct ProbeManifest {
    /// Container format facts.
    pub format: FormatInfo,
    /// Every video stream.
    pub streams: Vec<StreamInfo>,
    /// The chosen stream's index.
    pub chosen: u64,
}

impl Default for FormatInfo {
    fn default() -> (r: Self)
        ensures
            r.container is None && r.duration is None && r.start_time is None && r.bit_rate is None
                && r.nb_streams is None,
    {
        FormatInfo { container: None, duration: None, start_time: None, bit_rate: None, nb_streams: None }
    }
}

impl Default for StreamInfo {
    fn default() -> (r: Self)
        ensures
            r.index == 0 && r.codec_name is None && r.codec_type is None && r.profile is None && r.width is None
                && r.height is None && r.coded_width is None && r.coded_height is None && r.pix_fmt is None
                && r.time_base is None && r.start_pts is None && r.duration_ts is None && r.nb_frames is None
                && r.avg_frame_rate is None && r.r_frame_rate is None && r.sample_aspect_ratio is None
                && r.field_order is None && r.color_range is None && r.color_space is None && r.color_transfer is None
                && r.color_primaries is None && r.chroma_location is None && r.bits_per_raw_sample is None
                && r.tags@.len() == 0 && !r.attached_pic && !r.is_default,
    {
        StreamInfo {
            index: 0,
            codec_name: None,
            codec_type: None,
            profile: None,
            width: None,
            height: None,
            coded_width: None,
            coded_height: None,
            pix_fmt: None,
            time_base: None,
            start_pts: None,
            duration_ts: None,
            nb_frames: None,
            avg_frame_rate: None,
            r_frame_rate: None,
            sample_aspect_ratio: None,
            field_order: None,
            color_range: None,
            color_space: None,
            color_transfer: None,
            color_primaries: None,
            chroma_location: None,
            bits_per_raw_sample: None,
            tags: Vec::new(),
            attached_pic: false,
            is_default: false,
        }
    }
}

/// Whether an optional string holds exactly `lit`.
pub open spec fn holds(s: Option<String>, lit: Seq<char>) -> bool {
    s matches Some(t) && t@ == lit
}

/// Whether `s` holds exactly `lit`.
fn is_text(s: &Option<String>, lit: &str) -> (r: bool)
    ensures
        r == holds(*s, lit@),
{
    match s {
        Some(t) => *t == lit.to_owned(),
        None => false,
    }
}

/// The `field_order` interpretation.
pub open spec fn field_structure_of(s: Option<String>) -> FieldStructure {
    if holds(s, "progressive"@) {
        FieldStructure::Progressive
    } else if holds(s, "tt"@) || holds(s, "tb"@) {
        FieldStructure::InterlacedTopFieldFirst
    } else if holds(s, "bb"@) || holds(s, "bt"@) {
        FieldStructure::InterlacedBottomFieldFirst
    } else {
        FieldStructure::Unknown
    }
}

/// The `color_range` interpretation (`tv` limited, `pc` full).
pub open spec fn color_range_of(s: Option<String>) -> ColorRange {
    if holds(s, "tv"@) || holds(s, "limited"@) {
        ColorRange::Limited
    } else if holds(s, "pc"@) || holds(s, "full"@) {
        ColorRange::Full
    } else {
        ColorRange::Unspecified
    }
}

/// The `color_space` (matrix) interpretation.
pub open spec fn matrix_of(s: Option<String>) -> MatrixCoefficients {
    if holds(s, "bt709"@) {
        MatrixCoefficients::Bt709
    } else if holds(s, "bt470bg"@) || holds(s, "smpte170m"@) {
        MatrixCoefficients::Smpte170M
    } else if holds(s, "smpte240m"@) {
        MatrixCoefficients::Smpte240M
    } else if holds(s, "ycgco"@) {
        MatrixCoefficients::YcgCo
    } else if holds(s, "bt2020nc"@) || holds(s, "bt2020ncl"@) {
        MatrixCoefficients::Bt2020Ncl
    } else if holds(s, "bt2020c"@) || holds(s, "bt2020cl"@) {
        MatrixCoefficients::Bt2020Cl
    } else if holds(s, "gbr"@) || holds(s, "identity"@) || holds(s, "rgb"@) {
        MatrixCoefficients::Identity
    } else {
        MatrixCoefficients::Unspecified
    }
}

/// The `color_transfer` interpretation.
pub open spec fn transfer_of(s: Option<String>) -> TransferCharacteristic {
    if holds(s, "bt709"@) {
        TransferCharacteristic::Bt709
    } else if holds(s, "bt470m"@) || holds(s, "gamma22"@) {
        TransferCharacteristic::Gamma22
    } else if holds(s, "bt470bg"@) || holds(s, "gamma28"@) {
        TransferCharacteristic::Gamma28
    } else if holds(s, "smpte170m"@) {
        TransferCharacteristic::Smpte170M
    } else if holds(s, "smpte240m"@) {
        TransferCharacteristic::Smpte240M
    } else if holds(s, "linear"@) {
        TransferCharacteristic::Linear
    } else if holds(s, "iec61966-2-1"@) || holds(s, "srgb"@) {
        TransferCharacteristic::Srgb
    } else if holds(s, "bt2020-10"@) {
        TransferCharacteristic::Bt2020_10
    } else if holds(s, "bt2020-12"@) {
        TransferCharacteristic::Bt2020_12
    } else if holds(s, "smpte2084"@) {
        TransferCharacteristic::Smpte2084
    } else if holds(s, "arib-std-b67"@) {
        TransferCharacteristic::AribStdB67
    } else {
        TransferCharacteristic::Unspecified
    }
}

/// The `color_primaries` interpretation.
pub open spec fn primaries_of(s: Option<String>) -> ColorPrimaries {
    if holds(s, "bt709"@) {
        ColorPrimaries::Bt709
    } else if holds(s, "bt470m"@) {
        ColorPrimaries::Bt470M
    } else if holds(s, "bt470bg"@) {
        ColorPrimaries::Bt470Bg
    } else if holds(s, "smpte170m"@) {
        ColorPrimaries::Smpte170M
    } else if holds(s, "smpte240m"@) {
        ColorPrimaries::Smpte240M
    } else if holds(s, "film"@) {
        ColorPrimaries::Film
    } else if holds(s, "bt2020"@) {
        ColorPrimaries::Bt2020
    } else {
        ColorPrimaries::Unspecified
    }
}

/// The `chroma_location` interpretation.
pub open spec fn chroma_location_of(s: Option<String>) -> ChromaLocation {
    if holds(s, "left"@) {
        ChromaLocation::Left
    } else if holds(s, "center"@) {
        ChromaLocation::Center
    } else if holds(s, "topleft"@) {
        ChromaLocation::TopLeft
    } else if holds(s, "top"@) {
        ChromaLocation::Top
    } else if holds(s, "bottomleft"@) {
        ChromaLocation::BottomLeft
    } else if holds(s, "bottom"@) {
        ChromaLocation::Bottom
    } else {
        ChromaLocation::Unspecified
    }
}

/// ASCII lowercase of a byte.
pub open spec fn lower(b: u8) -> u8 {
    if 65 <= b <= 90 {
        (b + 32) as u8
    } else {
        b
    }
}

/// Whether `s` equals `t` ignoring ASCII case.
pub open spec fn eq_ignore_case(s: Seq<u8>, t: Seq<u8>) -> bool {
    s.len() == t.len() && forall|i: int| 0 <= i < s.len() ==> lower(#[trigger] s[i]) == lower(t[i])
}

/// The bytes of `rotate`.
pub open spec fn rotate_tag() -> Seq<u8> {
    seq![114u8, 111, 116, 97, 116, 101]
}

/// The orientation a `rotate` tag value gives (degrees clockwise).
pub open spec fn rotation_of(v: Option<i64>) -> Orientation {
    match v {
        Some(d) => if d == 90 || d == -270 {
            Orientation::Rotate90
        } else if d == 180 || d == -180 {
            Orientation::Rotate180
        } else if d == 270 || d == -90 {
            Orientation::Rotate270
        } else {
            Orientation::Normal
        },
        None => Orientation::Normal,
    }
}

/// The index of the first tag named `rotate` (ignoring ASCII case).
pub open spec fn rotate_index(tags: Seq<(String, String)>, i: int) -> Option<int>
    decreases tags.len() - i,
{
    if i < 0 || i >= tags.len() {
        None
    } else if eq_ignore_case(encode_utf8(tags[i].0@), rotate_tag()) {
        Some(i)
    } else {
        rotate_index(tags, i + 1)
    }
}

/// The `sample_aspect_ratio` `a:b` interpretation: both parts plain
/// decimals in `1..2^31`, otherwise none (`0:0`, `N/A`, …).
pub open spec fn sar_text(s: Seq<u8>) -> Option<(u32, u32)> {
    if exists|i: int| 0 <= i < s.len() && s[i] == 58 {
        let i = choose|i: int| 0 <= i < s.len() && s[i] == 58 && forall|k: int| 0 <= k < i ==> s[k] != 58;
        match (u64_text(s.subrange(0, i)), u64_text(s.subrange(i + 1, s.len() as int))) {
            (Some(a), Some(b)) => if a == 0 || b == 0 || a >= 0x8000_0000 || b >= 0x8000_0000 {
                None
            } else {
                Some((a as u32, b as u32))
            },
            _ => None,
        }
    } else {
        None
    }
}

/// Whether `s` equals `t` ignoring ASCII case.
fn same_ignore_case(s: &[u8], t: &[u8]) -> (r: bool)
    ensures
        r == eq_ignore_case(s@, t@),
{
    if s.len() != t.len() {
        return false;
    }
    let mut i = 0usize;
    while i < s.len()
        invariant
            i <= s@.len(),
            s@.len() == t@.len(),
            forall|k: int| 0 <= k < i ==> lower(#[trigger] s@[k]) == lower(t@[k]),
        decreases s@.len() - i,
    {
        let a = if 65 <= s[i] && s[i] <= 90 {
            s[i] + 32
        } else {
            s[i]
        };
        let b = if 65 <= t[i] && t[i] <= 90 {
            t[i] + 32
        } else {
            t[i]
        };
        if a != b {
            return false;
        }
        i = i + 1;
    }
    true
}

impl StreamInfo {
    /// The display orientation from the first `rotate` tag (mkv/mov
    /// convention); `Normal` without one or for any other value.
    pub fn orientation(&self) -> (r: Orientation)
        ensures
            r == match rotate_index(self.tags@, 0) {
                Some(i) => rotation_of(i64_text(trimmed(encode_utf8(self.tags@[i].1@)))),
                None => Orientation::Normal,
            },
    {
        let tag: [u8; 6] = [114, 111, 116, 97, 116, 101];
        proof {
            assert(tag@ =~= rotate_tag());
        }
        let mut i = 0usize;
        while i < self.tags.len()
            invariant
                i <= self.tags@.len(),
                tag@ == rotate_tag(),
                rotate_index(self.tags@, 0) == rotate_index(self.tags@, i as int),
            decreases self.tags@.len() - i,
        {
            let (k, v) = &self.tags[i];
            if same_ignore_case(k.as_str().as_bytes(), tag.as_slice()) {
                let d = parse_i64(trim(v.as_str().as_bytes()));
                return match d {
                    Some(90) | Some(-270) => Orientation::Rotate90,
                    Some(180) | Some(-180) => Orientation::Rotate180,
                    Some(270) | Some(-90) => Orientation::Rotate270,
                    _ => Orientation::Normal,
                };
            }
            i = i + 1;
        }
        Orientation::Normal
    }

    /// `field_order` → [`FieldStructure`].
    pub fn field_structure(&self) -> (r: FieldStructure)
        ensures
            r == field_structure_of(self.field_order),
    {
        let s = &self.field_order;
        if is_text(s, "progressive") {
            FieldStructure::Progressive
        } else if is_text(s, "tt") || is_text(s, "tb") {
            FieldStructure::InterlacedTopFieldFirst
        } else if is_text(s, "bb") || is_text(s, "bt") {
            FieldStructure::InterlacedBottomFieldFirst
        } else {
            FieldStructure::Unknown
        }
    }

    /// `color_range` → [`ColorRange`] (`tv` limited, `pc` full).
    pub fn color_range(&self) -> (r: ColorRange)
        ensures
            r == color_range_of(self.color_range),
    {
        let s = &self.color_range;
        if is_text(s, "tv") || is_text(s, "limited") {
            ColorRange::Limited
        } else if is_text(s, "pc") || is_text(s, "full") {
            ColorRange::Full
        } else {
            ColorRange::Unspecified
        }
    }

    /// `color_space` (matrix) → [`MatrixCoefficients`].
    pub fn matrix(&self) -> (r: MatrixCoefficients)
        ensures
            r == matrix_of(self.color_space),
    {
        let s = &self.color_space;
        if is_text(s, "bt709") {
            MatrixCoefficients::Bt709
        } else if is_text(s, "bt470bg") || is_text(s, "smpte170m") {
            MatrixCoefficients::Smpte170M
        } else if is_text(s, "smpte240m") {
            MatrixCoefficients::Smpte240M
        } else if is_text(s, "ycgco") {
            MatrixCoefficients::YcgCo
        } else if is_text(s, "bt2020nc") || is_text(s, "bt2020ncl") {
            MatrixCoefficients::Bt2020Ncl
        } else if is_text(s, "bt2020c") || is_text(s, "bt2020cl") {
            MatrixCoefficients::Bt2020Cl
        } else if is_text(s, "gbr") || is_text(s, "identity") || is_text(s, "rgb") {
            MatrixCoefficients::Identity
        } else {
            MatrixCoefficients::Unspecified
        }
    }

    /// `color_transfer` → [`TransferCharacteristic`].
    pub fn transfer(&self) -> (r: TransferCharacteristic)
        ensures
            r == transfer_of(self.color_transfer),
    {
        let s = &self.color_transfer;
        if is_text(s, "bt709") {
            TransferCharacteristic::Bt709
        } else if is_text(s, "bt470m") || is_text(s, "gamma22") {
            TransferCharacteristic::Gamma22
        } else if is_text(s, "bt470bg") || is_text(s, "gamma28") {
            TransferCharacteristic::Gamma28
        } else if is_text(s, "smpte170m") {
            TransferCharacteristic::Smpte170M
        } else if is_text(s, "smpte240m") {
            TransferCharacteristic::Smpte240M
        } else if is_text(s, "linear") {
            TransferCharacteristic::Linear
        } else if is_text(s, "iec61966-2-1") || is_text(s, "srgb") {
            TransferCharacteristic::Srgb
        } else if is_text(s, "bt2020-10") {
            TransferCharacteristic::Bt2020_10
        } else if is_text(s, "bt2020-12") {
            TransferCharacteristic::Bt2020_12
        } else if is_text(s, "smpte2084") {
            TransferCharacteristic::Smpte2084
        } else if is_text(s, "arib-std-b67") {
            TransferCharacteristic::AribStdB67
        } else {
            TransferCharacteristic::Unspecified
        }
    }

    /// `color_primaries` → [`ColorPrimaries`].
    pub fn primaries(&self) -> (r: ColorPrimaries)
        ensures
            r == primaries_of(self.color_primaries),
    {
        let s = &self.color_primaries;
        if is_text(s, "bt709") {
            ColorPrimaries::Bt709
        } else if is_text(s, "bt470m") {
            ColorPrimaries::Bt470M
        } else if is_text(s, "bt470bg") {
            ColorPrimaries::Bt470Bg
        } else if is_text(s, "smpte170m") {
            ColorPrimaries::Smpte170M
        } else if is_text(s, "smpte240m") {
            ColorPrimaries::Smpte240M
        } else if is_text(s, "film") {
            ColorPrimaries::Film
        } else if is_text(s, "bt2020") {
            ColorPrimaries::Bt2020
        } else {
            ColorPrimaries::Unspecified
        }
    }

    /// `chroma_location` → [`ChromaLocation`].
    pub fn chroma_location(&self) -> (r: ChromaLocation)
        ensures
            r == chroma_location_of(self.chroma_location),
    {
        let s = &self.chroma_location;
        if is_text(s, "left") {
            ChromaLocation::Left
        } else if is_text(s, "center") {
            ChromaLocation::Center
        } else if is_text(s, "topleft") {
            ChromaLocation::TopLeft
        } else if is_text(s, "top") {
            ChromaLocation::Top
        } else if is_text(s, "bottomleft") {
            ChromaLocation::BottomLeft
        } else if is_text(s, "bottom") {
            ChromaLocation::Bottom
        } else {
            ChromaLocation::Unspecified
        }
    }

    /// Parse `sample_aspect_ratio` (`a:b`), `None` for `0:0`/`N/A`.
    pub fn sar(&self) -> (r: Option<(u32, u32)>)
        ensures
            r == match self.sample_aspect_ratio {
                Some(s) => sar_text(encode_utf8(s@)),
                None => None,
            },
    {
        match &self.sample_aspect_ratio {
            None => None,
            Some(s) => {
                let b = s.as_str().as_bytes();
                let len = b.len();
                let mut i = 0usize;
                while i < len
                    invariant
                        i <= len == b@.len(),
                        b@ == encode_utf8(s@),
                        self.sample_aspect_ratio == Some(*s),
                        forall|k: int| 0 <= k < i ==> b@[k] != 58,
                    decreases len - i,
                {
                    if b[i] == 58 {
                        proof {
                            let j = choose|j: int| 0 <= j < b@.len() && b@[j] == 58 && forall|k: int| 0 <= k < j ==> b@[k] != 58;
                            assert(j == i as int) by {
                                if j < i {
                                    assert(b@[j] != 58);
                                } else if j > i {
                                    assert(b@[i as int] != 58);
                                }
                            }
                        }
                        let a = parse_u64(vstd::slice::slice_subrange(b, 0, i));
                        let c = parse_u64(vstd::slice::slice_subrange(b, i + 1, len));
                        return match (a, c) {
                            (Some(a), Some(c)) => if a == 0 || c == 0 || a >= 0x8000_0000 || c >= 0x8000_0000 {
                                None
                            } else {
                                Some((a as u32, c as u32))
                            },
                            _ => None,
                        };
                    }
                    i = i + 1;
                }
                None
            },
        }
    }

    /// Whether this probed stream is a usable video track (codec type
    /// video, not an attached picture).
    pub fn is_usable_video(&self) -> (r: bool)
        ensures
            r == (holds(self.codec_type, "video"@) && !self.attached_pic),
    {
        is_text(&self.codec_type, "video") && !self.attached_pic
    }
}

/// Whether a probed stream is a usable video track.
pub open spec fn usable(s: StreamInfo) -> bool {
    holds(s.codec_type, "video"@) && !s.attached_pic
}

/// Deterministic stream selection over the probed video streams: an
/// explicit index must name a usable video stream; otherwise the usable
/// default-disposition (or attached) stream with the lowest index, else
/// the usable stream with the lowest index. No candidate is
/// `BridgeProbeFailed`.
pub fn choose_video_stream(streams: &[StreamInfo], explicit: Option<u64>) -> (r: Result<u64, VoleError>)
    ensures
        match explicit {
            Some(idx) => if exists|i: int| 0 <= i < streams@.len() && #[trigger] streams@[i].index == idx && usable(streams@[i]) {
                r == Ok::<u64, VoleError>(idx)
            } else {
                r == Err::<u64, VoleError>(VoleError::BridgeProbeFailed)
            },
            None => {
                &&& r is Err <==> forall|i: int| 0 <= i < streams@.len() ==> !usable(#[trigger] streams@[i])
                &&& r matches Err(e) ==> e == VoleError::BridgeProbeFailed
                &&& r matches Ok(v) ==> exists|i: int|
                    0 <= i < streams@.len() && usable(#[trigger] streams@[i]) && streams@[i].index == v && (
                    streams@[i].is_default || streams@[i].attached_pic || forall|j: int|
                        0 <= j < streams@.len() && usable(#[trigger] streams@[j]) ==> !(streams@[j].is_default || streams@[j].attached_pic))
                        && forall|j: int|
                        0 <= j < streams@.len() && usable(#[trigger] streams@[j]) && ((streams@[j].is_default
                            || streams@[j].attached_pic) == (streams@[i].is_default || streams@[i].attached_pic)) ==> v <= streams@[j].index
            },
        },
{
    if let Some(idx) = explicit {
        let mut i = 0usize;
        while i < streams.len()
            invariant
                i <= streams@.len(),
                explicit == Some(idx),
                forall|k: int| 0 <= k < i ==> !(#[trigger] streams@[k].index == idx && usable(streams@[k])),
            decreases streams@.len() - i,
        {
            if streams[i].index == idx && streams[i].is_usable_video() {
                proof {
                    assert(streams@[i as int].index == idx && usable(streams@[i as int]));
                }
                return Ok(idx);
            }
            i = i + 1;
        }
        return Err(VoleError::BridgeProbeFailed);
    }
    // Best flagged candidate and best plain candidate, lowest index first.
    let mut flagged: Option<usize> = None;
    let mut plain: Option<usize> = None;
    let mut i = 0usize;
    while i < streams.len()
        invariant
            i <= streams@.len(),
            flagged matches Some(f) ==> f < i && usable(streams@[f as int]) && (streams@[f as int].is_default
                || streams@[f as int].attached_pic) && forall|j: int|
                0 <= j < i && usable(#[trigger] streams@[j]) && (streams@[j].is_default || streams@[j].attached_pic) ==> streams@[f as int].index
                    <= streams@[j].index,
            flagged is None ==> forall|j: int|
                0 <= j < i && usable(#[trigger] streams@[j]) ==> !(streams@[j].is_default || streams@[j].attached_pic),
            plain matches Some(f) ==> f < i && usable(streams@[f as int]) && forall|j: int|
                0 <= j < i && usable(#[trigger] streams@[j]) ==> streams@[f as int].index <= streams@[j].index,
            plain is None ==> forall|j: int| 0 <= j < i ==> !usable(#[trigger] streams@[j]),
        decreases streams@.len() - i,
    {
        if streams[i].is_usable_video() {
            if streams[i].is_default || streams[i].attached_pic {
                match flagged {
                    Some(f) => {
                        if streams[i].index < streams[f].index {
                            flagged = Some(i);
                        }
                    },
                    None => {
                        flagged = Some(i);
                    },
                }
            }
            match plain {
                Some(f) => {
                    if streams[i].index < streams[f].index {
                        plain = Some(i);
                    }
                },
                None => {
                    plain = Some(i);
                },
            }
        }
        i = i + 1;
    }
    match flagged {
        Some(f) => Ok(streams[f].index),
        None => match plain {
            Some(f) => Ok(streams[f].index),
            None => Err(VoleError::BridgeProbeFailed),
        },
    }
}

/// The text `String::from_utf8_lossy` reads from `bytes`: a function of
/// the bytes alone.
pub uninterp spec fn lossy_text(bytes: Seq<u8>) -> Seq<char>;

/// Calls `String::from_utf8_lossy` and `Cow::into_owned`. Trusted: the
/// text is the lossy reading of exactly the bytes given (invalid UTF-8
/// sequences become replacement characters), and valid UTF-8 such as an
/// ASCII input reads as the characters it encodes. Nothing more is claimed
/// of non-ASCII input.
#[verifier::external_body]
fn text_of(bytes: &[u8]) -> (r: String)
    ensures
        r@ == lossy_text(bytes@),
        (forall|i: int| 0 <= i < bytes@.len() ==> #[trigger] bytes@[i] < 128) ==> r@ == bytes@.map_values(
            |b: u8| b as char,
        ),
{
    String::from_utf8_lossy(bytes).into_owned()
}

/// The `key=value` pair of a line: the line trimmed, split at its first
/// `=`, key and value trimmed; `None` without `=`.
pub open spec fn kv_of(line: Seq<u8>) -> Option<(Seq<u8>, Seq<u8>)> {
    let t = trimmed(line);
    if exists|i: int| 0 <= i < t.len() && t[i] == 61 {
        let i = choose|i: int| 0 <= i < t.len() && t[i] == 61 && forall|k: int| 0 <= k < i ==> t[k] != 61;
        Some((trimmed(t.subrange(0, i)), trimmed(t.subrange(i + 1, t.len() as int))))
    } else {
        None
    }
}

/// The pairs of a block of lines, in order.
pub open spec fn kv_block(lines: Seq<Seq<u8>>) -> Seq<(Seq<u8>, Seq<u8>)>
    decreases lines.len(),
{
    if lines.len() == 0 {
        Seq::empty()
    } else {
        let r = kv_block(lines.drop_last());
        match kv_of(lines.last()) {
            Some(p) => r.push(p),
            None => r,
        }
    }
}

/// The value of the first pair whose key spells `key`.
pub open spec fn lookup(kv: Seq<(Seq<u8>, Seq<u8>)>, key: Seq<char>) -> Option<Seq<u8>> {
    if exists|i: int| 0 <= i < kv.len() && lossy_text(kv[i].0) == key {
        let i = choose|i: int| 0 <= i < kv.len() && lossy_text(kv[i].0) == key && forall|j: int| 0 <= j < i ==> lossy_text(kv[j].0) != key;
        Some(kv[i].1)
    } else {
        None
    }
}

/// The text of an optional string.
pub open spec fn opt_text(o: Option<String>) -> Option<Seq<char>> {
    match o {
        Some(s) => Some(s@),
        None => None,
    }
}

/// The text of an optional byte value.
pub open spec fn opt_text_of(o: Option<Seq<u8>>) -> Option<Seq<char>> {
    match o {
        Some(v) => Some(lossy_text(v)),
        None => None,
    }
}

/// The decimal an optional byte value spells, read from its lossy text
/// (for ASCII values, from the bytes themselves).
pub open spec fn opt_u64(o: Option<Seq<u8>>) -> Option<u64> {
    match o {
        Some(v) => u64_text(encode_utf8(lossy_text(v))),
        None => None,
    }
}

/// Whether a `String` table spells the byte table `kv`.
pub open spec fn spells(r: Seq<(String, String)>, kv: Seq<(Seq<u8>, Seq<u8>)>) -> bool {
    &&& r.len() == kv.len()
    &&& forall|j: int| 0 <= j < r.len() ==> (#[trigger] r[j]).0@ == lossy_text(kv[j].0) && r[j].1@ == lossy_text(kv[j].1)
}

/// The `key=value` pairs of a block of lines: each line trimmed, split at
/// its first `=`, key and value trimmed; lines without `=` are skipped.
/// Each pair is the lossy text of its key and value bytes.
fn parse_block(lines: &[&[u8]]) -> (r: Vec<(String, String)>)
    ensures
        r@.len() <= lines@.len(),
        spells(r@, kv_block(lines@.map_values(|l: &[u8]| l@))),
{
    let ghost views = lines@.map_values(|l: &[u8]| l@);
    let mut out: Vec<(String, String)> = Vec::new();
    let mut n = 0usize;
    proof {
        assert(views.take(0) =~= Seq::<Seq<u8>>::empty());
    }
    while n < lines.len()
        invariant
            n <= lines@.len(),
            out@.len() <= n,
            views == lines@.map_values(|l: &[u8]| l@),
            spells(out@, kv_block(views.take(n as int))),
        decreases lines@.len() - n,
    {
        let raw = lines[n];
        let line = trim(raw);
        let len = line.len();
        let mut i = 0usize;
        while i < len
            invariant
                i <= len == line@.len(),
                forall|k: int| 0 <= k < i ==> line@[k] != 61,
            ensures
                i <= len,
                forall|k: int| 0 <= k < i ==> line@[k] != 61,
                i < len ==> line@[i as int] == 61,
            decreases len - i,
        {
            if line[i] == 61 {
                break;
            }
            i = i + 1;
        }
        proof {
            assert(views.take(n + 1).drop_last() =~= views.take(n as int));
            assert(views.take(n + 1).last() == raw@);
        }
        if i < len {
            let ks = vstd::slice::slice_subrange(line, 0, i);
            let vs = vstd::slice::slice_subrange(line, i + 1, len);
            let k = trim(ks);
            let v = trim(vs);
            proof {
                let t = trimmed(raw@);
                let j = choose|j: int| 0 <= j < t.len() && t[j] == 61 && forall|q: int| 0 <= q < j ==> t[q] != 61;
                assert(j == i as int) by {
                    if j < i {
                        assert(line@[j] != 61);
                    } else if j > i {
                        assert(t[i as int] != 61);
                    }
                }
            }
            let ks_text = text_of(k);
            let vs_text = text_of(v);
            out.push((ks_text, vs_text));
        } else {
            proof {
                assert(kv_of(raw@) is None);
            }
        }
        n = n + 1;
    }
    proof {
        assert(views.take(lines@.len() as int) =~= views);
    }
    out
}

/// The value of the first pair whose key is `key`.
fn get(kv: &Vec<(String, String)>, key: &str) -> (r: Option<String>)
    ensures
        r matches Some(v) ==> exists|i: int|
            0 <= i < kv@.len() && kv@[i].0@ == key@ && #[trigger] kv@[i].1@ == v@ && forall|j: int|
                0 <= j < i ==> kv@[j].0@ != key@,
        r is None ==> forall|i: int| 0 <= i < kv@.len() ==> (#[trigger] kv@[i]).0@ != key@,
{
    let want = key.to_owned();
    let mut i = 0usize;
    while i < kv.len()
        invariant
            i <= kv@.len(),
            want@ == key@,
            forall|k: int| 0 <= k < i ==> (#[trigger] kv@[k]).0@ != key@,
        decreases kv@.len() - i,
    {
        if kv[i].0 == want {
            let v = kv[i].1.clone();
            proof {
                assert(kv@[i as int].0@ == key@ && kv@[i as int].1@ == v@);
            }
            return Some(v);
        }
        i = i + 1;
    }
    None
}

proof fn lemma_lookup_first(kv: Seq<(Seq<u8>, Seq<u8>)>, key: Seq<char>, i: int)
    requires
        0 <= i < kv.len(),
        lossy_text(kv[i].0) == key,
        forall|j: int| 0 <= j < i ==> lossy_text(#[trigger] kv[j].0) != key,
    ensures
        lookup(kv, key) == Some(kv[i].1),
{
    let c = choose|c: int|
        0 <= c < kv.len() && lossy_text(kv[c].0) == key && forall|j: int| 0 <= j < c ==> lossy_text(kv[j].0) != key;
    assert(c == i) by {
        if c < i {
            assert(lossy_text(kv[c].0) != key);
        } else if c > i {
            assert(lossy_text(kv[i].0) != key);
        }
    }
}

/// Looking a key up in a `String` table that spells a byte table.
#[verifier::rlimit(50)]
proof fn lemma_get_spells(r: Seq<(String, String)>, kv: Seq<(Seq<u8>, Seq<u8>)>, key: Seq<char>, got: Option<String>)
    requires
        spells(r, kv),
        got matches Some(v) ==> exists|i: int|
            0 <= i < r.len() && r[i].0@ == key && #[trigger] r[i].1@ == v@ && forall|j: int| 0 <= j < i ==> r[j].0@ != key,
        got is None ==> forall|i: int| 0 <= i < r.len() ==> (#[trigger] r[i]).0@ != key,
    ensures
        opt_text(got) == opt_text_of(lookup(kv, key)),
        got matches Some(v) ==> lookup(kv, key) matches Some(b) && v@ == lossy_text(b),
{
    match got {
        Some(v) => {
            let i = choose|i: int|
                0 <= i < r.len() && r[i].0@ == key && #[trigger] r[i].1@ == v@ && forall|j: int| 0 <= j < i ==> r[j].0@ != key;
            assert(r[i].0@ == lossy_text(kv[i].0));
            assert forall|j: int| 0 <= j < i implies lossy_text(#[trigger] kv[j].0) != key by {
                assert(r[j].0@ == lossy_text(kv[j].0));
                assert(r[j].0@ != key);
            }
            lemma_lookup_first(kv, key, i);
        },
        None => {
            assert forall|i: int| 0 <= i < kv.len() implies lossy_text(kv[i].0) != key by {
                assert(r[i].0@ == lossy_text(kv[i].0));
                assert(r[i].0@ != key);
            }
        },
    }
}

/// The decimal value of the first pair whose key is `key`.
fn get_u64(kv: &Vec<(String, String)>, key: &str) -> (r: Option<u64>)
    ensures
        forall|b: Seq<(Seq<u8>, Seq<u8>)>| #[trigger] spells(kv@, b) ==> r == opt_u64(lookup(b, key@)),
{
    let got = get(kv, key);
    proof {
        assert forall|b: Seq<(Seq<u8>, Seq<u8>)>| #[trigger] spells(kv@, b) implies (match got {
            Some(v) => lookup(b, key@) matches Some(x) && v@ == lossy_text(x),
            None => lookup(b, key@) is None,
        }) by {
            lemma_get_spells(kv@, b, key@, got);
        }
    }
    match got {
        Some(v) => {
            let vstr = v.as_str();
            let bs = vstr.as_bytes();
            proof {
                assert forall|b: Seq<(Seq<u8>, Seq<u8>)>| #[trigger] spells(kv@, b) implies bs@ == encode_utf8(
                    lossy_text(lookup(b, key@)->0),
                ) by {
                    assert(vstr@ == v@);
                }
            }
            parse_u64(bs)
        },
        None => None,
    }
}

/// The value of the first pair whose key is `key`, as its text.
fn get_text(kv: &Vec<(String, String)>, key: &str) -> (r: Option<String>)
    ensures
        forall|b: Seq<(Seq<u8>, Seq<u8>)>| #[trigger] spells(kv@, b) ==> opt_text(r) == opt_text_of(lookup(b, key@)),
{
    let got = get(kv, key);
    proof {
        assert forall|b: Seq<(Seq<u8>, Seq<u8>)>| #[trigger] spells(kv@, b) implies opt_text(got) == opt_text_of(
            lookup(b, key@),
        ) by {
            lemma_get_spells(kv@, b, key@, got);
        }
    }
    got
}

/// The flag of the first pair whose key is `key` (`1` is set).
fn get_flag(kv: &Vec<(String, String)>, key: &str) -> (r: bool)
    ensures
        forall|b: Seq<(Seq<u8>, Seq<u8>)>| #[trigger] spells(kv@, b) ==> r == (opt_text_of(lookup(b, key@)) == Some(
            "1"@,
        )),
{
    let got = get_text(kv, key);
    is_text(&got, "1")
}

/// Whether the named fields of `s` are the values of their keys in `b`:
/// texts as spelled, numbers read as decimals (`index` defaulting to 0),
/// flags set by `1`.
pub open spec fn stream_fields(s: StreamInfo, b: Seq<(Seq<u8>, Seq<u8>)>) -> bool {
    &&& s.index == (match opt_u64(lookup(b, "index"@)) {
        Some(v) => v,
        None => 0,
    })
    &&& opt_text(s.codec_name) == opt_text_of(lookup(b, "codec_name"@))
    &&& opt_text(s.codec_type) == opt_text_of(lookup(b, "codec_type"@))
    &&& opt_text(s.profile) == opt_text_of(lookup(b, "profile"@))
    &&& s.width == opt_u64(lookup(b, "width"@))
    &&& s.height == opt_u64(lookup(b, "height"@))
    &&& s.coded_width == opt_u64(lookup(b, "coded_width"@))
    &&& s.coded_height == opt_u64(lookup(b, "coded_height"@))
    &&& opt_text(s.pix_fmt) == opt_text_of(lookup(b, "pix_fmt"@))
    &&& opt_text(s.time_base) == opt_text_of(lookup(b, "time_base"@))
    &&& opt_text(s.start_pts) == opt_text_of(lookup(b, "start_pts"@))
    &&& opt_text(s.duration_ts) == opt_text_of(lookup(b, "duration_ts"@))
    &&& opt_text(s.nb_frames) == opt_text_of(lookup(b, "nb_frames"@))
    &&& opt_text(s.avg_frame_rate) == opt_text_of(lookup(b, "avg_frame_rate"@))
    &&& opt_text(s.r_frame_rate) == opt_text_of(lookup(b, "r_frame_rate"@))
    &&& opt_text(s.sample_aspect_ratio) == opt_text_of(lookup(b, "sample_aspect_ratio"@))
    &&& opt_text(s.field_order) == opt_text_of(lookup(b, "field_order"@))
    &&& opt_text(s.color_range) == opt_text_of(lookup(b, "color_range"@))
    &&& opt_text(s.color_space) == opt_text_of(lookup(b, "color_space"@))
    &&& opt_text(s.color_transfer) == opt_text_of(lookup(b, "color_transfer"@))
    &&& opt_text(s.color_primaries) == opt_text_of(lookup(b, "color_primaries"@))
    &&& opt_text(s.chroma_location) == opt_text_of(lookup(b, "chroma_location"@))
    &&& opt_text(s.bits_per_raw_sample) == opt_text_of(lookup(b, "bits_per_raw_sample"@))
    &&& s.attached_pic == (opt_text_of(lookup(b, "disposition.attached_pic"@)) == Some("1"@))
    &&& s.is_default == (opt_text_of(lookup(b, "disposition.default"@)) == Some("1"@))
}

/// A stream record from its `key=value` pairs: the named fields (numbers
/// parsed, raw strings kept), the `TAG:` pairs as tags, the disposition
/// flags set by `1`.
#[verifier::rlimit(60)]
fn stream_from_kv(kv: &Vec<(String, String)>) -> (r: StreamInfo)
    ensures
        forall|b: Seq<(Seq<u8>, Seq<u8>)>| #[trigger] spells(kv@, b) ==> stream_fields(r, b),
{
    let mut tags: Vec<(String, String)> = Vec::new();
    let prefix: [u8; 4] = [84, 65, 71, 58];
    let mut i = 0usize;
    while i < kv.len()
        decreases kv@.len() - i,
    {
        let (k, v) = &kv[i];
        let kb = k.as_str().as_bytes();
        if starts_with(kb, prefix.as_slice()) {
            let name = text_of(vstd::slice::slice_subrange(kb, 4, kb.len()));
            tags.push((name, v.clone()));
        }
        i = i + 1;
    }
    StreamInfo {
        index: match get_u64(kv, "index") {
            Some(v) => v,
            None => 0,
        },
        codec_name: get_text(kv, "codec_name"),
        codec_type: get_text(kv, "codec_type"),
        profile: get_text(kv, "profile"),
        width: get_u64(kv, "width"),
        height: get_u64(kv, "height"),
        coded_width: get_u64(kv, "coded_width"),
        coded_height: get_u64(kv, "coded_height"),
        pix_fmt: get_text(kv, "pix_fmt"),
        time_base: get_text(kv, "time_base"),
        start_pts: get_text(kv, "start_pts"),
        duration_ts: get_text(kv, "duration_ts"),
        nb_frames: get_text(kv, "nb_frames"),
        avg_frame_rate: get_text(kv, "avg_frame_rate"),
        r_frame_rate: get_text(kv, "r_frame_rate"),
        sample_aspect_ratio: get_text(kv, "sample_aspect_ratio"),
        field_order: get_text(kv, "field_order"),
        color_range: get_text(kv, "color_range"),
        color_space: get_text(kv, "color_space"),
        color_transfer: get_text(kv, "color_transfer"),
        color_primaries: get_text(kv, "color_primaries"),
        chroma_location: get_text(kv, "chroma_location"),
        bits_per_raw_sample: get_text(kv, "bits_per_raw_sample"),
        tags,
        attached_pic: get_flag(kv, "disposition.attached_pic"),
        is_default: get_flag(kv, "disposition.default"),
    }
}

/// Whether a (trimmed) line opens a stream record.
pub open spec fn opens_record(line: Seq<u8>) -> bool {
    line.len() >= 6 && line.subrange(0, 6) == seq![105u8, 110, 100, 101, 120, 61]
}

/// The record blocks of a run of lines: each trimmed line that opens a
/// record starts a new block, the other trimmed lines join the current
/// one (lines before the first opener belong to none).
pub open spec fn record_blocks(lines: Seq<Seq<u8>>) -> Seq<Seq<Seq<u8>>>
    decreases lines.len(),
{
    if lines.len() == 0 {
        Seq::empty()
    } else {
        let r = record_blocks(lines.drop_last());
        let t = trimmed(lines.last());
        if opens_record(t) {
            r.push(seq![t])
        } else if r.len() > 0 {
            r.update(r.len() - 1, r.last().push(t))
        } else {
            r
        }
    }
}

/// Split the merged stream records of the prober's output on their
/// `index=` lines (lines before the first are ignored) and read each one:
/// one stream per `index=` line, in order; each stream's named fields are
/// the values of their keys in its own block.
#[verifier::rlimit(60)]
pub fn parse_stream_records(bytes: &[u8]) -> (r: Vec<StreamInfo>)
    ensures
        r@.len() == record_blocks(lines_of(bytes@)).len(),
        forall|k: int|
            0 <= k < r@.len() ==> stream_fields(#[trigger] r@[k], kv_block(record_blocks(lines_of(bytes@))[k])),
{
    let lines = split_lines(bytes);
    let ghost views = lines_of(bytes@);
    proof {
        assert(views.take(0) =~= Seq::<Seq<u8>>::empty());
    }
    let opener: [u8; 6] = [105, 110, 100, 101, 120, 61];
    proof {
        assert(opener@ =~= seq![105u8, 110, 100, 101, 120, 61]);
    }
    let mut records: Vec<StreamInfo> = Vec::new();
    let mut current: Vec<&[u8]> = Vec::new();
    let mut in_record = false;
    let mut n = 0usize;
    while n < lines.len()
        invariant
            n <= lines@.len(),
            lines@.len() == views.len(),
            views == lines_of(bytes@),
            forall|i: int| 0 <= i < lines@.len() ==> #[trigger] lines@[i]@ == views[i],
            in_record <==> record_blocks(views.take(n as int)).len() > 0,
            in_record ==> records@.len() + 1 == record_blocks(views.take(n as int)).len(),
            !in_record ==> records@.len() == 0,
            !in_record ==> current@.len() == 0,
            opener@ == seq![105u8, 110, 100, 101, 120, 61],
            in_record ==> current@.map_values(|l: &[u8]| l@) == record_blocks(views.take(n as int)).last(),
            forall|k: int|
                0 <= k < records@.len() ==> stream_fields(
                    #[trigger] records@[k],
                    kv_block(record_blocks(views.take(n as int))[k]),
                ),
        decreases lines@.len() - n,
    {
        let ghost rb0 = record_blocks(views.take(n as int));
        let trimmed_line = trim(lines[n]);
        proof {
            assert(views.take(n + 1).drop_last() =~= views.take(n as int));
            assert(views.take(n + 1).last() == lines@[n as int]@);
        }
        let opens = starts_with(trimmed_line, opener.as_slice());
        if opens {
            if in_record {
                let kv = parse_block(current.as_slice());
                let st = stream_from_kv(&kv);
                proof {
                    assert(spells(kv@, kv_block(current@.map_values(|l: &[u8]| l@))));
                }
                records.push(st);
                current = Vec::new();
            }
            in_record = true;
        }
        if in_record {
            current.push(trimmed_line);
        }
        n = n + 1;
        proof {
            let rb1 = record_blocks(views.take(n as int));
            if opens {
                assert(rb1 == rb0.push(seq![trimmed_line@]));
                assert(current@.map_values(|l: &[u8]| l@) =~= seq![trimmed_line@]);
            } else if rb0.len() > 0 {
                assert(rb1 == rb0.update(rb0.len() - 1, rb0.last().push(trimmed_line@)));
                assert(current@.map_values(|l: &[u8]| l@) =~= rb0.last().push(trimmed_line@));
            }
            assert forall|k: int| 0 <= k < records@.len() implies stream_fields(
                #[trigger] records@[k],
                kv_block(rb1[k]),
            ) by {
                assert(rb1[k] == rb0[k]);
            }
        }
    }
    proof {
        assert(views.take(lines@.len() as int) =~= views);
    }
    if in_record {
        let kv = parse_block(current.as_slice());
        let st = stream_from_kv(&kv);
        proof {
            assert(spells(kv@, kv_block(current@.map_values(|l: &[u8]| l@))));
        }
        records.push(st);
    }
    records
}

/// Read the prober's format record: each field is the value of the first
/// line whose key names it (`nb_streams` read as a decimal).
pub fn parse_format(bytes: &[u8]) -> (r: FormatInfo)
    ensures
        ({
            let kv = kv_block(lines_of(bytes@));
            &&& opt_text(r.container) == opt_text_of(lookup(kv, "format_name"@))
            &&& opt_text(r.duration) == opt_text_of(lookup(kv, "duration"@))
            &&& opt_text(r.start_time) == opt_text_of(lookup(kv, "start_time"@))
            &&& opt_text(r.bit_rate) == opt_text_of(lookup(kv, "bit_rate"@))
            &&& r.nb_streams == opt_u64(lookup(kv, "nb_streams"@))
        }),
{
    let lines = split_lines(bytes);
    proof {
        assert(lines@.map_values(|l: &[u8]| l@) =~= lines_of(bytes@));
    }
    let kv = parse_block(lines.as_slice());
    let ghost kvb = kv_block(lines_of(bytes@));
    let container = get(&kv, "format_name");
    let duration = get(&kv, "duration");
    let start_time = get(&kv, "start_time");
    let bit_rate = get(&kv, "bit_rate");
    let nb_streams = get_u64(&kv, "nb_streams");
    proof {
        lemma_get_spells(kv@, kvb, "format_name"@, container);
        lemma_get_spells(kv@, kvb, "duration"@, duration);
        lemma_get_spells(kv@, kvb, "start_time"@, start_time);
        lemma_get_spells(kv@, kvb, "bit_rate"@, bit_rate);
    }
    FormatInfo { container, duration, start_time, bit_rate, nb_streams }
}

/// ffprobe's `color_range` names: `tv` and `limited` are limited range,
/// `pc` and `full` full range; an absent value is unspecified.
pub proof fn law_color_range_names(t: String)
    ensures
        t@ == seq!['t', 'v'] ==> color_range_of(Some(t)) == ColorRange::Limited,
        t@ == seq!['l', 'i', 'm', 'i', 't', 'e', 'd'] ==> color_range_of(Some(t)) == ColorRange::Limited,
        t@ == seq!['p', 'c'] ==> color_range_of(Some(t)) == ColorRange::Full,
        t@ == seq!['f', 'u', 'l', 'l'] ==> color_range_of(Some(t)) == ColorRange::Full,
        color_range_of(None) == ColorRange::Unspecified,
{
    reveal_strlit("tv");
    reveal_strlit("limited");
    reveal_strlit("pc");
    reveal_strlit("full");
    assert("tv"@ =~= seq!['t', 'v']);
    assert("limited"@ =~= seq!['l', 'i', 'm', 'i', 't', 'e', 'd']);
    assert("pc"@ =~= seq!['p', 'c']);
    assert("full"@ =~= seq!['f', 'u', 'l', 'l']);
    if t@ == seq!['p', 'c'] {
        assert(t@[0] != "tv"@[0]);
        assert(t@.len() != "limited"@.len());
    }
    if t@ == seq!['f', 'u', 'l', 'l'] {
        assert(t@.len() != "tv"@.len());
        assert(t@.len() != "limited"@.len());
    }
}


/// ffprobe's `field_order` names and what each one means; an absent value
/// is `Unknown`.
pub proof fn law_field_structure_names(t: String)
    ensures
        t@ == seq!['p', 'r', 'o', 'g', 'r', 'e', 's', 's', 'i', 'v', 'e'] ==> field_structure_of(Some(t)) == FieldStructure::Progressive,
        t@ == seq!['t', 't'] ==> field_structure_of(Some(t)) == FieldStructure::InterlacedTopFieldFirst,
        t@ == seq!['t', 'b'] ==> field_structure_of(Some(t)) == FieldStructure::InterlacedTopFieldFirst,
        t@ == seq!['b', 'b'] ==> field_structure_of(Some(t)) == FieldStructure::InterlacedBottomFieldFirst,
        t@ == seq!['b', 't'] ==> field_structure_of(Some(t)) == FieldStructure::InterlacedBottomFieldFirst,
        field_structure_of(None) == FieldStructure::Unknown,
{
    reveal_strlit("progressive");
    reveal_strlit("tt");
    reveal_strlit("tb");
    reveal_strlit("bb");
    reveal_strlit("bt");
    assert("progressive"@ =~= seq!['p', 'r', 'o', 'g', 'r', 'e', 's', 's', 'i', 'v', 'e']);
    assert("tt"@ =~= seq!['t', 't']);
    assert("tb"@ =~= seq!['t', 'b']);
    assert("bb"@ =~= seq!['b', 'b']);
    assert("bt"@ =~= seq!['b', 't']);
    if t@ == seq!['p', 'r', 'o', 'g', 'r', 'e', 's', 's', 'i', 'v', 'e'] {
        assert(t@.len() != "tt"@.len());
        assert(t@.len() != "tb"@.len());
        assert(t@.len() != "bb"@.len());
        assert(t@.len() != "bt"@.len());
    }
    if t@ == seq!['t', 't'] {
        assert(t@.len() != "progressive"@.len());
        assert(t@[1] != "tb"@[1]);
        assert(t@[0] != "bb"@[0]);
        assert(t@[0] != "bt"@[0]);
    }
    if t@ == seq!['t', 'b'] {
        assert(t@.len() != "progressive"@.len());
        assert(t@[1] != "tt"@[1]);
        assert(t@[0] != "bb"@[0]);
        assert(t@[0] != "bt"@[0]);
    }
    if t@ == seq!['b', 'b'] {
        assert(t@.len() != "progressive"@.len());
        assert(t@[0] != "tt"@[0]);
        assert(t@[0] != "tb"@[0]);
        assert(t@[1] != "bt"@[1]);
    }
    if t@ == seq!['b', 't'] {
        assert(t@.len() != "progressive"@.len());
        assert(t@[0] != "tt"@[0]);
        assert(t@[0] != "tb"@[0]);
        assert(t@[1] != "bb"@[1]);
    }
}

/// ffprobe's `color_space` names and what each one means; an absent value
/// is `Unspecified`.
pub proof fn law_matrix_names(t: String)
    ensures
        t@ == seq!['b', 't', '7', '0', '9'] ==> matrix_of(Some(t)) == MatrixCoefficients::Bt709,
        t@ == seq!['b', 't', '4', '7', '0', 'b', 'g'] ==> matrix_of(Some(t)) == MatrixCoefficients::Smpte170M,
        t@ == seq!['s', 'm', 'p', 't', 'e', '1', '7', '0', 'm'] ==> matrix_of(Some(t)) == MatrixCoefficients::Smpte170M,
        t@ == seq!['s', 'm', 'p', 't', 'e', '2', '4', '0', 'm'] ==> matrix_of(Some(t)) == MatrixCoefficients::Smpte240M,
        t@ == seq!['y', 'c', 'g', 'c', 'o'] ==> matrix_of(Some(t)) == MatrixCoefficients::YcgCo,
        t@ == seq!['b', 't', '2', '0', '2', '0', 'n', 'c'] ==> matrix_of(Some(t)) == MatrixCoefficients::Bt2020Ncl,
        t@ == seq!['b', 't', '2', '0', '2', '0', 'n', 'c', 'l'] ==> matrix_of(Some(t)) == MatrixCoefficients::Bt2020Ncl,
        t@ == seq!['b', 't', '2', '0', '2', '0', 'c'] ==> matrix_of(Some(t)) == MatrixCoefficients::Bt2020Cl,
        t@ == seq!['b', 't', '2', '0', '2', '0', 'c', 'l'] ==> matrix_of(Some(t)) == MatrixCoefficients::Bt2020Cl,
        t@ == seq!['g', 'b', 'r'] ==> matrix_of(Some(t)) == MatrixCoefficients::Identity,
        t@ == seq!['i', 'd', 'e', 'n', 't', 'i', 't', 'y'] ==> matrix_of(Some(t)) == MatrixCoefficients::Identity,
        t@ == seq!['r', 'g', 'b'] ==> matrix_of(Some(t)) == MatrixCoefficients::Identity,
        matrix_of(None) == MatrixCoefficients::Unspecified,
{
    reveal_strlit("bt709");
    reveal_strlit("bt470bg");
    reveal_strlit("smpte170m");
    reveal_strlit("smpte240m");
    reveal_strlit("ycgco");
    reveal_strlit("bt2020nc");
    reveal_strlit("bt2020ncl");
    reveal_strlit("bt2020c");
    reveal_strlit("bt2020cl");
    reveal_strlit("gbr");
    reveal_strlit("identity");
    reveal_strlit("rgb");
    assert("bt709"@ =~= seq!['b', 't', '7', '0', '9']);
    assert("bt470bg"@ =~= seq!['b', 't', '4', '7', '0', 'b', 'g']);
    assert("smpte170m"@ =~= seq!['s', 'm', 'p', 't', 'e', '1', '7', '0', 'm']);
    assert("smpte240m"@ =~= seq!['s', 'm', 'p', 't', 'e', '2', '4', '0', 'm']);
    assert("ycgco"@ =~= seq!['y', 'c', 'g', 'c', 'o']);
    assert("bt2020nc"@ =~= seq!['b', 't', '2', '0', '2', '0', 'n', 'c']);
    assert("bt2020ncl"@ =~= seq!['b', 't', '2', '0', '2', '0', 'n', 'c', 'l']);
    assert("bt2020c"@ =~= seq!['b', 't', '2', '0', '2', '0', 'c']);
    assert("bt2020cl"@ =~= seq!['b', 't', '2', '0', '2', '0', 'c', 'l']);
    assert("gbr"@ =~= seq!['g', 'b', 'r']);
    assert("identity"@ =~= seq!['i', 'd', 'e', 'n', 't', 'i', 't', 'y']);
    assert("rgb"@ =~= seq!['r', 'g', 'b']);
    if t@ == seq!['b', 't', '7', '0', '9'] {
        assert(t@.len() != "bt470bg"@.len());
        assert(t@.len() != "smpte170m"@.len());
        assert(t@.len() != "smpte240m"@.len());
        assert(t@[0] != "ycgco"@[0]);
        assert(t@.len() != "bt2020nc"@.len());
        assert(t@.len() != "bt2020ncl"@.len());
        assert(t@.len() != "bt2020c"@.len());
        assert(t@.len() != "bt2020cl"@.len());
        assert(t@.len() != "gbr"@.len());
        assert(t@.len() != "identity"@.len());
        assert(t@.len() != "rgb"@.len());
    }
    if t@ == seq!['b', 't', '4', '7', '0', 'b', 'g'] {
        assert(t@.len() != "bt709"@.len());
        assert(t@.len() != "smpte170m"@.len());
        assert(t@.len() != "smpte240m"@.len());
        assert(t@.len() != "ycgco"@.len());
        assert(t@.len() != "bt2020nc"@.len());
        assert(t@.len() != "bt2020ncl"@.len());
        assert(t@[2] != "bt2020c"@[2]);
        assert(t@.len() != "bt2020cl"@.len());
        assert(t@.len() != "gbr"@.len());
        assert(t@.len() != "identity"@.len());
        assert(t@.len() != "rgb"@.len());
    }
    if t@ == seq!['s', 'm', 'p', 't', 'e', '1', '7', '0', 'm'] {
        assert(t@.len() != "bt709"@.len());
        assert(t@.len() != "bt470bg"@.len());
        assert(t@[5] != "smpte240m"@[5]);
        assert(t@.len() != "ycgco"@.len());
        assert(t@.len() != "bt2020nc"@.len());
        assert(t@[0] != "bt2020ncl"@[0]);
        assert(t@.len() != "bt2020c"@.len());
        assert(t@.len() != "bt2020cl"@.len());
        assert(t@.len() != "gbr"@.len());
        assert(t@.len() != "identity"@.len());
        assert(t@.len() != "rgb"@.len());
    }
    if t@ == seq!['s', 'm', 'p', 't', 'e', '2', '4', '0', 'm'] {
        assert(t@.len() != "bt709"@.len());
        assert(t@.len() != "bt470bg"@.len());
        assert(t@[5] != "smpte170m"@[5]);
        assert(t@.len() != "ycgco"@.len());
        assert(t@.len() != "bt2020nc"@.len());
        assert(t@[0] != "bt2020ncl"@[0]);
        assert(t@.len() != "bt2020c"@.len());
        assert(t@.len() != "bt2020cl"@.len());
        assert(t@.len() != "gbr"@.len());
        assert(t@.len() != "identity"@.len());
        assert(t@.len() != "rgb"@.len());
    }
    if t@ == seq!['y', 'c', 'g', 'c', 'o'] {
        assert(t@[0] != "bt709"@[0]);
        assert(t@.len() != "bt470bg"@.len());
        assert(t@.len() != "smpte170m"@.len());
        assert(t@.len() != "smpte240m"@.len());
        assert(t@.len() != "bt2020nc"@.len());
        assert(t@.len() != "bt2020ncl"@.len());
        assert(t@.len() != "bt2020c"@.len());
        assert(t@.len() != "bt2020cl"@.len());
        assert(t@.len() != "gbr"@.len());
        assert(t@.len() != "identity"@.len());
        assert(t@.len() != "rgb"@.len());
    }
    if t@ == seq!['b', 't', '2', '0', '2', '0', 'n', 'c'] {
        assert(t@.len() != "bt709"@.len());
        assert(t@.len() != "bt470bg"@.len());
        assert(t@.len() != "smpte170m"@.len());
        assert(t@.len() != "smpte240m"@.len());
        assert(t@.len() != "ycgco"@.len());
        assert(t@.len() != "bt2020ncl"@.len());
        assert(t@.len() != "bt2020c"@.len());
        assert(t@[6] != "bt2020cl"@[6]);
        assert(t@.len() != "gbr"@.len());
        assert(t@[0] != "identity"@[0]);
        assert(t@.len() != "rgb"@.len());
    }
    if t@ == seq!['b', 't', '2', '0', '2', '0', 'n', 'c', 'l'] {
        assert(t@.len() != "bt709"@.len());
        assert(t@.len() != "bt470bg"@.len());
        assert(t@[0] != "smpte170m"@[0]);
        assert(t@[0] != "smpte240m"@[0]);
        assert(t@.len() != "ycgco"@.len());
        assert(t@.len() != "bt2020nc"@.len());
        assert(t@.len() != "bt2020c"@.len());
        assert(t@.len() != "bt2020cl"@.len());
        assert(t@.len() != "gbr"@.len());
        assert(t@.len() != "identity"@.len());
        assert(t@.len() != "rgb"@.len());
    }
    if t@ == seq!['b', 't', '2', '0', '2', '0', 'c'] {
        assert(t@.len() != "bt709"@.len());
        assert(t@[2] != "bt470bg"@[2]);
        assert(t@.len() != "smpte170m"@.len());
        assert(t@.len() != "smpte240m"@.len());
        assert(t@.len() != "ycgco"@.len());
        assert(t@.len() != "bt2020nc"@.len());
        assert(t@.len() != "bt2020ncl"@.len());
        assert(t@.len() != "bt2020cl"@.len());
        assert(t@.len() != "gbr"@.len());
        assert(t@.len() != "identity"@.len());
        assert(t@.len() != "rgb"@.len());
    }
    if t@ == seq!['b', 't', '2', '0', '2', '0', 'c', 'l'] {
        assert(t@.len() != "bt709"@.len());
        assert(t@.len() != "bt470bg"@.len());
        assert(t@.len() != "smpte170m"@.len());
        assert(t@.len() != "smpte240m"@.len());
        assert(t@.len() != "ycgco"@.len());
        assert(t@[6] != "bt2020nc"@[6]);
        assert(t@.len() != "bt2020ncl"@.len());
        assert(t@.len() != "bt2020c"@.len());
        assert(t@.len() != "gbr"@.len());
        assert(t@[0] != "identity"@[0]);
        assert(t@.len() != "rgb"@.len());
    }
    if t@ == seq!['g', 'b', 'r'] {
        assert(t@.len() != "bt709"@.len());
        assert(t@.len() != "bt470bg"@.len());
        assert(t@.len() != "smpte170m"@.len());
        assert(t@.len() != "smpte240m"@.len());
        assert(t@.len() != "ycgco"@.len());
        assert(t@.len() != "bt2020nc"@.len());
        assert(t@.len() != "bt2020ncl"@.len());
        assert(t@.len() != "bt2020c"@.len());
        assert(t@.len() != "bt2020cl"@.len());
        assert(t@.len() != "identity"@.len());
        assert(t@[0] != "rgb"@[0]);
    }
    if t@ == seq!['i', 'd', 'e', 'n', 't', 'i', 't', 'y'] {
        assert(t@.len() != "bt709"@.len());
        assert(t@.len() != "bt470bg"@.len());
        assert(t@.len() != "smpte170m"@.len());
        assert(t@.len() != "smpte240m"@.len());
        assert(t@.len() != "ycgco"@.len());
        assert(t@[0] != "bt2020nc"@[0]);
        assert(t@.len() != "bt2020ncl"@.len());
        assert(t@.len() != "bt2020c"@.len());
        assert(t@[0] != "bt2020cl"@[0]);
        assert(t@.len() != "gbr"@.len());
        assert(t@.len() != "rgb"@.len());
    }
    if t@ == seq!['r', 'g', 'b'] {
        assert(t@.len() != "bt709"@.len());
        assert(t@.len() != "bt470bg"@.len());
        assert(t@.len() != "smpte170m"@.len());
        assert(t@.len() != "smpte240m"@.len());
        assert(t@.len() != "ycgco"@.len());
        assert(t@.len() != "bt2020nc"@.len());
        assert(t@.len() != "bt2020ncl"@.len());
        assert(t@.len() != "bt2020c"@.len());
        assert(t@.len() != "bt2020cl"@.len());
        assert(t@[0] != "gbr"@[0]);
        assert(t@.len() != "identity"@.len());
    }
}

/// ffprobe's `color_transfer` names and what each one means; an absent value
/// is `Unspecified`.
pub proof fn law_transfer_names(t: String)
    ensures
        t@ == seq!['b', 't', '7', '0', '9'] ==> transfer_of(Some(t)) == TransferCharacteristic::Bt709,
        t@ == seq!['b', 't', '4', '7', '0', 'm'] ==> transfer_of(Some(t)) == TransferCharacteristic::Gamma22,
        t@ == seq!['g', 'a', 'm', 'm', 'a', '2', '2'] ==> transfer_of(Some(t)) == TransferCharacteristic::Gamma22,
        t@ == seq!['b', 't', '4', '7', '0', 'b', 'g'] ==> transfer_of(Some(t)) == TransferCharacteristic::Gamma28,
        t@ == seq!['g', 'a', 'm', 'm', 'a', '2', '8'] ==> transfer_of(Some(t)) == TransferCharacteristic::Gamma28,
        t@ == seq!['s', 'm', 'p', 't', 'e', '1', '7', '0', 'm'] ==> transfer_of(Some(t)) == TransferCharacteristic::Smpte170M,
        t@ == seq!['s', 'm', 'p', 't', 'e', '2', '4', '0', 'm'] ==> transfer_of(Some(t)) == TransferCharacteristic::Smpte240M,
        t@ == seq!['l', 'i', 'n', 'e', 'a', 'r'] ==> transfer_of(Some(t)) == TransferCharacteristic::Linear,
        t@ == seq!['i', 'e', 'c', '6', '1', '9', '6', '6', '-', '2', '-', '1'] ==> transfer_of(Some(t)) == TransferCharacteristic::Srgb,
        t@ == seq!['s', 'r', 'g', 'b'] ==> transfer_of(Some(t)) == TransferCharacteristic::Srgb,
        t@ == seq!['b', 't', '2', '0', '2', '0', '-', '1', '0'] ==> transfer_of(Some(t)) == TransferCharacteristic::Bt2020_10,
        t@ == seq!['b', 't', '2', '0', '2', '0', '-', '1', '2'] ==> transfer_of(Some(t)) == TransferCharacteristic::Bt2020_12,
        t@ == seq!['s', 'm', 'p', 't', 'e', '2', '0', '8', '4'] ==> transfer_of(Some(t)) == TransferCharacteristic::Smpte2084,
        t@ == seq!['a', 'r', 'i', 'b', '-', 's', 't', 'd', '-', 'b', '6', '7'] ==> transfer_of(Some(t)) == TransferCharacteristic::AribStdB67,
        transfer_of(None) == TransferCharacteristic::Unspecified,
{
    reveal_strlit("bt709");
    reveal_strlit("bt470m");
    reveal_strlit("gamma22");
    reveal_strlit("bt470bg");
    reveal_strlit("gamma28");
    reveal_strlit("smpte170m");
    reveal_strlit("smpte240m");
    reveal_strlit("linear");
    reveal_strlit("iec61966-2-1");
    reveal_strlit("srgb");
    reveal_strlit("bt2020-10");
    reveal_strlit("bt2020-12");
    reveal_strlit("smpte2084");
    reveal_strlit("arib-std-b67");
    assert("bt709"@ =~= seq!['b', 't', '7', '0', '9']);
    assert("bt470m"@ =~= seq!['b', 't', '4', '7', '0', 'm']);
    assert("gamma22"@ =~= seq!['g', 'a', 'm', 'm', 'a', '2', '2']);
    assert("bt470bg"@ =~= seq!['b', 't', '4', '7', '0', 'b', 'g']);
    assert("gamma28"@ =~= seq!['g', 'a', 'm', 'm', 'a', '2', '8']);
    assert("smpte170m"@ =~= seq!['s', 'm', 'p', 't', 'e', '1', '7', '0', 'm']);
    assert("smpte240m"@ =~= seq!['s', 'm', 'p', 't', 'e', '2', '4', '0', 'm']);
    assert("linear"@ =~= seq!['l', 'i', 'n', 'e', 'a', 'r']);
    assert("iec61966-2-1"@ =~= seq!['i', 'e', 'c', '6', '1', '9', '6', '6', '-', '2', '-', '1']);
    assert("srgb"@ =~= seq!['s', 'r', 'g', 'b']);
    assert("bt2020-10"@ =~= seq!['b', 't', '2', '0', '2', '0', '-', '1', '0']);
    assert("bt2020-12"@ =~= seq!['b', 't', '2', '0', '2', '0', '-', '1', '2']);
    assert("smpte2084"@ =~= seq!['s', 'm', 'p', 't', 'e', '2', '0', '8', '4']);
    assert("arib-std-b67"@ =~= seq!['a', 'r', 'i', 'b', '-', 's', 't', 'd', '-', 'b', '6', '7']);
    if t@ == seq!['b', 't', '7', '0', '9'] {
        assert(t@.len() != "bt470m"@.len());
        assert(t@.len() != "gamma22"@.len());
        assert(t@.len() != "bt470bg"@.len());
        assert(t@.len() != "gamma28"@.len());
        assert(t@.len() != "smpte170m"@.len());
        assert(t@.len() != "smpte240m"@.len());
        assert(t@.len() != "linear"@.len());
        assert(t@.len() != "iec61966-2-1"@.len());
        assert(t@.len() != "srgb"@.len());
        assert(t@.len() != "bt2020-10"@.len());
        assert(t@.len() != "bt2020-12"@.len());
        assert(t@.len() != "smpte2084"@.len());
        assert(t@.len() != "arib-std-b67"@.len());
    }
    if t@ == seq!['b', 't', '4', '7', '0', 'm'] {
        assert(t@.len() != "bt709"@.len());
        assert(t@.len() != "gamma22"@.len());
        assert(t@.len() != "bt470bg"@.len());
        assert(t@.len() != "gamma28"@.len());
        assert(t@.len() != "smpte170m"@.len());
        assert(t@.len() != "smpte240m"@.len());
        assert(t@[0] != "linear"@[0]);
        assert(t@.len() != "iec61966-2-1"@.len());
        assert(t@.len() != "srgb"@.len());
        assert(t@.len() != "bt2020-10"@.len());
        assert(t@.len() != "bt2020-12"@.len());
        assert(t@.len() != "smpte2084"@.len());
        assert(t@.len() != "arib-std-b67"@.len());
    }
    if t@ == seq!['g', 'a', 'm', 'm', 'a', '2', '2'] {
        assert(t@.len() != "bt709"@.len());
        assert(t@.len() != "bt470m"@.len());
        assert(t@[0] != "bt470bg"@[0]);
        assert(t@[6] != "gamma28"@[6]);
        assert(t@.len() != "smpte170m"@.len());
        assert(t@.len() != "smpte240m"@.len());
        assert(t@.len() != "linear"@.len());
        assert(t@.len() != "iec61966-2-1"@.len());
        assert(t@.len() != "srgb"@.len());
        assert(t@.len() != "bt2020-10"@.len());
        assert(t@.len() != "bt2020-12"@.len());
        assert(t@.len() != "smpte2084"@.len());
        assert(t@.len() != "arib-std-b67"@.len());
    }
    if t@ == seq!['b', 't', '4', '7', '0', 'b', 'g'] {
        assert(t@.len() != "bt709"@.len());
        assert(t@.len() != "bt470m"@.len());
        assert(t@[0] != "gamma22"@[0]);
        assert(t@[0] != "gamma28"@[0]);
        assert(t@.len() != "smpte170m"@.len());
        assert(t@.len() != "smpte240m"@.len());
        assert(t@.len() != "linear"@.len());
        assert(t@.len() != "iec61966-2-1"@.len());
        assert(t@.len() != "srgb"@.len());
        assert(t@.len() != "bt2020-10"@.len());
        assert(t@.len() != "bt2020-12"@.len());
        assert(t@.len() != "smpte2084"@.len());
        assert(t@.len() != "arib-std-b67"@.len());
    }
    if t@ == seq!['g', 'a', 'm', 'm', 'a', '2', '8'] {
        assert(t@.len() != "bt709"@.len());
        assert(t@.len() != "bt470m"@.len());
        assert(t@[6] != "gamma22"@[6]);
        assert(t@[0] != "bt470bg"@[0]);
        assert(t@.len() != "smpte170m"@.len());
        assert(t@.len() != "smpte240m"@.len());
        assert(t@.len() != "linear"@.len());
        assert(t@.len() != "iec61966-2-1"@.len());
        assert(t@.len() != "srgb"@.len());
        assert(t@.len() != "bt2020-10"@.len());
        assert(t@.len() != "bt2020-12"@.len());
        assert(t@.len() != "smpte2084"@.len());
        assert(t@.len() != "arib-std-b67"@.len());
    }
    if t@ == seq!['s', 'm', 'p', 't', 'e', '1', '7', '0', 'm'] {
        assert(t@.len() != "bt709"@.len());
        assert(t@.len() != "bt470m"@.len());
        assert(t@.len() != "gamma22"@.len());
        assert(t@.len() != "bt470bg"@.len());
        assert(t@.len() != "gamma28"@.len());
        assert(t@[5] != "smpte240m"@[5]);
        assert(t@.len() != "linear"@.len());
        assert(t@.len() != "iec61966-2-1"@.len());
        assert(t@.len() != "srgb"@.len());
        assert(t@[0] != "bt2020-10"@[0]);
        assert(t@[0] != "bt2020-12"@[0]);
        assert(t@[5] != "smpte2084"@[5]);
        assert(t@.len() != "arib-std-b67"@.len());
    }
    if t@ == seq!['s', 'm', 'p', 't', 'e', '2', '4', '0', 'm'] {
        assert(t@.len() != "bt709"@.len());
        assert(t@.len() != "bt470m"@.len());
        assert(t@.len() != "gamma22"@.len());
        assert(t@.len() != "bt470bg"@.len());
        assert(t@.len() != "gamma28"@.len());
        assert(t@[5] != "smpte170m"@[5]);
        assert(t@.len() != "linear"@.len());
        assert(t@.len() != "iec61966-2-1"@.len());
        assert(t@.len() != "srgb"@.len());
        assert(t@[0] != "bt2020-10"@[0]);
        assert(t@[0] != "bt2020-12"@[0]);
        assert(t@[6] != "smpte2084"@[6]);
        assert(t@.len() != "arib-std-b67"@.len());
    }
    if t@ == seq!['l', 'i', 'n', 'e', 'a', 'r'] {
        assert(t@.len() != "bt709"@.len());
        assert(t@[0] != "bt470m"@[0]);
        assert(t@.len() != "gamma22"@.len());
        assert(t@.len() != "bt470bg"@.len());
        assert(t@.len() != "gamma28"@.len());
        assert(t@.len() != "smpte170m"@.len());
        assert(t@.len() != "smpte240m"@.len());
        assert(t@.len() != "iec61966-2-1"@.len());
        assert(t@.len() != "srgb"@.len());
        assert(t@.len() != "bt2020-10"@.len());
        assert(t@.len() != "bt2020-12"@.len());
        assert(t@.len() != "smpte2084"@.len());
        assert(t@.len() != "arib-std-b67"@.len());
    }
    if t@ == seq!['i', 'e', 'c', '6', '1', '9', '6', '6', '-', '2', '-', '1'] {
        assert(t@.len() != "bt709"@.len());
        assert(t@.len() != "bt470m"@.len());
        assert(t@.len() != "gamma22"@.len());
        assert(t@.len() != "bt470bg"@.len());
        assert(t@.len() != "gamma28"@.len());
        assert(t@.len() != "smpte170m"@.len());
        assert(t@.len() != "smpte240m"@.len());
        assert(t@.len() != "linear"@.len());
        assert(t@.len() != "srgb"@.len());
        assert(t@.len() != "bt2020-10"@.len());
        assert(t@.len() != "bt2020-12"@.len());
        assert(t@.len() != "smpte2084"@.len());
        assert(t@[0] != "arib-std-b67"@[0]);
    }
    if t@ == seq!['s', 'r', 'g', 'b'] {
        assert(t@.len() != "bt709"@.len());
        assert(t@.len() != "bt470m"@.len());
        assert(t@.len() != "gamma22"@.len());
        assert(t@.len() != "bt470bg"@.len());
        assert(t@.len() != "gamma28"@.len());
        assert(t@.len() != "smpte170m"@.len());
        assert(t@.len() != "smpte240m"@.len());
        assert(t@.len() != "linear"@.len());
        assert(t@.len() != "iec61966-2-1"@.len());
        assert(t@.len() != "bt2020-10"@.len());
        assert(t@.len() != "bt2020-12"@.len());
        assert(t@.len() != "smpte2084"@.len());
        assert(t@.len() != "arib-std-b67"@.len());
    }
    if t@ == seq!['b', 't', '2', '0', '2', '0', '-', '1', '0'] {
        assert(t@.len() != "bt709"@.len());
        assert(t@.len() != "bt470m"@.len());
        assert(t@.len() != "gamma22"@.len());
        assert(t@.len() != "bt470bg"@.len());
        assert(t@.len() != "gamma28"@.len());
        assert(t@[0] != "smpte170m"@[0]);
        assert(t@[0] != "smpte240m"@[0]);
        assert(t@.len() != "linear"@.len());
        assert(t@.len() != "iec61966-2-1"@.len());
        assert(t@.len() != "srgb"@.len());
        assert(t@[8] != "bt2020-12"@[8]);
        assert(t@[0] != "smpte2084"@[0]);
        assert(t@.len() != "arib-std-b67"@.len());
    }
    if t@ == seq!['b', 't', '2', '0', '2', '0', '-', '1', '2'] {
        assert(t@.len() != "bt709"@.len());
        assert(t@.len() != "bt470m"@.len());
        assert(t@.len() != "gamma22"@.len());
        assert(t@.len() != "bt470bg"@.len());
        assert(t@.len() != "gamma28"@.len());
        assert(t@[0] != "smpte170m"@[0]);
        assert(t@[0] != "smpte240m"@[0]);
        assert(t@.len() != "linear"@.len());
        assert(t@.len() != "iec61966-2-1"@.len());
        assert(t@.len() != "srgb"@.len());
        assert(t@[8] != "bt2020-10"@[8]);
        assert(t@[0] != "smpte2084"@[0]);
        assert(t@.len() != "arib-std-b67"@.len());
    }
    if t@ == seq!['s', 'm', 'p', 't', 'e', '2', '0', '8', '4'] {
        assert(t@.len() != "bt709"@.len());
        assert(t@.len() != "bt470m"@.len());
        assert(t@.len() != "gamma22"@.len());
        assert(t@.len() != "bt470bg"@.len());
        assert(t@.len() != "gamma28"@.len());
        assert(t@[5] != "smpte170m"@[5]);
        assert(t@[6] != "smpte240m"@[6]);
        assert(t@.len() != "linear"@.len());
        assert(t@.len() != "iec61966-2-1"@.len());
        assert(t@.len() != "srgb"@.len());
        assert(t@[0] != "bt2020-10"@[0]);
        assert(t@[0] != "bt2020-12"@[0]);
        assert(t@.len() != "arib-std-b67"@.len());
    }
    if t@ == seq!['a', 'r', 'i', 'b', '-', 's', 't', 'd', '-', 'b', '6', '7'] {
        assert(t@.len() != "bt709"@.len());
        assert(t@.len() != "bt470m"@.len());
        assert(t@.len() != "gamma22"@.len());
        assert(t@.len() != "bt470bg"@.len());
        assert(t@.len() != "gamma28"@.len());
        assert(t@.len() != "smpte170m"@.len());
        assert(t@.len() != "smpte240m"@.len());
        assert(t@.len() != "linear"@.len());
        assert(t@[0] != "iec61966-2-1"@[0]);
        assert(t@.len() != "srgb"@.len());
        assert(t@.len() != "bt2020-10"@.len());
        assert(t@.len() != "bt2020-12"@.len());
        assert(t@.len() != "smpte2084"@.len());
    }
}

/// ffprobe's `color_primaries` names and what each one means; an absent value
/// is `Unspecified`.
pub proof fn law_primaries_names(t: String)
    ensures
        t@ == seq!['b', 't', '7', '0', '9'] ==> primaries_of(Some(t)) == ColorPrimaries::Bt709,
        t@ == seq!['b', 't', '4', '7', '0', 'm'] ==> primaries_of(Some(t)) == ColorPrimaries::Bt470M,
        t@ == seq!['b', 't', '4', '7', '0', 'b', 'g'] ==> primaries_of(Some(t)) == ColorPrimaries::Bt470Bg,
        t@ == seq!['s', 'm', 'p', 't', 'e', '1', '7', '0', 'm'] ==> primaries_of(Some(t)) == ColorPrimaries::Smpte170M,
        t@ == seq!['s', 'm', 'p', 't', 'e', '2', '4', '0', 'm'] ==> primaries_of(Some(t)) == ColorPrimaries::Smpte240M,
        t@ == seq!['f', 'i', 'l', 'm'] ==> primaries_of(Some(t)) == ColorPrimaries::Film,
        t@ == seq!['b', 't', '2', '0', '2', '0'] ==> primaries_of(Some(t)) == ColorPrimaries::Bt2020,
        primaries_of(None) == ColorPrimaries::Unspecified,
{
    reveal_strlit("bt709");
    reveal_strlit("bt470m");
    reveal_strlit("bt470bg");
    reveal_strlit("smpte170m");
    reveal_strlit("smpte240m");
    reveal_strlit("film");
    reveal_strlit("bt2020");
    assert("bt709"@ =~= seq!['b', 't', '7', '0', '9']);
    assert("bt470m"@ =~= seq!['b', 't', '4', '7', '0', 'm']);
    assert("bt470bg"@ =~= seq!['b', 't', '4', '7', '0', 'b', 'g']);
    assert("smpte170m"@ =~= seq!['s', 'm', 'p', 't', 'e', '1', '7', '0', 'm']);
    assert("smpte240m"@ =~= seq!['s', 'm', 'p', 't', 'e', '2', '4', '0', 'm']);
    assert("film"@ =~= seq!['f', 'i', 'l', 'm']);
    assert("bt2020"@ =~= seq!['b', 't', '2', '0', '2', '0']);
    if t@ == seq!['b', 't', '7', '0', '9'] {
        assert(t@.len() != "bt470m"@.len());
        assert(t@.len() != "bt470bg"@.len());
        assert(t@.len() != "smpte170m"@.len());
        assert(t@.len() != "smpte240m"@.len());
        assert(t@.len() != "film"@.len());
        assert(t@.len() != "bt2020"@.len());
    }
    if t@ == seq!['b', 't', '4', '7', '0', 'm'] {
        assert(t@.len() != "bt709"@.len());
        assert(t@.len() != "bt470bg"@.len());
        assert(t@.len() != "smpte170m"@.len());
        assert(t@.len() != "smpte240m"@.len());
        assert(t@.len() != "film"@.len());
        assert(t@[2] != "bt2020"@[2]);
    }
    if t@ == seq!['b', 't', '4', '7', '0', 'b', 'g'] {
        assert(t@.len() != "bt709"@.len());
        assert(t@.len() != "bt470m"@.len());
        assert(t@.len() != "smpte170m"@.len());
        assert(t@.len() != "smpte240m"@.len());
        assert(t@.len() != "film"@.len());
        assert(t@.len() != "bt2020"@.len());
    }
    if t@ == seq!['s', 'm', 'p', 't', 'e', '1', '7', '0', 'm'] {
        assert(t@.len() != "bt709"@.len());
        assert(t@.len() != "bt470m"@.len());
        assert(t@.len() != "bt470bg"@.len());
        assert(t@[5] != "smpte240m"@[5]);
        assert(t@.len() != "film"@.len());
        assert(t@.len() != "bt2020"@.len());
    }
    if t@ == seq!['s', 'm', 'p', 't', 'e', '2', '4', '0', 'm'] {
        assert(t@.len() != "bt709"@.len());
        assert(t@.len() != "bt470m"@.len());
        assert(t@.len() != "bt470bg"@.len());
        assert(t@[5] != "smpte170m"@[5]);
        assert(t@.len() != "film"@.len());
        assert(t@.len() != "bt2020"@.len());
    }
    if t@ == seq!['f', 'i', 'l', 'm'] {
        assert(t@.len() != "bt709"@.len());
        assert(t@.len() != "bt470m"@.len());
        assert(t@.len() != "bt470bg"@.len());
        assert(t@.len() != "smpte170m"@.len());
        assert(t@.len() != "smpte240m"@.len());
        assert(t@.len() != "bt2020"@.len());
    }
    if t@ == seq!['b', 't', '2', '0', '2', '0'] {
        assert(t@.len() != "bt709"@.len());
        assert(t@[2] != "bt470m"@[2]);
        assert(t@.len() != "bt470bg"@.len());
        assert(t@.len() != "smpte170m"@.len());
        assert(t@.len() != "smpte240m"@.len());
        assert(t@.len() != "film"@.len());
    }
}

/// ffprobe's `chroma_location` names and what each one means; an absent value
/// is `Unspecified`.
pub proof fn law_chroma_location_names(t: String)
    ensures
        t@ == seq!['l', 'e', 'f', 't'] ==> chroma_location_of(Some(t)) == ChromaLocation::Left,
        t@ == seq!['c', 'e', 'n', 't', 'e', 'r'] ==> chroma_location_of(Some(t)) == ChromaLocation::Center,
        t@ == seq!['t', 'o', 'p', 'l', 'e', 'f', 't'] ==> chroma_location_of(Some(t)) == ChromaLocation::TopLeft,
        t@ == seq!['t', 'o', 'p'] ==> chroma_location_of(Some(t)) == ChromaLocation::Top,
        t@ == seq!['b', 'o', 't', 't', 'o', 'm', 'l', 'e', 'f', 't'] ==> chroma_location_of(Some(t)) == ChromaLocation::BottomLeft,
        t@ == seq!['b', 'o', 't', 't', 'o', 'm'] ==> chroma_location_of(Some(t)) == ChromaLocation::Bottom,
        chroma_location_of(None) == ChromaLocation::Unspecified,
{
    reveal_strlit("left");
    reveal_strlit("center");
    reveal_strlit("topleft");
    reveal_strlit("top");
    reveal_strlit("bottomleft");
    reveal_strlit("bottom");
    assert("left"@ =~= seq!['l', 'e', 'f', 't']);
    assert("center"@ =~= seq!['c', 'e', 'n', 't', 'e', 'r']);
    assert("topleft"@ =~= seq!['t', 'o', 'p', 'l', 'e', 'f', 't']);
    assert("top"@ =~= seq!['t', 'o', 'p']);
    assert("bottomleft"@ =~= seq!['b', 'o', 't', 't', 'o', 'm', 'l', 'e', 'f', 't']);
    assert("bottom"@ =~= seq!['b', 'o', 't', 't', 'o', 'm']);
    if t@ == seq!['l', 'e', 'f', 't'] {
        assert(t@.len() != "center"@.len());
        assert(t@.len() != "topleft"@.len());
        assert(t@.len() != "top"@.len());
        assert(t@.len() != "bottomleft"@.len());
        assert(t@.len() != "bottom"@.len());
    }
    if t@ == seq!['c', 'e', 'n', 't', 'e', 'r'] {
        assert(t@.len() != "left"@.len());
        assert(t@.len() != "topleft"@.len());
        assert(t@.len() != "top"@.len());
        assert(t@.len() != "bottomleft"@.len());
        assert(t@[0] != "bottom"@[0]);
    }
    if t@ == seq!['t', 'o', 'p', 'l', 'e', 'f', 't'] {
        assert(t@.len() != "left"@.len());
        assert(t@.len() != "center"@.len());
        assert(t@.len() != "top"@.len());
        assert(t@.len() != "bottomleft"@.len());
        assert(t@.len() != "bottom"@.len());
    }
    if t@ == seq!['t', 'o', 'p'] {
        assert(t@.len() != "left"@.len());
        assert(t@.len() != "center"@.len());
        assert(t@.len() != "topleft"@.len());
        assert(t@.len() != "bottomleft"@.len());
        assert(t@.len() != "bottom"@.len());
    }
    if t@ == seq!['b', 'o', 't', 't', 'o', 'm', 'l', 'e', 'f', 't'] {
        assert(t@.len() != "left"@.len());
        assert(t@.len() != "center"@.len());
        assert(t@.len() != "topleft"@.len());
        assert(t@.len() != "top"@.len());
        assert(t@.len() != "bottom"@.len());
    }
    if t@ == seq!['b', 'o', 't', 't', 'o', 'm'] {
        assert(t@.len() != "left"@.len());
        assert(t@[0] != "center"@[0]);
        assert(t@.len() != "topleft"@.len());
        assert(t@.len() != "top"@.len());
        assert(t@.len() != "bottomleft"@.len());
    }
}

/// Each field of a stream record comes from the ffprobe key of the same
/// name: `width` from `width`, `height` from `height`, and so on.
pub proof fn law_stream_field_keys(s: StreamInfo, b: Seq<(Seq<u8>, Seq<u8>)>)
    requires
        stream_fields(s, b),
    ensures
        s.width == opt_u64(lookup(b, seq!['w', 'i', 'd', 't', 'h'])),
        s.height == opt_u64(lookup(b, seq!['h', 'e', 'i', 'g', 'h', 't'])),
        s.coded_width == opt_u64(lookup(b, seq!['c', 'o', 'd', 'e', 'd', '_', 'w', 'i', 'd', 't', 'h'])),
        s.coded_height == opt_u64(lookup(b, seq!['c', 'o', 'd', 'e', 'd', '_', 'h', 'e', 'i', 'g', 'h', 't'])),
        opt_text(s.codec_type) == opt_text_of(lookup(b, seq!['c', 'o', 'd', 'e', 'c', '_', 't', 'y', 'p', 'e'])),
        opt_text(s.pix_fmt) == opt_text_of(lookup(b, seq!['p', 'i', 'x', '_', 'f', 'm', 't'])),
        opt_text(s.time_base) == opt_text_of(lookup(b, seq!['t', 'i', 'm', 'e', '_', 'b', 'a', 's', 'e'])),
        opt_text(s.sample_aspect_ratio) == opt_text_of(lookup(b, seq!['s', 'a', 'm', 'p', 'l', 'e', '_', 'a', 's', 'p', 'e', 'c', 't', '_', 'r', 'a', 't', 'i', 'o'])),
        opt_text(s.field_order) == opt_text_of(lookup(b, seq!['f', 'i', 'e', 'l', 'd', '_', 'o', 'r', 'd', 'e', 'r'])),
        opt_text(s.color_range) == opt_text_of(lookup(b, seq!['c', 'o', 'l', 'o', 'r', '_', 'r', 'a', 'n', 'g', 'e'])),
        opt_text(s.color_space) == opt_text_of(lookup(b, seq!['c', 'o', 'l', 'o', 'r', '_', 's', 'p', 'a', 'c', 'e'])),
        opt_text(s.color_transfer) == opt_text_of(lookup(b, seq!['c', 'o', 'l', 'o', 'r', '_', 't', 'r', 'a', 'n', 's', 'f', 'e', 'r'])),
        opt_text(s.color_primaries) == opt_text_of(lookup(b, seq!['c', 'o', 'l', 'o', 'r', '_', 'p', 'r', 'i', 'm', 'a', 'r', 'i', 'e', 's'])),
        opt_text(s.chroma_location) == opt_text_of(lookup(b, seq!['c', 'h', 'r', 'o', 'm', 'a', '_', 'l', 'o', 'c', 'a', 't', 'i', 'o', 'n'])),
{
    reveal_strlit("width");
    reveal_strlit("height");
    reveal_strlit("coded_width");
    reveal_strlit("coded_height");
    reveal_strlit("codec_type");
    reveal_strlit("pix_fmt");
    reveal_strlit("time_base");
    reveal_strlit("sample_aspect_ratio");
    reveal_strlit("field_order");
    reveal_strlit("color_range");
    reveal_strlit("color_space");
    reveal_strlit("color_transfer");
    reveal_strlit("color_primaries");
    reveal_strlit("chroma_location");
    assert("width"@ =~= seq!['w', 'i', 'd', 't', 'h']);
    assert("height"@ =~= seq!['h', 'e', 'i', 'g', 'h', 't']);
    assert("coded_width"@ =~= seq!['c', 'o', 'd', 'e', 'd', '_', 'w', 'i', 'd', 't', 'h']);
    assert("coded_height"@ =~= seq!['c', 'o', 'd', 'e', 'd', '_', 'h', 'e', 'i', 'g', 'h', 't']);
    assert("codec_type"@ =~= seq!['c', 'o', 'd', 'e', 'c', '_', 't', 'y', 'p', 'e']);
    assert("pix_fmt"@ =~= seq!['p', 'i', 'x', '_', 'f', 'm', 't']);
    assert("time_base"@ =~= seq!['t', 'i', 'm', 'e', '_', 'b', 'a', 's', 'e']);
    assert("sample_aspect_ratio"@ =~= seq!['s', 'a', 'm', 'p', 'l', 'e', '_', 'a', 's', 'p', 'e', 'c', 't', '_', 'r', 'a', 't', 'i', 'o']);
    assert("field_order"@ =~= seq!['f', 'i', 'e', 'l', 'd', '_', 'o', 'r', 'd', 'e', 'r']);
    assert("color_range"@ =~= seq!['c', 'o', 'l', 'o', 'r', '_', 'r', 'a', 'n', 'g', 'e']);
    assert("color_space"@ =~= seq!['c', 'o', 'l', 'o', 'r', '_', 's', 'p', 'a', 'c', 'e']);
    assert("color_transfer"@ =~= seq!['c', 'o', 'l', 'o', 'r', '_', 't', 'r', 'a', 'n', 's', 'f', 'e', 'r']);
    assert("color_primaries"@ =~= seq!['c', 'o', 'l', 'o', 'r', '_', 'p', 'r', 'i', 'm', 'a', 'r', 'i', 'e', 's']);
    assert("chroma_location"@ =~= seq!['c', 'h', 'r', 'o', 'm', 'a', '_', 'l', 'o', 'c', 'a', 't', 'i', 'o', 'n']);
}
/// A stream is a candidate for import exactly when ffprobe calls it
/// `video` and it is not an attached picture.
pub proof fn law_usable_is_video(s: StreamInfo)
    ensures
        usable(s) <==> (s.codec_type matches Some(t) && t@ == seq!['v', 'i', 'd', 'e', 'o'] && !s.attached_pic),
{
    reveal_strlit("video");
    assert("video"@ =~= seq!['v', 'i', 'd', 'e', 'o']);
}

} // verus!
