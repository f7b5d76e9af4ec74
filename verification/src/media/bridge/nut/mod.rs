//! Narrow NUT reader.
//!
//! A pure, hostile-safe parser for the NUT container subset that a rawvideo
//! NUT muxer emits: main header, stream headers, info/syncpoint packets, and
//! rawvideo frame packets with exact PTS recovery. It is deliberately not a
//! general multimedia demuxer: anything outside the subset fails closed with
//! a typed error.
//!
//! Format facts:
//!
//! * startcodes are 8-byte big-endian values beginning with `'N'`;
//! * packets are `startcode ‖ varlen(forward_ptr) ‖ body ‖ crc` where
//!   `forward_ptr` counts body+crc and the CRC is the MSB-first CRC-32 of the
//!   body stored big-endian (see [`crate::media::bridge::crc`]);
//! * varlen is a big-endian 7-bit-group varint with continuation bit `0x80`;
//! * the frame-code table in the main header delta-encodes runs of frame
//!   header defaults (index `'N'` is always invalid);
//! * frame headers add coded fields per flags; PTS is recovered from
//!   `last_pts + pts_delta` or `lsb2full` against `last_pts`;
//! * syncpoints carry a time-coded `ts` that resets every stream's `last_pts`.
//!
//! All arithmetic is checked or explicitly wrapping, every count and length
//! is bounded, and the parser never panics on hostile bytes.

pub mod bounds;

use vstd::prelude::*;

use crate::error::VoleError;
use crate::media::bridge::crc::{be_bytes, crc32_spec, verify_packet_crc};

verus! {

/// Main header startcode.
pub const MAIN_STARTCODE: u64 = 0x4E4D_7A56_1F5F_04AD;

/// Stream header startcode.
pub const STREAM_STARTCODE: u64 = 0x4E53_1140_5BF2_F9DB;

/// Syncpoint startcode.
pub const SYNCPOINT_STARTCODE: u64 = 0x4E4B_E4AD_EECA_4569;

/// Index startcode.
pub const INDEX_STARTCODE: u64 = 0x4E58_DD67_2F23_E64E;

/// Info packet startcode.
pub const INFO_STARTCODE: u64 = 0x4E49_AB68_B596_BA78;

/// Frame flag: keyframe.
pub const FLAG_KEY: u16 = 1;

/// Frame flag: coded PTS present.
pub const FLAG_CODED_PTS: u16 = 8;

/// Frame flag: explicit stream id.
pub const FLAG_STREAM_ID: u16 = 16;

/// Frame flag: size high part present.
pub const FLAG_SIZE_MSB: u16 = 32;

/// Frame flag: frame checksum present.
pub const FLAG_CHECKSUM: u16 = 64;

/// Frame flag: reserved field count present.
pub const FLAG_RESERVED: u16 = 128;

/// Frame flag: side/meta data present.
pub const FLAG_SM_DATA: u16 = 256;

/// Frame flag: explicit elision header index.
pub const FLAG_HEADER_IDX: u16 = 1024;

/// Frame flag: match time present.
pub const FLAG_MATCH_TIME: u16 = 2048;

/// Frame flag: coded flags present.
pub const FLAG_CODED: u16 = 4096;

/// Frame-code flag marking a code that no frame may use.
pub const FLAG_INVALID: u16 = 8192;

/// One declared stream of the NUT file (the narrow reader only interprets
/// the rawvideo video stream).
#[derive(Debug, Clone, Copy)]
pub struct NutStreamHeader {
    /// Stream index in the container.
    pub index: u32,
    /// NUT class: 0 video, 1 audio, 2 subtitle, 3 data.
    pub class: u32,
    /// Codec fourcc (little-endian tag value as written).
    pub codec_tag: u32,
    /// Declared coded width (video only).
    pub width: u32,
    /// Declared coded height (video only).
    pub height: u32,
    /// Declared sample aspect ratio (video only); `None` when 0/0.
    pub sar: Option<(u32, u32)>,
    /// Index into the container time-base table.
    pub tb_index: u32,
    /// The stream's time base `(num, den)` seconds per tick.
    pub time_base: (u32, u32),
    /// `msb_pts_shift` used by the lsb2full PTS recovery.
    pub msb_pts_shift: u32,
}

/// One recovered rawvideo frame.
#[derive(Debug, Clone)]
pub struct NutFrame {
    /// Source stream index.
    pub stream: u32,
    /// Presentation timestamp in the stream's time base.
    pub pts: i64,
    /// Whether the frame is marked as a keyframe.
    pub key: bool,
    /// The raw packet payload (tight canonical bytes for rawvideo).
    pub payload: Vec<u8>,
}

/// The parsed narrow NUT stream.
#[derive(Debug, Clone)]
pub struct NutStream {
    /// Format version (2..=4).
    pub version: u32,
    /// Container time-base table `(num, den)` seconds per tick.
    pub time_bases: Vec<(u32, u32)>,
    /// Declared streams.
    pub streams: Vec<NutStreamHeader>,
    /// Recovered frames in decode order.
    pub frames: Vec<NutFrame>,
}

/// One decoded frame-code entry.
#[derive(Debug, Clone, Copy)]
pub struct FrameCode {
    /// Coded frame flags.
    pub flags: u16,
    /// Stream of the frames this code starts.
    pub stream_id: u32,
    /// Size multiplier.
    pub size_mul: u64,
    /// Size low part.
    pub size_lsb: u64,
    /// PTS delta.
    pub pts_delta: i64,
    /// Reserved field count.
    pub reserved_count: u32,
    /// Elision header index.
    pub header_idx: u32,
}

/// The frame-code table before the main header fills it.
pub open spec fn zero_codes() -> Seq<FrameCode> {
    Seq::new(
        256,
        |i: int| FrameCode { flags: 0, stream_id: 0, size_mul: 0, size_lsb: 0, pts_delta: 0, reserved_count: 0, header_idx: 0 },
    )
}

/// The elision lengths before the main header fills them.
pub open spec fn zero_lens() -> Seq<u32> {
    Seq::new(128, |i: int| 0u32)
}

/// The varlen that starts at `pos`, continuing a value `acc` of `n` groups
/// read so far: its value and the position after it. More than ten groups
/// is `NonCanonicalEncoding`; running off the input is `Truncated`. Bits
/// shifted above 64 are dropped.
pub open spec fn var_from(d: Seq<u8>, pos: int, n: int, acc: u64) -> Result<(u64, int), VoleError>
    decreases 10 - n,
{
    if n >= 10 {
        Err(VoleError::NonCanonicalEncoding)
    } else if pos < 0 || pos >= d.len() {
        Err(VoleError::Truncated)
    } else {
        let b = d[pos];
        let v = (acc << 7u64) | ((b & 0x7fu8) as u64);
        if b & 0x80u8 == 0 {
            Ok((v, pos + 1))
        } else {
            var_from(d, pos + 1, n + 1, v)
        }
    }
}

/// The varlen at `pos`.
pub open spec fn var_at(d: Seq<u8>, pos: int) -> Result<(u64, int), VoleError> {
    var_from(d, pos, 0, 0)
}

/// A varlen read never ends before it starts nor past the input.
proof fn lemma_var_from_range(d: Seq<u8>, pos: int, n: int, acc: u64)
    requires
        0 <= pos,
    ensures
        var_from(d, pos, n, acc) matches Ok((v, p)) ==> pos < p <= d.len(),
        var_from(d, pos, n, acc) matches Err(e) ==> e == VoleError::NonCanonicalEncoding || e == VoleError::Truncated,
    decreases 10 - n,
{
    if n < 10 && 0 <= pos < d.len() && d[pos] & 0x80u8 != 0 {
        lemma_var_from_range(d, pos + 1, n + 1, (acc << 7u64) | ((d[pos] & 0x7fu8) as u64));
    }
}

/// Read the varlen at `pos`.
fn read_var(data: &[u8], pos: usize) -> (r: Result<(u64, usize), VoleError>)
    ensures
        r matches Ok((v, q)) ==> var_at(data@, pos as int) == Ok::<(u64, int), VoleError>((v, q as int)) && pos < q
            <= data@.len(),
        r matches Err(e) ==> var_at(data@, pos as int) == Err::<(u64, int), VoleError>(e) && (e
            == VoleError::NonCanonicalEncoding || e == VoleError::Truncated),
        r is Ok <==> var_at(data@, pos as int) is Ok,
{
    proof {
        lemma_var_from_range(data@, pos as int, 0, 0);
    }
    let mut val: u64 = 0;
    let mut p = pos;
    let mut n = 0usize;
    while n < 10
        invariant
            n <= 10,
            p == pos + n,
            var_at(data@, pos as int) == var_from(data@, p as int, n as int, val),
        decreases 10 - n,
    {
        if p >= data.len() {
            return Err(VoleError::Truncated);
        }
        let b = data[p];
        val = (val << 7u64) | ((b & 0x7fu8) as u64);
        p = p + 1;
        if b & 0x80u8 == 0 {
            return Ok((val, p));
        }
        n = n + 1;
    }
    Err(VoleError::NonCanonicalEncoding)
}

/// The signed value a NUT signed varlen `v` carries.
pub open spec fn signed_of(v: u64) -> i64 {
    let w: u64 = if v == u64::MAX {
        0
    } else {
        (v + 1) as u64
    };
    if w & 1 == 1 {
        (0 - (w >> 1u64)) as i64
    } else {
        (w >> 1u64) as i64
    }
}

/// Read the signed varlen at `pos`.
fn read_var_s(data: &[u8], pos: usize) -> (r: Result<(i64, usize), VoleError>)
    ensures
        r matches Ok((s, q)) ==> var_at(data@, pos as int) matches Ok((v, q2)) && q2 == q && s == signed_of(v) && pos < q
            <= data@.len(),
        r matches Err(e) ==> var_at(data@, pos as int) == Err::<(u64, int), VoleError>(e) && (e
            == VoleError::NonCanonicalEncoding || e == VoleError::Truncated),
        r is Ok <==> var_at(data@, pos as int) is Ok,
{
    let (v, p) = read_var(data, pos)?;
    let w: u64 = if v == u64::MAX {
        0
    } else {
        v + 1
    };
    proof {
        assert((w >> 1u64) <= 0x7fff_ffff_ffff_ffff) by (bit_vector);
    }
    let s = if w & 1 == 1 {
        -((w >> 1u64) as i64)
    } else {
        (w >> 1u64) as i64
    };
    Ok((s, p))
}

/// The `u32` of 4 little-endian bytes at `at`.
pub open spec fn le32_at(d: Seq<u8>, at: int) -> u32 {
    (d[at] + 256 * d[at + 1] + 65536 * d[at + 2] + 16777216 * d[at + 3]) as u32
}

/// The fourcc at `pos`: a varlen length 2 or 4, then that many
/// little-endian bytes (`NonCanonicalEncoding` for another length).
pub open spec fn fourcc_at(d: Seq<u8>, pos: int) -> Result<(u32, int), VoleError> {
    match var_at(d, pos) {
        Err(e) => Err(e),
        Ok((n, p)) => if n == 2 {
            if p + 2 > d.len() {
                Err(VoleError::Truncated)
            } else {
                Ok(((d[p] + 256 * d[p + 1]) as u32, p + 2))
            }
        } else if n == 4 {
            if p + 4 > d.len() {
                Err(VoleError::Truncated)
            } else {
                Ok((le32_at(d, p), p + 4))
            }
        } else {
            Err(VoleError::NonCanonicalEncoding)
        },
    }
}

/// Read the fourcc at `pos`.
fn read_fourcc(data: &[u8], pos: usize) -> (r: Result<(u32, usize), VoleError>)
    ensures
        r matches Err(e) ==> e != VoleError::BadMagic && fourcc_at(data@, pos as int) == Err::<(u32, int), VoleError>(e),
        r matches Ok((v, q)) ==> fourcc_at(data@, pos as int) == Ok::<(u32, int), VoleError>((v, q as int)) && pos < q
            <= data@.len(),
        r is Ok <==> fourcc_at(data@, pos as int) is Ok,
{
    let (n, p) = read_var(data, pos)?;
    if n == 2 {
        if 2 > data.len() - p {
            return Err(VoleError::Truncated);
        }
        Ok((data[p] as u32 + 256 * (data[p + 1] as u32), p + 2))
    } else if n == 4 {
        if 4 > data.len() - p {
            return Err(VoleError::Truncated);
        }
        Ok((
            data[p] as u32 + 256 * (data[p + 1] as u32) + 65536 * (data[p + 2] as u32) + 16777216 * (data[p + 3] as u32),
            p + 4,
        ))
    } else {
        Err(VoleError::NonCanonicalEncoding)
    }
}

/// The big-endian `u64` of 8 bytes at `at`.
pub open spec fn be64_at(d: Seq<u8>, at: int) -> u64 {
    (d[at] as u64) << 56u64 | (d[at + 1] as u64) << 48u64 | (d[at + 2] as u64) << 40u64 | (d[at + 3] as u64) << 32u64
        | (d[at + 4] as u64) << 24u64 | (d[at + 5] as u64) << 16u64 | (d[at + 6] as u64) << 8u64 | (d[at + 7] as u64)
}

/// Read the big-endian `u64` at `at`.
fn get_be64(data: &[u8], at: usize) -> (r: u64)
    requires
        at + 8 <= data@.len(),
    ensures
        r == be64_at(data@, at as int),
{
    (data[at] as u64) << 56u64 | (data[at + 1] as u64) << 48u64 | (data[at + 2] as u64) << 40u64 | (data[at + 3] as u64)
        << 32u64 | (data[at + 4] as u64) << 24u64 | (data[at + 5] as u64) << 16u64 | (data[at + 6] as u64) << 8u64 | (
    data[at + 7] as u64)
}

/// Whether startcode `code` sits at `i`.
pub open spec fn code_at(d: Seq<u8>, i: int, code: u64) -> bool {
    0 <= i && i + 8 <= d.len() && d[i] == 0x4Eu8 && be64_at(d, i) == code
}

/// Position right after the first `code` at or after `pos`, if any.
fn find_startcode(data: &[u8], pos: usize, code: u64) -> (r: Result<usize, VoleError>)
    ensures
        r matches Ok(q) ==> pos + 8 <= q <= data@.len() && code_at(data@, q - 8, code) && forall|i: int|
            pos <= i < q - 8 ==> !code_at(data@, i, code),
        r matches Err(e) ==> e == VoleError::Truncated && forall|i: int| pos <= i ==> !code_at(data@, i, code),
{
    let mut i = pos;
    while i <= data.len() && 8 <= data.len() - i
        invariant
            pos <= i,
            forall|j: int| pos <= j < i ==> !code_at(data@, j, code),
        decreases data@.len() - i,
    {
        if data[i] == 0x4Eu8 && get_be64(data, i) == code {
            return Ok(i + 8);
        }
        i = i + 1;
    }
    Err(VoleError::Truncated)
}

/// Whether `code` is one of the known startcodes.
pub open spec fn known_code(code: u64) -> bool {
    code == MAIN_STARTCODE || code == STREAM_STARTCODE || code == SYNCPOINT_STARTCODE || code == INDEX_STARTCODE
        || code == INFO_STARTCODE
}

/// The kind of the next packet at a position.
#[derive(Debug, Clone, Copy, PartialEq, Eq, Structural)]
pub enum PacketKind {
    End,
    Frame,
    Startcode(u64),
}

/// The kind of packet at `pos`: the end of the input, a known startcode,
/// or else a frame (a partial startcode tail is a corrupt frame, not a
/// silent end).
pub open spec fn packet_kind(d: Seq<u8>, pos: int) -> PacketKind {
    if pos >= d.len() {
        PacketKind::End
    } else if d[pos] != 0x4Eu8 || pos + 8 > d.len() {
        PacketKind::Frame
    } else if known_code(be64_at(d, pos)) {
        PacketKind::Startcode(be64_at(d, pos))
    } else {
        PacketKind::Frame
    }
}

fn peek_next(data: &[u8], pos: usize) -> (r: PacketKind)
    ensures
        r == packet_kind(data@, pos as int),
{
    if pos >= data.len() {
        return PacketKind::End;
    }
    if data[pos] != 0x4Eu8 || 8 > data.len() - pos {
        return PacketKind::Frame;
    }
    let code = get_be64(data, pos);
    if code == MAIN_STARTCODE || code == STREAM_STARTCODE || code == SYNCPOINT_STARTCODE || code == INDEX_STARTCODE
        || code == INFO_STARTCODE {
        PacketKind::Startcode(code)
    } else {
        PacketKind::Frame
    }
}

/// The first known startcode at or after `pos`, and the position after it.
fn peek_startcode(data: &[u8], pos: usize) -> (r: Result<(u64, usize), VoleError>)
    ensures
        r matches Ok((code, q)) ==> pos + 8 <= q <= data@.len() && code_at(data@, q - 8, code) && known_code(code)
            && forall|i: int| pos <= i < q - 8 ==> !(code_at(data@, i, be64_at(data@, i)) && known_code(be64_at(data@, i))),
        r matches Err(e) ==> e == VoleError::Truncated,
        r is Err ==> forall|i: int| pos <= i ==> !(code_at(data@, i, be64_at(data@, i)) && known_code(be64_at(data@, i))),
{
    let mut i = pos;
    while i <= data.len() && 8 <= data.len() - i
        invariant
            pos <= i,
            forall|j: int| pos <= j < i ==> !(code_at(data@, j, be64_at(data@, j)) && known_code(be64_at(data@, j))),
        decreases data@.len() - i,
    {
        if data[i] == 0x4Eu8 {
            let code = get_be64(data, i);
            if code == MAIN_STARTCODE || code == STREAM_STARTCODE || code == SYNCPOINT_STARTCODE || code
                == INDEX_STARTCODE || code == INFO_STARTCODE {
                return Ok((code, i + 8));
            }
        }
        i = i + 1;
    }
    Err(VoleError::Truncated)
}

/// The time-coded value of a syncpoint body: `(v / tb_count, v % tb_count)`
/// for the varlen `v` at its start.
fn decode_tt(body: &[u8], tb_count: usize) -> (r: Result<(u64, usize), VoleError>)
    ensures
        match var_at(body@, 0) {
            Err(e) => r == Err::<(u64, usize), VoleError>(e),
            Ok((v, _)) => if tb_count == 0 {
                r == Err::<(u64, usize), VoleError>(VoleError::NonCanonicalEncoding)
            } else {
                r == Ok::<(u64, usize), VoleError>((v / (tb_count as u64), (v % (tb_count as u64)) as usize))
            },
        },
        r matches Err(e) ==> e != VoleError::BadMagic,
{
    let (v, _) = read_var(body, 0)?;
    if tb_count == 0 {
        return Err(VoleError::NonCanonicalEncoding);
    }
    Ok((v / tb_count as u64, (v % tb_count as u64) as usize))
}

/// Whether a time base `(num, den)` has both parts in `1..2^31`.
pub open spec fn tb_ok(t: (u32, u32)) -> bool {
    1 <= t.0 < 0x8000_0000 && 1 <= t.1 < 0x8000_0000
}

/// Whether a stream header is consistent with the time-base table: its
/// time base is the indexed entry, its PTS shift below 16, its class known,
/// and a video stream has a nonzero geometry.
pub open spec fn stream_ok(h: NutStreamHeader, tbs: Seq<(u32, u32)>) -> bool {
    &&& h.tb_index < tbs.len()
    &&& h.time_base == tbs[h.tb_index as int]
    &&& h.msb_pts_shift < 16
    &&& h.class <= 3
    &&& h.class == 0 ==> h.width > 0 && h.height > 0
}

/// Whether `p` is a contiguous run of bytes of `d`.
pub open spec fn is_slice(p: Seq<u8>, d: Seq<u8>) -> bool {
    exists|a: int| 0 <= a && a + p.len() <= d.len() && #[trigger] d.subrange(a, a + p.len()) == p
}

/// The file magic.
pub open spec fn nut_magic() -> Seq<u8> {
    seq![
        0x6eu8, 0x75, 0x74, 0x2f, 0x6d, 0x75, 0x6c, 0x74, 0x69, 0x6d, 0x65, 0x64, 0x69, 0x61, 0x20, 0x63, 0x6f,
        0x6e, 0x74, 0x61, 0x69, 0x6e, 0x65, 0x72, 0x00,
    ]
}

/// Whether a parsed stream is well formed against its input: a supported
/// version, a nonempty valid time-base table, at least one consistent
/// stream, and frames of declared streams whose bounded payloads are runs
/// of the input.
pub open spec fn nut_ok(s: NutStream, data: Seq<u8>) -> bool {
    &&& 2 <= s.version <= 4
    &&& 1 <= s.time_bases@.len() <= 128
    &&& forall|i: int| 0 <= i < s.time_bases@.len() ==> tb_ok(#[trigger] s.time_bases@[i])
    &&& 1 <= s.streams@.len()
    &&& forall|i: int| 0 <= i < s.streams@.len() ==> stream_ok(#[trigger] s.streams@[i], s.time_bases@)
    &&& forall|i: int|
        0 <= i < s.frames@.len() ==> (#[trigger] s.frames@[i]).stream < s.streams@.len() && s.frames@[i].payload@.len()
            <= bounds::MAX_FRAME_PAYLOAD && is_slice(s.frames@[i].payload@, data)
}

/// Whether `frames` are laid out in `data` in order: frame `i`'s payload
/// is the run of `data` at `offs[i]`, after the magic, and each payload
/// ends before the next one starts.
pub open spec fn frames_laid_out(frames: Seq<NutFrame>, offs: Seq<int>, data: Seq<u8>) -> bool {
    &&& offs.len() == frames.len()
    &&& forall|i: int|
        0 <= i < frames.len() ==> 25 < #[trigger] offs[i] && offs[i] + frames[i].payload@.len() <= data.len()
            && data.subrange(offs[i], offs[i] + frames[i].payload@.len()) == frames[i].payload@
    &&& forall|i: int, j: int|
        0 <= i < j < frames.len() ==> #[trigger] offs[i] + frames[i].payload@.len() <= #[trigger] offs[j]
}

/// Whether a parsed stream's frames are its payload runs of `data`, in
/// the order they occur there.
pub open spec fn in_stream_order(s: NutStream, data: Seq<u8>) -> bool {
    exists|offs: Seq<int>| #[trigger] frames_laid_out(s.frames@, offs, data)
}

/// The shortest varlen bytes of `v`, every byte with its continuation bit.
pub open spec fn var_hi(v: u64) -> Seq<u8>
    decreases v,
{
    if v < 128 {
        seq![(0x80u64 | v) as u8]
    } else {
        proof {
            assert(v >= 128 ==> v >> 7u64 < v) by (bit_vector);
        }
        var_hi(v >> 7u64) + seq![(0x80u64 | (v & 0x7fu64)) as u8]
    }
}

/// The shortest varlen encoding of `v`.
pub open spec fn var_bytes(v: u64) -> Seq<u8> {
    if v < 128 {
        seq![v as u8]
    } else {
        var_hi(v >> 7u64) + seq![(v & 0x7fu64) as u8]
    }
}

/// The eight big-endian bytes of the main startcode.
pub open spec fn main_code_bytes() -> Seq<u8> {
    Seq::new(8, |k: int| ((MAIN_STARTCODE >> (56 - 8 * k) as u64) & 0xffu64) as u8)
}

/// A varlen read when `cond` holds, else `dflt` without reading.
pub open spec fn opt_var(d: Seq<u8>, p: int, cond: bool, dflt: u64) -> Result<(u64, int), VoleError> {
    if cond {
        var_at(d, p)
    } else {
        Ok((dflt, p))
    }
}

/// A signed varlen read when `cond` holds, else 0 without reading.
pub open spec fn opt_var_s(d: Seq<u8>, p: int, cond: bool) -> Result<(i64, int), VoleError> {
    if cond {
        match var_at(d, p) {
            Err(e) => Err(e),
            Ok((v, q)) => Ok((signed_of(v), q)),
        }
    } else {
        Ok((0, p))
    }
}

/// The position after `n` varlens skipped from `p`.
pub open spec fn skip_vars(d: Seq<u8>, p: int, n: int) -> Result<int, VoleError>
    decreases n,
{
    if n <= 0 {
        Ok(p)
    } else {
        match var_at(d, p) {
            Err(e) => Err(e),
            Ok((_, q)) => skip_vars(d, q, n - 1),
        }
    }
}

/// The coded fields of one frame-code run, `fields` of them:
/// `(pts delta, size multiplier, stream, size lsb, run length, header
/// index)` and the position after them. Absent fields take their defaults;
/// an absent run length is `size multiplier − size lsb`.
pub open spec fn fc_fields(d: Seq<u8>, p: int, fields: u64) -> Result<((i64, u64, u64, u64, u64, u64), int), VoleError> {
    match opt_var_s(d, p, fields > 0) {
        Err(e) => Err(e),
        Ok((pts, p1)) => match opt_var(d, p1, fields > 1, 1) {
            Err(e) => Err(e),
            Ok((mul, p2)) => match opt_var(d, p2, fields > 2, 0) {
                Err(e) => Err(e),
                Ok((sid, p3)) => match opt_var(d, p3, fields > 3, 0) {
                    Err(e) => Err(e),
                    Ok((size, p4)) => match opt_var(d, p4, fields > 4, 0) {
                        Err(e) => Err(e),
                        Ok((_, p5)) => match opt_var(d, p5, fields > 5, mul.wrapping_sub(size)) {
                            Err(e) => Err(e),
                            Ok((count, p6)) => match opt_var_s(d, p6, fields > 6) {
                                Err(e) => Err(e),
                                Ok((_, p7)) => match opt_var(d, p7, fields > 7, 0) {
                                    Err(e) => Err(e),
                                    Ok((head, p8)) => match skip_vars(d, p8, fields - 8) {
                                        Err(e) => Err(e),
                                        Ok(p9) => Ok(((pts, mul, sid, size, count, head), p9)),
                                    },
                                },
                            },
                        },
                    },
                },
            },
        },
    }
}

/// The frame-code table after filling a run of `count` codes from slot
/// `i` (`j` filled so far, the next size lsb base `sv`); slot `'N'` is
/// marked invalid and skipped. A run past the table is
/// `NonCanonicalEncoding`. Returns the table and the next slot.
pub open spec fn fill_run(
    codes: Seq<FrameCode>,
    i: int,
    count: u64,
    j: u64,
    sv: u64,
    flags: u64,
    sid: u64,
    mul: u64,
    pts: i64,
    head: u64,
) -> Result<(Seq<FrameCode>, int), VoleError>
    decreases 2 * (count - j) + (256 - i),
{
    if j >= count {
        Ok((codes, i))
    } else if i >= 256 || i < 0 {
        Err(VoleError::NonCanonicalEncoding)
    } else if i == 0x4E {
        fill_run(
            codes.update(i, FrameCode { flags: FLAG_INVALID, ..codes[i] }),
            i + 1,
            count,
            j,
            sv,
            flags,
            sid,
            mul,
            pts,
            head,
        )
    } else {
        fill_run(
            codes.update(
                i,
                FrameCode {
                    flags: flags as u16,
                    stream_id: sid as u32,
                    size_mul: mul,
                    size_lsb: sv.wrapping_add(j),
                    pts_delta: pts,
                    reserved_count: 0,
                    header_idx: head as u32,
                },
            ),
            i + 1,
            count,
            (j + 1) as u64,
            sv.wrapping_add(1),
            flags,
            sid,
            mul,
            pts,
            head,
        )
    }
}

/// The frame-code table read from `p` on, from slot `i`, for `sc`
/// streams, and the position after it.
pub open spec fn codes_from(d: Seq<u8>, p: int, i: int, codes: Seq<FrameCode>, sc: u64) -> Result<
    (Seq<FrameCode>, int),
    VoleError,
>
    decreases 256 - i,
{
    if i >= 256 {
        Ok((codes, p))
    } else {
        match var_at(d, p) {
            Err(e) => Err(e),
            Ok((flags, q1)) => if flags > 0xffff {
                Err(VoleError::NonCanonicalEncoding)
            } else {
                match var_at(d, q1) {
                    Err(e) => Err(e),
                    Ok((fields, q2)) => if fields > 20 {
                        Err(VoleError::NonCanonicalEncoding)
                    } else {
                        match fc_fields(d, q2, fields) {
                            Err(e) => Err(e),
                            Ok(((pts, mul, sid, size, count, head), q3)) => if count == 0 || count > bounds::MAX_RUN {
                                Err(VoleError::NonCanonicalEncoding)
                            } else if sid >= sc {
                                Err(VoleError::NonCanonicalEncoding)
                            } else {
                                match fill_run(codes, i, count, 0, size, flags, sid, mul, pts, head) {
                                    Err(e) => Err(e),
                                    Ok((c2, i2)) => if i2 <= i || i2 > 256 {
                                        Ok((c2, q3))
                                    } else {
                                        codes_from(d, q3, i2, c2, sc)
                                    },
                                }
                            },
                        }
                    },
                }
            },
        }
    }
}

/// The time-base table of `n` entries read from `p`.
pub open spec fn tbs_at(d: Seq<u8>, p: int, n: int) -> Result<(Seq<(u32, u32)>, int), VoleError>
    decreases n,
{
    if n <= 0 {
        Ok((Seq::empty(), p))
    } else {
        match var_at(d, p) {
            Err(e) => Err(e),
            Ok((num, q1)) => match var_at(d, q1) {
                Err(e) => Err(e),
                Ok((den, q2)) => if num == 0 || den == 0 || num >= 0x8000_0000 || den >= 0x8000_0000 {
                    Err(VoleError::NonCanonicalEncoding)
                } else {
                    match tbs_at(d, q2, n - 1) {
                        Err(e) => Err(e),
                        Ok((rest, q3)) => Ok((seq![(num as u32, den as u32)] + rest, q3)),
                    }
                },
            },
        }
    }
}

/// The elision header lengths `c ..= hc` read from `p` into `hl`.
pub open spec fn elide(d: Seq<u8>, p: int, c: int, hc: u64, hl: Seq<u32>) -> Result<(Seq<u32>, int), VoleError>
    decreases hc + 1 - c,
{
    if c > hc {
        Ok((hl, p))
    } else {
        match var_at(d, p) {
            Err(e) => Err(e),
            Ok((ln, q)) => if ln == 0 || ln > 256 || ln > d.len() - q {
                Err(VoleError::NonCanonicalEncoding)
            } else {
                elide(d, q + ln, c + 1, hc, hl.update(c, ln as u32))
            },
        }
    }
}

/// The main header a NUT stream codes at the first main startcode at or
/// after `pos`: the version, the position after the packet, and the
/// frame-code, elision-length and time-base tables (starting from `codes0`
/// and `hl0`), or the first fault.
#[verifier::opaque]
pub open spec fn main_header_spec(d: Seq<u8>, pos: int, codes0: Seq<FrameCode>, hl0: Seq<u32>) -> Result<
    (u32, int, Seq<FrameCode>, Seq<u32>, Seq<(u32, u32)>),
    VoleError,
> {
    if !(exists|i: int| pos <= i && code_at(d, i, MAIN_STARTCODE)) {
        Err(VoleError::Truncated)
    } else {
        let st = choose|i: int|
            pos <= i && code_at(d, i, MAIN_STARTCODE) && forall|k: int| pos <= k < i ==> !code_at(d, k, MAIN_STARTCODE);
        match var_at(d, st + 8) {
            Err(e) => Err(e),
            Ok((size, body_start)) => {
                let hdr: Result<int, VoleError> = if size > 4096 {
                    if body_start + 4 > d.len() {
                        Err(VoleError::Truncated)
                    } else if d.subrange(body_start, body_start + 4) != be_bytes(
                        crc32_spec(main_code_bytes() + var_bytes(size)),
                    ) {
                        Err(VoleError::IntegrityMismatch)
                    } else {
                        Ok(body_start + 4)
                    }
                } else {
                    Ok(body_start)
                };
                match hdr {
                    Err(e) => Err(e),
                    Ok(p) => if size < 4 {
                        Err(VoleError::NonCanonicalEncoding)
                    } else if size - 4 > d.len() - body_start {
                        Err(VoleError::Truncated)
                    } else {
                        let body_end = body_start + size - 4;
                        main_body_spec(d, p, body_start, body_end, codes0, hl0)
                    },
                }
            },
        }
    }
}

/// The main header's fields from `p` on, inside the body
/// `[body_start, body_end)`, then its stored checksum.
pub open spec fn main_body_spec(
    d: Seq<u8>,
    p: int,
    body_start: int,
    body_end: int,
    codes0: Seq<FrameCode>,
    hl0: Seq<u32>,
) -> Result<(u32, int, Seq<FrameCode>, Seq<u32>, Seq<(u32, u32)>), VoleError> {
    match var_at(d, p) {
        Err(e) => Err(e),
        Ok((version, p1)) => if version < 2 || version > bounds::MAX_VERSION {
            Err(VoleError::UnsupportedFeature)
        } else {
            match opt_var(d, p1, version > 3, 0) {
                Err(e) => Err(e),
                Ok((_, p2)) => match var_at(d, p2) {
                    Err(e) => Err(e),
                    Ok((sc, p3)) => if sc == 0 || sc > 64 {
                        Err(VoleError::DimensionTooLarge)
                    } else {
                        match var_at(d, p3) {
                            Err(e) => Err(e),
                            Ok((md, p4)) => if md > 65_536 {
                                Err(VoleError::NonCanonicalEncoding)
                            } else {
                                match var_at(d, p4) {
                                    Err(e) => Err(e),
                                    Ok((tbc, p5)) => if tbc == 0 || tbc > 128 {
                                        Err(VoleError::DimensionTooLarge)
                                    } else {
                                        match tbs_at(d, p5, tbc as int) {
                                            Err(e) => Err(e),
                                            Ok((tbs, p6)) => main_tail_spec(
                                                d,
                                                p6,
                                                version,
                                                sc,
                                                tbs,
                                                body_start,
                                                body_end,
                                                codes0,
                                                hl0,
                                            ),
                                        }
                                    },
                                }
                            },
                        }
                    },
                },
            }
        },
    }
}

/// The main header from its frame-code table on.
pub open spec fn main_tail_spec(
    d: Seq<u8>,
    p6: int,
    version: u64,
    sc: u64,
    tbs: Seq<(u32, u32)>,
    body_start: int,
    body_end: int,
    codes0: Seq<FrameCode>,
    hl0: Seq<u32>,
) -> Result<(u32, int, Seq<FrameCode>, Seq<u32>, Seq<(u32, u32)>), VoleError> {
    match codes_from(d, p6, 0, codes0, sc) {
        Err(e) => Err(e),
        Ok((codes, p7)) => {
            let el: Result<(Seq<u32>, int), VoleError> = if p7 <= d.len() && 4 < body_end && p7 < body_end - 4 {
                match var_at(d, p7) {
                    Err(e) => Err(e),
                    Ok((hc, q)) => if hc >= 128 {
                        Err(VoleError::DimensionTooLarge)
                    } else {
                        elide(d, q, 1, hc, hl0)
                    },
                }
            } else {
                Ok((hl0, p7))
            };
            match el {
                Err(e) => Err(e),
                Ok((hl, p8)) => {
                    let fl: Result<int, VoleError> = if version > 3 && 4 < body_end && p8 < body_end - 4 {
                        match var_at(d, p8) {
                            Err(e) => Err(e),
                            Ok((f, q)) => if f > 3 {
                                Err(VoleError::UnsupportedFeature)
                            } else {
                                Ok(q)
                            },
                        }
                    } else {
                        Ok(p8)
                    };
                    match fl {
                        Err(e) => Err(e),
                        Ok(p9) => if p9 > body_end {
                            Err(VoleError::NonCanonicalEncoding)
                        } else if body_end + 4 > d.len() {
                            Err(VoleError::Truncated)
                        } else if d.subrange(body_end, body_end + 4) != be_bytes(
                            crc32_spec(d.subrange(body_start, body_end)),
                        ) {
                            Err(VoleError::IntegrityMismatch)
                        } else {
                            Ok((version as u32, body_end + 4, codes, hl, tbs))
                        },
                    }
                },
            }
        },
    }
}

/// `n` bytes at `pos`, and the position after them (`Truncated` past the
/// end).
fn take(data: &[u8], pos: usize, n: usize) -> (r: Result<(&[u8], usize), VoleError>)
    requires
        pos <= data@.len(),
    ensures
        r is Ok <==> n <= data@.len() - pos,
        r matches Ok((b, q)) ==> q == pos + n && b@ == data@.subrange(pos as int, q as int),
        r matches Err(e) ==> e == VoleError::Truncated,
{
    if n > data.len() - pos {
        return Err(VoleError::Truncated);
    }
    Ok((vstd::slice::slice_subrange(data, pos, pos + n), pos + n))
}

/// The continuation-marked groups of `v`, most significant first.
fn encode_var_hi(v: u64) -> (r: Vec<u8>)
    ensures
        r@ == var_hi(v),
    decreases v,
{
    if v < 128 {
        let mut out: Vec<u8> = Vec::new();
        out.push((0x80u64 | v) as u8);
        proof {
            assert(out@ =~= var_hi(v));
        }
        out
    } else {
        assert(v >= 128 ==> v >> 7u64 < v) by (bit_vector);
        let mut out = encode_var_hi(v >> 7u64);
        out.push((0x80u64 | (v & 0x7fu64)) as u8);
        proof {
            assert(out@ =~= var_hi(v));
        }
        out
    }
}

/// The main-header varlen re-encoded (for the mid-header checksum).
fn encode_var(v: u64) -> (r: Vec<u8>)
    ensures
        r@ == var_bytes(v),
{
    if v < 128 {
        let mut out: Vec<u8> = Vec::new();
        out.push(v as u8);
        proof {
            assert(out@ =~= var_bytes(v));
        }
        out
    } else {
        let mut out = encode_var_hi(v >> 7u64);
        out.push((v & 0x7fu64) as u8);
        proof {
            assert(out@ =~= var_bytes(v));
        }
        out
    }
}

/// A varlen read when `cond` holds, else `dflt`.
fn read_opt(data: &[u8], p: usize, cond: bool, dflt: u64) -> (r: Result<(u64, usize), VoleError>)
    requires
        p <= data@.len(),
    ensures
        r matches Err(e) ==> e == VoleError::NonCanonicalEncoding || e == VoleError::Truncated,
        match opt_var(data@, p as int, cond, dflt) {
            Ok((v, q)) => r matches Ok((v2, q2)) && v2 == v && q2 == q && p <= q2 <= data@.len(),
            Err(e) => r == Err::<(u64, usize), VoleError>(e),
        },
{
    if cond {
        read_var(data, p)
    } else {
        Ok((dflt, p))
    }
}

/// A signed varlen read when `cond` holds, else 0.
fn read_opt_s(data: &[u8], p: usize, cond: bool) -> (r: Result<(i64, usize), VoleError>)
    requires
        p <= data@.len(),
    ensures
        r matches Err(e) ==> e == VoleError::NonCanonicalEncoding || e == VoleError::Truncated,
        match opt_var_s(data@, p as int, cond) {
            Ok((v, q)) => r matches Ok((v2, q2)) && v2 == v && q2 == q && p <= q2 <= data@.len(),
            Err(e) => r == Err::<(i64, usize), VoleError>(e),
        },
{
    if cond {
        read_var_s(data, p)
    } else {
        Ok((0, p))
    }
}

/// Skip `n` varlens from `p`.
fn skip_n(data: &[u8], p: usize, n: u64) -> (r: Result<usize, VoleError>)
    requires
        p <= data@.len(),
    ensures
        r matches Err(e) ==> e == VoleError::NonCanonicalEncoding || e == VoleError::Truncated,
        match skip_vars(data@, p as int, n as int) {
            Ok(q) => r matches Ok(q2) && q2 == q && p <= q2 <= data@.len(),
            Err(e) => r == Err::<usize, VoleError>(e),
        },
{
    let mut at = p;
    let mut k = n;
    while k > 0
        invariant
            p <= at <= data@.len(),
            skip_vars(data@, p as int, n as int) == skip_vars(data@, at as int, k as int),
        decreases k,
    {
        let (_, q) = read_var(data, at)?;
        at = q;
        k = k - 1;
    }
    Ok(at)
}

/// Read the coded fields of one frame-code run.
fn read_fc_fields(data: &[u8], p: usize, fields: u64) -> (r: Result<((i64, u64, u64, u64, u64, u64), usize), VoleError>)
    requires
        p <= data@.len(),
    ensures
        r matches Err(e) ==> e == VoleError::NonCanonicalEncoding || e == VoleError::Truncated,
        match fc_fields(data@, p as int, fields) {
            Ok((t, q)) => r matches Ok((t2, q2)) && t2 == t && q2 == q && p <= q2 <= data@.len(),
            Err(e) => r == Err::<((i64, u64, u64, u64, u64, u64), usize), VoleError>(e),
        },
{
    let (pts, p1) = read_opt_s(data, p, fields > 0)?;
    let (mul, p2) = read_opt(data, p1, fields > 1, 1)?;
    let (sid, p3) = read_opt(data, p2, fields > 2, 0)?;
    let (size, p4) = read_opt(data, p3, fields > 3, 0)?;
    let (_, p5) = read_opt(data, p4, fields > 4, 0)?;
    let (count, p6) = read_opt(data, p5, fields > 5, mul.wrapping_sub(size))?;
    let (_, p7) = read_opt_s(data, p6, fields > 6)?;
    let (head, p8) = read_opt(data, p7, fields > 7, 0)?;
    let extra: u64 = if fields > 8 {
        fields - 8
    } else {
        0
    };
    proof {
        assert(skip_vars(data@, p8 as int, fields - 8) == skip_vars(data@, p8 as int, extra as int));
    }
    let p9 = skip_n(data, p8, extra)?;
    Ok(((pts, mul, sid, size, count, head), p9))
}

/// Fill a run of `count` frame codes from slot `i`.
fn fill_codes(
    frame_codes: &mut Vec<FrameCode>,
    i0: usize,
    count: u64,
    sv0: u64,
    flags: u64,
    sid: u64,
    mul: u64,
    pts: i64,
    head: u64,
) -> (r: Result<usize, VoleError>)
    requires
        old(frame_codes)@.len() == 256,
        i0 <= 256,
    ensures
        final(frame_codes)@.len() == 256,
        r matches Err(e) ==> e == VoleError::NonCanonicalEncoding,
        match fill_run(old(frame_codes)@, i0 as int, count, 0, sv0, flags, sid, mul, pts, head) {
            Ok((c, i2)) => r matches Ok(q) && q == i2 && final(frame_codes)@ == c,
            Err(e) => r == Err::<usize, VoleError>(e),
        },
{
    let mut i = i0;
    let mut j: u64 = 0;
    let mut sv = sv0;
    while j < count
        invariant
            i <= 256,
            j <= count,
            frame_codes@.len() == 256,
            fill_run(old(frame_codes)@, i0 as int, count, 0, sv0, flags, sid, mul, pts, head) == fill_run(
                frame_codes@,
                i as int,
                count,
                j,
                sv,
                flags,
                sid,
                mul,
                pts,
                head,
            ),
        decreases 2 * (count - j) + (256 - i),
    {
        if i >= 256 {
            return Err(VoleError::NonCanonicalEncoding);
        }
        if i == 0x4E {
            let mut fc = frame_codes[i];
            fc.flags = FLAG_INVALID;
            frame_codes.set(i, fc);
            i = i + 1;
        } else {
            frame_codes.set(
                i,
                FrameCode {
                    flags: flags as u16,
                    stream_id: sid as u32,
                    size_mul: mul,
                    size_lsb: sv.wrapping_add(j),
                    pts_delta: pts,
                    reserved_count: 0,
                    header_idx: head as u32,
                },
            );
            sv = sv.wrapping_add(1);
            j = j + 1;
            i = i + 1;
        }
    }
    Ok(i)
}

/// A run of at least one code moves forward and stays in the table.
proof fn lemma_fill_run_advances(
    codes: Seq<FrameCode>,
    i: int,
    count: u64,
    j: u64,
    sv: u64,
    flags: u64,
    sid: u64,
    mul: u64,
    pts: i64,
    head: u64,
)
    requires
        j < count,
        0 <= i,
        codes.len() == 256,
    ensures
        fill_run(codes, i, count, j, sv, flags, sid, mul, pts, head) matches Ok((c, i2)) ==> i < i2 <= 256 && c.len()
            == 256,
    decreases 2 * (count - j) + (256 - i),
{
    if i < 256 {
        if i == 0x4E {
            lemma_fill_run_advances(codes.update(i, FrameCode { flags: FLAG_INVALID, ..codes[i] }), i + 1, count, j, sv, flags, sid, mul, pts, head);
        } else if j + 1 < count {
            lemma_fill_run_advances(
                codes.update(
                    i,
                    FrameCode {
                        flags: flags as u16,
                        stream_id: sid as u32,
                        size_mul: mul,
                        size_lsb: sv.wrapping_add(j),
                        pts_delta: pts,
                        reserved_count: 0,
                        header_idx: head as u32,
                    },
                ),
                i + 1,
                count,
                (j + 1) as u64,
                sv.wrapping_add(1),
                flags,
                sid,
                mul,
                pts,
                head,
            );
        }
    }
}

/// Read the frame-code table from `p` for `sc` streams.
#[verifier::rlimit(60)]
fn read_code_table(data: &[u8], p0: usize, frame_codes: &mut Vec<FrameCode>, sc: u64) -> (r: Result<usize, VoleError>)
    requires
        p0 <= data@.len(),
        old(frame_codes)@.len() == 256,
    ensures
        r matches Err(e) ==> e == VoleError::NonCanonicalEncoding || e == VoleError::Truncated,
        final(frame_codes)@.len() == 256,
        match codes_from(data@, p0 as int, 0, old(frame_codes)@, sc) {
            Ok((c, q)) => r matches Ok(q2) && q2 == q && final(frame_codes)@ == c && p0 <= q2 <= data@.len(),
            Err(e) => r == Err::<usize, VoleError>(e),
        },
{
    let mut p = p0;
    let mut i: usize = 0;
    while i < 256
        invariant
            i <= 256,
            p0 <= p <= data@.len(),
            frame_codes@.len() == 256,
            codes_from(data@, p0 as int, 0, old(frame_codes)@, sc) == codes_from(data@, p as int, i as int, frame_codes@, sc),
        decreases 256 - i,
    {
        let (flags, q) = read_var(data, p)?;
        p = q;
        if flags > 0xffff {
            return Err(VoleError::NonCanonicalEncoding);
        }
        let (fields, q) = read_var(data, p)?;
        p = q;
        if fields > 20 {
            return Err(VoleError::NonCanonicalEncoding);
        }
        let ((pts, mul, sid, size, count, head), q) = read_fc_fields(data, p, fields)?;
        p = q;
        if count == 0 || count > bounds::MAX_RUN {
            return Err(VoleError::NonCanonicalEncoding);
        }
        if sid >= sc {
            return Err(VoleError::NonCanonicalEncoding);
        }
        let ghost before = frame_codes@;
        proof {
            lemma_fill_run_advances(before, i as int, count, 0, size, flags, sid, mul, pts, head);
        }
        let i2 = fill_codes(frame_codes, i, count, size, flags, sid, mul, pts, head)?;
        i = i2;
    }
    Ok(p)
}

/// Read a time-base table of `n` entries from `p`.
fn read_tbs(data: &[u8], p0: usize, n: u64, time_bases: &mut Vec<(u32, u32)>) -> (r: Result<usize, VoleError>)
    requires
        p0 <= data@.len(),
        n <= 128,
        old(time_bases)@.len() == 0,
    ensures
        r matches Err(e) ==> e == VoleError::NonCanonicalEncoding || e == VoleError::Truncated,
        match tbs_at(data@, p0 as int, n as int) {
            Ok((t, q)) => r matches Ok(q2) && q2 == q && final(time_bases)@ == t && p0 <= q2 <= data@.len(),
            Err(e) => r == Err::<usize, VoleError>(e),
        },
        r is Ok ==> final(time_bases)@.len() == n && forall|i: int|
            0 <= i < final(time_bases)@.len() ==> tb_ok(#[trigger] final(time_bases)@[i]),
{
    let mut p = p0;
    let mut t = 0u64;
    while t < n
        invariant
            t <= n,
            p0 <= p <= data@.len(),
            time_bases@.len() == t,
            forall|i: int| 0 <= i < time_bases@.len() ==> tb_ok(#[trigger] time_bases@[i]),
            tbs_at(data@, p0 as int, n as int) == (match tbs_at(data@, p as int, (n - t) as int) {
                Ok((rest, q)) => Ok((time_bases@ + rest, q)),
                Err(e) => Err(e),
            }),
        decreases n - t,
    {
        let (num, q) = read_var(data, p)?;
        p = q;
        let (den, q) = read_var(data, p)?;
        p = q;
        if num == 0 || den == 0 || num >= 0x8000_0000 || den >= 0x8000_0000 {
            return Err(VoleError::NonCanonicalEncoding);
        }
        let ghost old_t = time_bases@;
        time_bases.push((num as u32, den as u32));
        t = t + 1;
        proof {
            match tbs_at(data@, p as int, (n - t) as int) {
                Ok((rest, q)) => {
                    assert(old_t + (seq![(num as u32, den as u32)] + rest) =~= time_bases@ + rest);
                },
                Err(e) => {},
            }
        }
    }
    proof {
        assert(tbs_at(data@, p as int, 0) == Ok::<(Seq<(u32, u32)>, int), VoleError>((Seq::empty(), p as int)));
        assert(time_bases@ + Seq::<(u32, u32)>::empty() =~= time_bases@);
    }
    Ok(p)
}

/// Read the elision header lengths `1 ..= hc` from `p`.
fn read_elision(data: &[u8], p0: usize, hc: u64, header_len: &mut Vec<u32>) -> (r: Result<usize, VoleError>)
    requires
        p0 <= data@.len(),
        hc < 128,
        old(header_len)@.len() == 128,
    ensures
        r matches Err(e) ==> e == VoleError::NonCanonicalEncoding || e == VoleError::Truncated,
        final(header_len)@.len() == 128,
        match elide(data@, p0 as int, 1, hc, old(header_len)@) {
            Ok((h, q)) => r matches Ok(q2) && q2 == q && final(header_len)@ == h && p0 <= q2 <= data@.len(),
            Err(e) => r == Err::<usize, VoleError>(e),
        },
{
    let mut p = p0;
    let mut c: usize = 1;
    while c <= hc as usize
        invariant
            1 <= c,
            hc < 128,
            c <= hc + 1,
            header_len@.len() == 128,
            p0 <= p <= data@.len(),
            elide(data@, p0 as int, 1, hc, old(header_len)@) == elide(data@, p as int, c as int, hc, header_len@),
        decreases hc + 1 - c,
    {
        let (ln, q) = read_var(data, p)?;
        p = q;
        if ln == 0 || ln > 256 || ln > (data.len() - p) as u64 {
            return Err(VoleError::NonCanonicalEncoding);
        }
        header_len.set(c, ln as u32);
        let (_, q) = take(data, p, ln as usize)?;
        p = q;
        c = c + 1;
    }
    Ok(p)
}

/// Parse the main header packet found at or after `pos`: version, stream
/// count, time-base table, frame-code table, elision header lengths; every
/// field bounded, the packet checksum verified. Returns the version and the
/// position after the packet; the tables hold exactly what the packet
/// codes (see `main_header_spec`).
#[verifier::loop_isolation(false)]
#[verifier::rlimit(80)]
fn parse_main_header(
    data: &[u8],
    pos: usize,
    frame_codes: &mut Vec<FrameCode>,
    header_len: &mut Vec<u32>,
    time_bases: &mut Vec<(u32, u32)>,
) -> (r: Result<(u32, usize), VoleError>)
    requires
        pos <= data@.len(),
        old(frame_codes)@.len() == 256,
        old(header_len)@.len() == 128,
        old(time_bases)@.len() == 0,
    ensures
        final(frame_codes)@.len() == 256,
        final(header_len)@.len() == 128,
        match main_header_spec(data@, pos as int, old(frame_codes)@, old(header_len)@) {
            Ok((v, q, c, h, t)) => r matches Ok((v2, q2)) && v2 == v && q2 == q && final(frame_codes)@ == c
                && final(header_len)@ == h && final(time_bases)@ == t,
            Err(e) => r == Err::<(u32, usize), VoleError>(e),
        },
        r matches Ok((v, q)) ==> 2 <= v <= 4 && pos < q <= data@.len() && 1 <= final(time_bases)@.len() <= 128 && forall|i: int|
            0 <= i < final(time_bases)@.len() ==> tb_ok(#[trigger] final(time_bases)@[i]),
        r matches Err(e) ==> e != VoleError::BadMagic,
        (forall|i: int| pos <= i ==> !code_at(data@, i, MAIN_STARTCODE)) ==> r == Err::<(u32, usize), VoleError>(
            VoleError::Truncated,
        ),
{
    proof {
        reveal(main_header_spec);
    }
    let ghost d = data@;
    let ghost codes0 = frame_codes@;
    let ghost hl0 = header_len@;
    let found = find_startcode(data, pos, MAIN_STARTCODE);
    let mut p = match found {
        Ok(q) => q,
        Err(e) => {
            return Err(e);
        },
    };
    proof {
        let st = choose|i: int|
            pos <= i && code_at(d, i, MAIN_STARTCODE) && forall|k: int| pos <= k < i ==> !code_at(d, k, MAIN_STARTCODE);
        assert(code_at(d, p - 8, MAIN_STARTCODE));
        assert(st == p - 8) by {
            if st < p - 8 {
                assert(!code_at(d, st, MAIN_STARTCODE));
            } else if st > p - 8 {
            }
        }
    }
    let (size, q) = read_var(data, p)?;
    p = q;
    let body_start = p;
    if size > 4096 {
        let (stored, q) = take(data, p, 4)?;
        p = q;
        let mut head: Vec<u8> = Vec::new();
        let mut k = 0u32;
        while k < 8
            invariant
                k <= 8,
                head@ == main_code_bytes().take(k as int),
            decreases 8 - k,
        {
            head.push(((MAIN_STARTCODE >> (56 - 8 * k) as u64) & 0xff) as u8);
            k = k + 1;
            proof {
                assert(head@ =~= main_code_bytes().take(k as int));
            }
        }
        let tail = encode_var(size);
        let mut k = 0usize;
        while k < tail.len()
            invariant
                k <= tail@.len(),
                head@ == main_code_bytes().take(8) + tail@.take(k as int),
            decreases tail@.len() - k,
        {
            head.push(tail[k]);
            k = k + 1;
            proof {
                assert(head@ =~= main_code_bytes().take(8) + tail@.take(k as int));
            }
        }
        proof {
            assert(head@ =~= main_code_bytes() + var_bytes(size));
        }
        if !verify_packet_crc(head.as_slice(), stored) {
            return Err(VoleError::IntegrityMismatch);
        }
    }
    if size < 4 {
        return Err(VoleError::NonCanonicalEncoding);
    }
    if size - 4 > (data.len() - body_start) as u64 {
        return Err(VoleError::Truncated);
    }
    let body_end = body_start + (size - 4) as usize;
    let (version, q) = read_var(data, p)?;
    p = q;
    if version < 2 || version > bounds::MAX_VERSION {
        return Err(VoleError::UnsupportedFeature);
    }
    let (_, q) = read_opt(data, p, version > 3, 0)?;
    p = q;
    let (stream_count, q) = read_var(data, p)?;
    p = q;
    if stream_count == 0 || stream_count > bounds::MAX_STREAMS as u64 {
        return Err(VoleError::DimensionTooLarge);
    }
    let (max_distance, q) = read_var(data, p)?;
    p = q;
    if max_distance > 65_536 {
        return Err(VoleError::NonCanonicalEncoding);
    }
    let (tb_count, q) = read_var(data, p)?;
    p = q;
    if tb_count == 0 || tb_count > bounds::MAX_TIME_BASES as u64 {
        return Err(VoleError::DimensionTooLarge);
    }
    p = read_tbs(data, p, tb_count, time_bases)?;
    // Frame-code table: delta-encoded runs; 'N' (0x4E) is always invalid.
    p = read_code_table(data, p, frame_codes, stream_count)?;
    // Elision headers (fixed start codes of other codecs; rawvideo never
    // matches).
    if p <= data.len() && 4 < body_end && p < body_end - 4 {
        let (hc, q) = read_var(data, p)?;
        p = q;
        if hc >= 128 {
            return Err(VoleError::DimensionTooLarge);
        }
        p = read_elision(data, p, hc, header_len)?;
    }
    // Version > 3 carries a flags varlen.
    if version > 3 && 4 < body_end && p < body_end - 4 {
        let (flags_v, q) = read_var(data, p)?;
        p = q;
        if flags_v > 3 {
            return Err(VoleError::UnsupportedFeature);
        }
    }
    // Reserved bytes to the body end, then the stored checksum.
    if p > body_end {
        return Err(VoleError::NonCanonicalEncoding);
    }
    let (_, q) = take(data, p, body_end - p)?;
    p = q;
    let (stored, q) = take(data, p, 4)?;
    p = q;
    if !verify_packet_crc(vstd::slice::slice_subrange(data, body_start, body_end), stored) {
        return Err(VoleError::IntegrityMismatch);
    }
    Ok((version as u32, p))
}

/// The class-specific tail of a stream header from `p`: a video stream's
/// geometry and aspect ratio, an audio stream's channel count.
#[verifier::opaque]
pub open spec fn stream_class_tail(d: Seq<u8>, p: int, class: u64, h: NutStreamHeader) -> Result<(NutStreamHeader, int), VoleError> {
    if class == 0 {
        match var_at(d, p) {
            Err(e) => Err(e),
            Ok((wv, q1)) => match var_at(d, q1) {
                Err(e) => Err(e),
                Ok((hv, q2)) => if wv as u32 == 0 || hv as u32 == 0 {
                    Err(VoleError::NonCanonicalEncoding)
                } else {
                    match var_at(d, q2) {
                        Err(e) => Err(e),
                        Ok((sn, q3)) => match var_at(d, q3) {
                            Err(e) => Err(e),
                            Ok((sd, q4)) => if (sn == 0) != (sd == 0) {
                                Err(VoleError::NonCanonicalEncoding)
                            } else {
                                match var_at(d, q4) {
                                    Err(e) => Err(e),
                                    Ok((_, q5)) => Ok((
                                        NutStreamHeader {
                                            width: wv as u32,
                                            height: hv as u32,
                                            sar: if sn != 0 {
                                                Some((sn as u32, sd as u32))
                                            } else {
                                                h.sar
                                            },
                                            ..h
                                        },
                                        q5,
                                    )),
                                }
                            },
                        },
                    }
                },
            },
        }
    } else if class == 1 {
        match skip_vars(d, p, 2) {
            Err(e) => Err(e),
            Ok(q2) => match var_at(d, q2) {
                Err(e) => Err(e),
                Ok((ch, q3)) => if ch == 0 {
                    Err(VoleError::NonCanonicalEncoding)
                } else {
                    Ok((h, q3))
                },
            },
        }
    } else if class > 3 {
        Err(VoleError::UnsupportedFeature)
    } else {
        Ok((h, p))
    }
}

/// The stream header packet found at or after `p`: the first stream
/// startcode, a body of at most 4096 bytes with index 0, class, fourcc,
/// time-base index into `tbs`, PTS shift below 16, three skipped fields,
/// bounded extradata, the class tail, reserved bytes and a verified
/// checksum. Returns the header and the position after the packet.
#[verifier::opaque]
pub open spec fn stream_packet_spec(d: Seq<u8>, p: int, tbs: Seq<(u32, u32)>) -> Result<(NutStreamHeader, int), VoleError> {
    if !(exists|i: int| p <= i && code_at(d, i, STREAM_STARTCODE)) {
        Err(VoleError::Truncated)
    } else {
        let st = choose|i: int|
            p <= i && code_at(d, i, STREAM_STARTCODE) && forall|k: int| p <= k < i ==> !code_at(d, k, STREAM_STARTCODE);
        match var_at(d, st + 8) {
            Err(e) => Err(e),
            Ok((size, bs)) => if size < 4 || size > 4096 {
                Err(VoleError::NonCanonicalEncoding)
            } else if size - 4 > d.len() - bs {
                Err(VoleError::Truncated)
            } else {
                let be = bs + size - 4;
                match var_at(d, bs) {
                    Err(e) => Err(e),
                    Ok((index, p1)) => if index >= 1 {
                        Err(VoleError::NonCanonicalEncoding)
                    } else {
                        match var_at(d, p1) {
                            Err(e) => Err(e),
                            Ok((class, p2)) => match fourcc_at(d, p2) {
                                Err(e) => Err(e),
                                Ok((tag, p3)) => match var_at(d, p3) {
                                    Err(e) => Err(e),
                                    Ok((tbi, p4)) => if tbi >= tbs.len() {
                                        Err(VoleError::NonCanonicalEncoding)
                                    } else {
                                        match var_at(d, p4) {
                                            Err(e) => Err(e),
                                            Ok((msb, p5)) => if msb >= 16 {
                                                Err(VoleError::NonCanonicalEncoding)
                                            } else {
                                                match skip_vars(d, p5, 3) {
                                                    Err(e) => Err(e),
                                                    Ok(p8) => match var_at(d, p8) {
                                                        Err(e) => Err(e),
                                                        Ok((ext, p9)) => if ext > 0x10_0000 || ext > d.len() - p9 {
                                                            Err(VoleError::DimensionTooLarge)
                                                        } else {
                                                            let h = NutStreamHeader {
                                                                index: index as u32,
                                                                class: class as u32,
                                                                codec_tag: tag,
                                                                width: 0,
                                                                height: 0,
                                                                sar: None,
                                                                tb_index: tbi as u32,
                                                                time_base: tbs[tbi as int],
                                                                msb_pts_shift: msb as u32,
                                                            };
                                                            match stream_class_tail(d, p9 + ext, class, h) {
                                                                Err(e) => Err(e),
                                                                Ok((h2, pe)) => if pe > be {
                                                                    Err(VoleError::NonCanonicalEncoding)
                                                                } else if be + 4 > d.len() {
                                                                    Err(VoleError::Truncated)
                                                                } else if d.subrange(be, be + 4) != be_bytes(
                                                                    crc32_spec(d.subrange(bs, be)),
                                                                ) {
                                                                    Err(VoleError::IntegrityMismatch)
                                                                } else {
                                                                    Ok((h2, be + 4))
                                                                },
                                                            }
                                                        },
                                                    },
                                                }
                                            },
                                        }
                                    },
                                },
                            },
                        }
                    },
                }
            },
        }
    }
}

/// Read the class tail of a stream header.
fn read_class_tail(data: &[u8], p: usize, class: u64, h: NutStreamHeader) -> (r: Result<(NutStreamHeader, usize), VoleError>)
    requires
        p <= data@.len(),
    ensures
        match stream_class_tail(data@, p as int, class, h) {
            Ok((h2, q)) => r matches Ok((h3, q2)) && h3 == h2 && q2 == q && p <= q2 <= data@.len(),
            Err(e) => r == Err::<(NutStreamHeader, usize), VoleError>(e),
        },
        r matches Err(e) ==> e != VoleError::BadMagic,
        r matches Ok((h2, q)) ==> h2.index == h.index && h2.class == h.class && h2.codec_tag == h.codec_tag
            && h2.tb_index == h.tb_index && h2.time_base == h.time_base && h2.msb_pts_shift == h.msb_pts_shift
            && class <= 3 && (class == 0 ==> h2.width > 0 && h2.height > 0),
{
    proof {
        reveal(stream_class_tail);
    }
    let mut header = h;
    let mut p = p;
    if class == 0 {
        let (wv, q) = read_var(data, p)?;
        p = q;
        let (hv, q) = read_var(data, p)?;
        p = q;
        header.width = wv as u32;
        header.height = hv as u32;
        if header.width == 0 || header.height == 0 {
            return Err(VoleError::NonCanonicalEncoding);
        }
        let (sar_num, q) = read_var(data, p)?;
        p = q;
        let (sar_den, q) = read_var(data, p)?;
        p = q;
        if (sar_num == 0) != (sar_den == 0) {
            return Err(VoleError::NonCanonicalEncoding);
        }
        if sar_num != 0 {
            header.sar = Some((sar_num as u32, sar_den as u32));
        }
        let (_, q) = read_var(data, p)?;
        p = q;
    } else if class == 1 {
        let q = skip_n(data, p, 2)?;
        p = q;
        let (channels, q) = read_var(data, p)?;
        p = q;
        if channels == 0 {
            return Err(VoleError::NonCanonicalEncoding);
        }
    } else if class > 3 {
        return Err(VoleError::UnsupportedFeature);
    }
    Ok((header, p))
}

/// Read the stream header packet found at or after `pos` (see
/// [`stream_packet_spec`]).
#[verifier::loop_isolation(false)]
#[verifier::rlimit(60)]
fn read_stream_header(data: &[u8], pos: usize, time_bases: &Vec<(u32, u32)>) -> (r: Result<(NutStreamHeader, usize), VoleError>)
    requires
        pos <= data@.len(),
        time_bases@.len() <= 128,
    ensures
        match stream_packet_spec(data@, pos as int, time_bases@) {
            Ok((h, q)) => r matches Ok((h2, q2)) && h2 == h && q2 == q,
            Err(e) => r == Err::<(NutStreamHeader, usize), VoleError>(e),
        },
        r matches Err(e) ==> e != VoleError::BadMagic,
        r matches Ok((h, q)) ==> pos < q <= data@.len() && stream_ok(h, time_bases@),
{
    proof {
        reveal(stream_packet_spec);
    }
    let ghost d = data@;
    let mut p = match find_startcode(data, pos, STREAM_STARTCODE) {
        Ok(q) => q,
        Err(e) => {
            return Err(e);
        },
    };
    proof {
        let st = choose|i: int|
            pos <= i && code_at(d, i, STREAM_STARTCODE) && forall|k: int| pos <= k < i ==> !code_at(d, k, STREAM_STARTCODE);
        assert(code_at(d, p - 8, STREAM_STARTCODE));
        assert(st == p - 8) by {
            if st < p - 8 {
                assert(!code_at(d, st, STREAM_STARTCODE));
            }
        }
    }
    let (size, q) = read_var(data, p)?;
    p = q;
    let body_start = p;
    if size < 4 || size > 4096 {
        return Err(VoleError::NonCanonicalEncoding);
    }
    if size - 4 > (data.len() - body_start) as u64 {
        return Err(VoleError::Truncated);
    }
    let body_end = body_start + (size - 4) as usize;
    let (index, q) = read_var(data, p)?;
    p = q;
    if index >= 1 {
        return Err(VoleError::NonCanonicalEncoding);
    }
    let (class, q) = read_var(data, p)?;
    p = q;
    let (tag, q) = read_fourcc(data, p)?;
    p = q;
    let (tb_index, q) = read_var(data, p)?;
    p = q;
    if tb_index >= time_bases.len() as u64 {
        return Err(VoleError::NonCanonicalEncoding);
    }
    let (msb, q) = read_var(data, p)?;
    p = q;
    if msb >= 16 {
        return Err(VoleError::NonCanonicalEncoding);
    }
    let q = skip_n(data, p, 3)?;
    p = q;
    let (ext_len, q) = read_var(data, p)?;
    p = q;
    if ext_len > 0x10_0000 || ext_len > (data.len() - p) as u64 {
        return Err(VoleError::DimensionTooLarge);
    }
    let (_, q) = take(data, p, ext_len as usize)?;
    p = q;
    let header = NutStreamHeader {
        index: index as u32,
        class: class as u32,
        codec_tag: tag,
        width: 0,
        height: 0,
        sar: None,
        tb_index: tb_index as u32,
        time_base: time_bases[tb_index as usize],
        msb_pts_shift: msb as u32,
    };
    let (header, q) = read_class_tail(data, p, class, header)?;
    p = q;
    proof {
        assert(header.class <= 3);
        assert(header.time_base == time_bases@[header.tb_index as int]);
    }
    if p > body_end {
        return Err(VoleError::NonCanonicalEncoding);
    }
    let (_, q) = take(data, p, body_end - p)?;
    p = q;
    let (stored, q) = take(data, p, 4)?;
    p = q;
    if !verify_packet_crc(vstd::slice::slice_subrange(data, body_start, body_end), stored) {
        return Err(VoleError::IntegrityMismatch);
    }
    Ok((header, p))
}

/// The PTS a coded value gives against the stream's last PTS: below
/// `2^shift` it carries the low bits (lsb2full, wrapping arithmetic); above
/// it is offset by `2^shift`.
pub open spec fn coded_pts(coded: u64, shift: u32, last: i64) -> i64 {
    let m: u64 = 1u64 << (shift as u64);
    if coded < m {
        let mask: u64 = (m - 1) as u64;
        let delta: i64 = last.wrapping_sub((mask / 2) as i64);
        ((coded.wrapping_sub(delta as u64) & mask).wrapping_add(delta as u64)) as i64
    } else {
        (coded as i64).wrapping_sub(m as i64)
    }
}

/// A frame as plain values: stream, PTS, keyframe flag, payload.
pub open spec fn frame_view(f: NutFrame) -> (u32, i64, bool, Seq<u8>) {
    (f.stream, f.pts, f.key, f.payload@)
}

/// The frame packet at `pos` (just after its frame-code byte) under frame
/// code `fc`, elision lengths `hl`, the declared streams and their last
/// PTS: its plain values and the position after it, or the first fault.
#[verifier::opaque]
pub open spec fn frame_spec(
    d: Seq<u8>,
    pos: int,
    fc: FrameCode,
    hl: Seq<u32>,
    streams: Seq<NutStreamHeader>,
    last: Seq<i64>,
) -> Result<((u32, i64, bool, Seq<u8>), int), VoleError> {
    match opt_var(d, pos, fc.flags & FLAG_CODED != 0, 0) {
        Err(e) => Err(e),
        Ok((cv, p1)) => {
            let flags: u16 = if fc.flags & FLAG_CODED != 0 {
                fc.flags ^ (cv as u16)
            } else {
                fc.flags
            };
            match opt_var(d, p1, flags & FLAG_STREAM_ID != 0, 0) {
                Err(e) => Err(e),
                Ok((sv, p2)) => if flags & FLAG_STREAM_ID != 0 && sv >= streams.len() {
                    Err(VoleError::NonCanonicalEncoding)
                } else {
                    let sid: u32 = if flags & FLAG_STREAM_ID != 0 {
                        sv as u32
                    } else {
                        fc.stream_id
                    };
                    if sid >= streams.len() {
                        Err(VoleError::NonCanonicalEncoding)
                    } else {
                        match opt_var(d, p2, flags & FLAG_CODED_PTS != 0, 0) {
                            Err(e) => Err(e),
                            Ok((coded, p3)) => {
                                let pts: i64 = if flags & FLAG_CODED_PTS != 0 {
                                    coded_pts(coded, streams[sid as int].msb_pts_shift, last[sid as int])
                                } else {
                                    last[sid as int].wrapping_add(fc.pts_delta)
                                };
                                frame_tail_spec(d, p3, fc, flags, sid, pts, hl)
                            },
                        }
                    }
                },
            }
        },
    }
}

/// The frame packet from its size field on.
#[verifier::opaque]
pub open spec fn frame_tail_spec(
    d: Seq<u8>,
    p3: int,
    fc: FrameCode,
    flags: u16,
    sid: u32,
    pts: i64,
    hl: Seq<u32>,
) -> Result<((u32, i64, bool, Seq<u8>), int), VoleError> {
    match opt_var(d, p3, flags & FLAG_SIZE_MSB != 0, 0) {
        Err(e) => Err(e),
        Ok((msb, p4)) => {
            let size0: u64 = if flags & FLAG_SIZE_MSB != 0 {
                fc.size_lsb.wrapping_add(fc.size_mul.wrapping_mul(msb))
            } else {
                fc.size_lsb
            };
            match opt_var_s(d, p4, flags & FLAG_MATCH_TIME != 0) {
                Err(e) => Err(e),
                Ok((_, p5)) => match opt_var(d, p5, flags & FLAG_HEADER_IDX != 0, 0) {
                    Err(e) => Err(e),
                    Ok((hv, p6)) => {
                        let hidx: u32 = if flags & FLAG_HEADER_IDX != 0 {
                            hv as u32
                        } else {
                            fc.header_idx
                        };
                        match opt_var(d, p6, flags & FLAG_RESERVED != 0, 0) {
                            Err(e) => Err(e),
                            Ok((rv, p7)) => {
                                let reserved: u32 = if flags & FLAG_RESERVED != 0 {
                                    rv as u32
                                } else {
                                    fc.reserved_count
                                };
                                match skip_vars(d, p7, reserved as int) {
                                    Err(e) => Err(e),
                                    Ok(p8) => if hidx >= hl.len() {
                                        Err(VoleError::NonCanonicalEncoding)
                                    } else {
                                        let elided: u64 = if size0 > 4096 {
                                            hl[0] as u64
                                        } else {
                                            hl[hidx as int] as u64
                                        };
                                        if size0 < elided {
                                            Err(VoleError::NonCanonicalEncoding)
                                        } else if size0 - elided > bounds::MAX_FRAME_PAYLOAD {
                                            Err(VoleError::DimensionTooLarge)
                                        } else if flags & FLAG_CHECKSUM != 0 && p8 + 4 > d.len() {
                                            Err(VoleError::Truncated)
                                        } else if flags & FLAG_SM_DATA != 0 {
                                            Err(VoleError::UnsupportedFeature)
                                        } else {
                                            let p9 = if flags & FLAG_CHECKSUM != 0 {
                                                p8 + 4
                                            } else {
                                                p8
                                            };
                                            let size = size0 - elided;
                                            if p9 + size > d.len() {
                                                Err(VoleError::Truncated)
                                            } else {
                                                Ok(((sid, pts, flags & FLAG_KEY != 0, d.subrange(p9, p9 + size)), p9 + size))
                                            }
                                        }
                                    },
                                }
                            },
                        }
                    },
                },
            }
        },
    }
}

/// Read a frame packet from its size field on (see `frame_tail_spec`).
#[verifier::rlimit(60)]
fn read_frame_tail(
    data: &[u8],
    p3: usize,
    fc: FrameCode,
    flags: u16,
    sid: u32,
    pts: i64,
    header_len: &Vec<u32>,
) -> (r: Result<(Vec<u8>, bool, usize), VoleError>)
    requires
        p3 <= data@.len(),
        header_len@.len() == 128,
    ensures
        match frame_tail_spec(data@, p3 as int, fc, flags, sid, pts, header_len@) {
            Ok(((s2, t2, k2, pl), q)) => {
                &&& s2 == sid
                &&& t2 == pts
                &&& r matches Ok((v, k, q2)) && v@ == pl && k == k2 && q2 == q
            },
            Err(e) => r == Err::<(Vec<u8>, bool, usize), VoleError>(e),
        },
        r matches Ok((v, k, q)) ==> p3 <= q - v@.len() && q <= data@.len() && v@ == data@.subrange(q - v@.len(), q as int)
            && v@.len() <= bounds::MAX_FRAME_PAYLOAD,
        r matches Err(e) ==> e != VoleError::BadMagic,
{
    proof {
        reveal(frame_tail_spec);
    }
    let (msb, p4) = read_opt(data, p3, flags & FLAG_SIZE_MSB != 0, 0)?;
    let size: u64 = if flags & FLAG_SIZE_MSB != 0 {
        fc.size_lsb.wrapping_add(fc.size_mul.wrapping_mul(msb))
    } else {
        fc.size_lsb
    };
    let (_, p5) = read_opt_s(data, p4, flags & FLAG_MATCH_TIME != 0)?;
    let (hv, p6) = read_opt(data, p5, flags & FLAG_HEADER_IDX != 0, 0)?;
    let mut head_idx: u32 = if flags & FLAG_HEADER_IDX != 0 {
        hv as u32
    } else {
        fc.header_idx
    };
    let (rv, p7) = read_opt(data, p6, flags & FLAG_RESERVED != 0, 0)?;
    let reserved: u32 = if flags & FLAG_RESERVED != 0 {
        rv as u32
    } else {
        fc.reserved_count
    };
    let mut p = skip_n(data, p7, reserved as u64)?;
    if head_idx as usize >= header_len.len() {
        return Err(VoleError::NonCanonicalEncoding);
    }
    if size > 4096 {
        head_idx = 0;
    }
    let elided = header_len[head_idx as usize] as u64;
    if size < elided {
        return Err(VoleError::NonCanonicalEncoding);
    }
    let size = size - elided;
    if size > bounds::MAX_FRAME_PAYLOAD {
        return Err(VoleError::DimensionTooLarge);
    }
    if flags & FLAG_CHECKSUM != 0 {
        let (_, q) = take(data, p, 4)?;
        p = q;
    }
    if flags & FLAG_SM_DATA != 0 {
        return Err(VoleError::UnsupportedFeature);
    }
    let (body, q) = take(data, p, size as usize)?;
    let payload = vstd::slice::slice_to_vec(body);
    Ok((payload, flags & FLAG_KEY != 0, q))
}

/// Read one frame packet's header and payload at `pos` (just after its
/// frame-code byte): coded flags, stream, PTS, size and skipped fields per
/// the frame code, then the payload. The stream's last PTS becomes the
/// frame's. Returns the frame and the position after it.
#[verifier::loop_isolation(false)]
#[verifier::rlimit(60)]
fn read_frame(
    data: &[u8],
    pos: usize,
    fc: FrameCode,
    header_len: &Vec<u32>,
    streams: &Vec<NutStreamHeader>,
    time_bases: &Vec<(u32, u32)>,
    last_pts: &mut Vec<i64>,
) -> (r: Result<(NutFrame, usize), VoleError>)
    requires
        pos <= data@.len(),
        header_len@.len() == 128,
        old(last_pts)@.len() == streams@.len(),
        forall|i: int| 0 <= i < streams@.len() ==> stream_ok(#[trigger] streams@[i], time_bases@),
    ensures
        final(last_pts)@.len() == old(last_pts)@.len(),
        r matches Err(e) ==> e != VoleError::BadMagic,
        r matches Ok((f, q)) ==> {
            &&& pos <= q <= data@.len()
            &&& f.stream < streams@.len()
            &&& f.payload@.len() <= bounds::MAX_FRAME_PAYLOAD
            &&& f.payload@ == data@.subrange(q - f.payload@.len(), q as int)
            &&& q - f.payload@.len() >= pos
            &&& final(last_pts)@ == old(last_pts)@.update(f.stream as int, f.pts)
        },
        match frame_spec(data@, pos as int, fc, header_len@, streams@, old(last_pts)@) {
            Ok((fv, q)) => r matches Ok((f, q2)) && frame_view(f) == fv && q2 == q,
            Err(e) => r == Err::<(NutFrame, usize), VoleError>(e),
        },
{
    proof {
        reveal(frame_spec);
    }
    let (cv, p1) = read_opt(data, pos, fc.flags & FLAG_CODED != 0, 0)?;
    let flags: u16 = if fc.flags & FLAG_CODED != 0 {
        fc.flags ^ (cv as u16)
    } else {
        fc.flags
    };
    let (sv, p2) = read_opt(data, p1, flags & FLAG_STREAM_ID != 0, 0)?;
    if flags & FLAG_STREAM_ID != 0 && sv >= streams.len() as u64 {
        return Err(VoleError::NonCanonicalEncoding);
    }
    let stream_id: u32 = if flags & FLAG_STREAM_ID != 0 {
        sv as u32
    } else {
        fc.stream_id
    };
    if stream_id as usize >= streams.len() {
        // A frame code naming an undeclared stream is refused.
        return Err(VoleError::NonCanonicalEncoding);
    }
    let st = streams[stream_id as usize];
    let sidx = stream_id as usize;
    let (coded, p3) = read_opt(data, p2, flags & FLAG_CODED_PTS != 0, 0)?;
    proof {
        assert(stream_ok(streams@[sidx as int], time_bases@));
    }
    let pts: i64 = if flags & FLAG_CODED_PTS != 0 {
        let shift = st.msb_pts_shift;
        let m: u64 = 1u64 << (shift as u64);
        if coded < m {
            let mask: u64 = m - 1;
            let last = last_pts[sidx];
            let delta = last.wrapping_sub((mask / 2) as i64);
            ((coded.wrapping_sub(delta as u64) & mask).wrapping_add(delta as u64)) as i64
        } else {
            (coded as i64).wrapping_sub(m as i64)
        }
    } else {
        last_pts[sidx].wrapping_add(fc.pts_delta)
    };
    let (payload, key, q) = read_frame_tail(data, p3, fc, flags, stream_id, pts, header_len)?;
    last_pts.set(sidx, pts);
    Ok((NutFrame { stream: stream_id, pts, key, payload }, q))
}

/// A stream's PTS after a syncpoint at `ts` in the container time base
/// `sb`: the time carried over to the stream's time base `tb`, rounded down.
pub open spec fn rescale(ts: u64, sb: (u32, u32), tb: (u32, u32)) -> i64 {
    (((ts as int) * (sb.0 as int) * (tb.1 as int)) / ((sb.1 as int) * (tb.0 as int))) as i64
}

/// Every stream's last PTS after a syncpoint at `ts` in time base `sb`.
pub open spec fn synced(ts: u64, sb: (u32, u32), streams: Seq<NutStreamHeader>) -> Seq<i64> {
    Seq::new(streams.len(), |j: int| rescale(ts, sb, streams[j].time_base))
}

/// The frames as plain values.
pub open spec fn frame_views(fs: Seq<NutFrame>) -> Seq<(u32, i64, bool, Seq<u8>)> {
    fs.map_values(|f: NutFrame| frame_view(f))
}

/// The packets from `p` to the end of the input under frame codes `fcs`,
/// elision lengths `hl`, the declared streams, the container time bases and
/// each stream's last PTS: the frames they carry in order, or the first
/// fault. A syncpoint resets every stream's last PTS to its time; every
/// startcode packet's checksum is checked; other startcode packets are
/// skipped.
#[verifier::opaque]
pub open spec fn walk(
    d: Seq<u8>,
    p: int,
    fcs: Seq<FrameCode>,
    hl: Seq<u32>,
    streams: Seq<NutStreamHeader>,
    tbs: Seq<(u32, u32)>,
    last: Seq<i64>,
) -> Result<Seq<(u32, i64, bool, Seq<u8>)>, VoleError>
    decreases d.len() - p,
{
    if p < 0 || p >= d.len() {
        Ok(Seq::empty())
    } else {
        match packet_kind(d, p) {
            PacketKind::End => Ok(Seq::empty()),
            PacketKind::Frame => {
                let fc = fcs[d[p] as int];
                if fc.flags & FLAG_INVALID != 0 {
                    Err(VoleError::NonCanonicalEncoding)
                } else {
                    match frame_spec(d, p + 1, fc, hl, streams, last) {
                        Err(e) => Err(e),
                        Ok((fv, q)) => if q <= p || q > d.len() {
                            Ok(Seq::empty())
                        } else {
                            match walk(d, q, fcs, hl, streams, tbs, last.update(fv.0 as int, fv.1)) {
                                Err(e) => Err(e),
                                Ok(rest) => Ok(seq![fv] + rest),
                            }
                        },
                    }
                }
            },
            PacketKind::Startcode(code) => match var_at(d, p + 8) {
                Err(e) => Err(e),
                Ok((size, q)) => if q <= p {
                    Ok(Seq::empty())
                } else if size < 4 {
                    Err(VoleError::NonCanonicalEncoding)
                } else if size - 4 > d.len() - q {
                    Err(VoleError::Truncated)
                } else {
                    let be = q + size - 4;
                    let next: Result<Seq<i64>, VoleError> = if code == SYNCPOINT_STARTCODE {
                        match var_at(d.subrange(q, be), 0) {
                            Err(e) => Err(e),
                            Ok((v, _)) => if tbs.len() == 0 {
                                Err(VoleError::NonCanonicalEncoding)
                            } else {
                                Ok(
                                    synced(
                                        v / (tbs.len() as u64),
                                        tbs[((v % (tbs.len() as u64)) as usize) as int],
                                        streams,
                                    ),
                                )
                            },
                        }
                    } else {
                        Ok(last)
                    };
                    match next {
                        Err(e) => Err(e),
                        Ok(last2) => if be + 4 > d.len() {
                            Err(VoleError::Truncated)
                        } else if d.subrange(be, be + 4) != be_bytes(crc32_spec(d.subrange(q, be))) {
                            Err(VoleError::IntegrityMismatch)
                        } else {
                            walk(d, be + 4, fcs, hl, streams, tbs, last2)
                        },
                    }
                },
            },
        }
    }
}

/// A narrow NUT file as plain values: version, container time bases,
/// declared streams and frames, or the fault that refuses it.
pub open spec fn nut_spec(d: Seq<u8>) -> Result<
    (u32, Seq<(u32, u32)>, Seq<NutStreamHeader>, Seq<(u32, i64, bool, Seq<u8>)>),
    VoleError,
> {
    if !(d.len() >= 25 && d.subrange(0, 25) == nut_magic()) {
        Err(VoleError::BadMagic)
    } else {
        match main_header_spec(d, 25, zero_codes(), zero_lens()) {
            Err(e) => Err(e),
            Ok((v, q, fcs, hl, t)) => match streams_from(d, q, t, Seq::empty()) {
                Err(e) => Err(e),
                Ok((hs, q2)) => if hs.len() == 0 {
                    Err(VoleError::Truncated)
                } else {
                    match walk(d, q2, fcs, hl, hs, t, Seq::new(hs.len(), |i: int| 0i64)) {
                        Err(e) => Err(e),
                        Ok(fs) => Ok((v, t, hs, fs)),
                    }
                },
            },
        }
    }
}

/// Position of the first known startcode at or after `p`, if any.
pub open spec fn first_known(d: Seq<u8>, p: int) -> Option<int> {
    if exists|i: int| p <= i && code_at(d, i, be64_at(d, i)) && known_code(be64_at(d, i)) {
        Some(
            choose|i: int|
                p <= i && code_at(d, i, be64_at(d, i)) && known_code(be64_at(d, i)) && forall|k: int|
                    p <= k < i ==> !(code_at(d, k, be64_at(d, k)) && known_code(be64_at(d, k))),
        )
    } else {
        None
    }
}

/// The stream header packets read from `p` on (appended to `acc`) while
/// the next known startcode is a stream startcode; more than 64 streams
/// is `DimensionTooLarge`.
#[verifier::opaque]
pub open spec fn streams_from(d: Seq<u8>, p: int, tbs: Seq<(u32, u32)>, acc: Seq<NutStreamHeader>) -> Result<
    (Seq<NutStreamHeader>, int),
    VoleError,
>
    decreases d.len() - p,
{
    if !(first_known(d, p) matches Some(i) && be64_at(d, i) == STREAM_STARTCODE) {
        Ok((acc, p))
    } else {
        match stream_packet_spec(d, p, tbs) {
            Err(e) => Err(e),
            Ok((h, q)) => if acc.len() + 1 > 64 {
                Err(VoleError::DimensionTooLarge)
            } else if q <= p || q > d.len() {
                Ok((acc.push(h), q))
            } else {
                streams_from(d, q, tbs, acc.push(h))
            },
        }
    }
}

/// What `peek_startcode` finds is the first known startcode.
proof fn lemma_first_known(d: Seq<u8>, p: int, r: Result<(u64, usize), VoleError>)
    requires
        r matches Ok((code, q)) ==> p + 8 <= q <= d.len() && code_at(d, q - 8, code) && known_code(code) && forall|i: int|
            p <= i < q - 8 ==> !(code_at(d, i, be64_at(d, i)) && known_code(be64_at(d, i))),
        r matches Err(e) ==> forall|i: int| p <= i ==> !(code_at(d, i, be64_at(d, i)) && known_code(be64_at(d, i))),
    ensures
        r matches Ok((code, q)) ==> first_known(d, p) == Some(q - 8) && be64_at(d, q - 8) == code,
        r is Err ==> first_known(d, p) is None,
{
    if let Ok((code, q)) = r {
        let i0 = q - 8;
        assert(code_at(d, i0, be64_at(d, i0)) && known_code(be64_at(d, i0)));
        let c = choose|i: int|
            p <= i && code_at(d, i, be64_at(d, i)) && known_code(be64_at(d, i)) && forall|k: int|
                p <= k < i ==> !(code_at(d, k, be64_at(d, k)) && known_code(be64_at(d, k)));
        assert(c == i0) by {
            if c > i0 {
                assert(!(code_at(d, i0, be64_at(d, i0)) && known_code(be64_at(d, i0))));
            }
        }
    }
}

/// Read the stream header packets from `p0` on while the next known
/// startcode is a stream startcode (see [`streams_from`]).
#[verifier::loop_isolation(false)]
#[verifier::rlimit(50)]
fn read_streams(data: &[u8], p0: usize, time_bases: &Vec<(u32, u32)>) -> (r: Result<(Vec<NutStreamHeader>, usize), VoleError>)
    requires
        25 < p0 <= data@.len(),
        1 <= time_bases@.len() <= 128,
        forall|i: int| 0 <= i < time_bases@.len() ==> tb_ok(#[trigger] time_bases@[i]),
    ensures
        match streams_from(data@, p0 as int, time_bases@, Seq::empty()) {
            Ok((hs, q)) => r matches Ok((v, q2)) && v@ == hs && q2 == q,
            Err(e) => r == Err::<(Vec<NutStreamHeader>, usize), VoleError>(e),
        },
        r matches Err(e) ==> e != VoleError::BadMagic,
        r matches Ok((v, q)) ==> 25 < q <= data@.len() && v@.len() <= 64 && forall|i: int|
            0 <= i < v@.len() ==> stream_ok(#[trigger] v@[i], time_bases@),
{
    proof {
        reveal(streams_from);
    }
    let mut p = p0;
    let mut streams: Vec<NutStreamHeader> = Vec::new();
    loop
        invariant
            25 < p <= data@.len(),
            1 <= time_bases@.len() <= 128,
            streams_from(data@, p0 as int, time_bases@, Seq::empty()) == streams_from(
                data@,
                p as int,
                time_bases@,
                streams@,
            ),
            streams@.len() <= 64,
            forall|i: int| 0 <= i < streams@.len() ==> stream_ok(#[trigger] streams@[i], time_bases@),
        decreases data@.len() - p,
    {
        let peeked = peek_startcode(data, p);
        proof {
            lemma_first_known(data@, p as int, peeked);
        }
        match peeked {
            Ok((code, _)) => {
                if code != STREAM_STARTCODE {
                    break;
                }
            },
            Err(_) => {
                break;
            },
        }
        let (h, q) = match read_stream_header(data, p, time_bases) {
            Ok(v) => v,
            Err(e) => {
                return Err(e);
            },
        };
        p = q;
        streams.push(h);
        if streams.len() > bounds::MAX_STREAMS {
            return Err(VoleError::DimensionTooLarge);
        }
    }
    Ok((streams, p))
}

/// Walk the packets from `p0` to the end of the input (see [`walk`]):
/// frames are read under their frame codes, syncpoints reset every
/// stream's last PTS, other startcode packets are skipped, and every
/// startcode packet's checksum is checked. Returns the frames with the
/// offsets of their payloads.
#[verifier::loop_isolation(false)]
#[verifier::rlimit(100)]
fn read_packets(
    data: &[u8],
    p0: usize,
    frame_codes: &Vec<FrameCode>,
    header_len: &Vec<u32>,
    streams: &Vec<NutStreamHeader>,
    time_bases: &Vec<(u32, u32)>,
) -> (r: Result<(Vec<NutFrame>, Ghost<Seq<int>>), VoleError>)
    requires
        25 < p0 <= data@.len(),
        frame_codes@.len() == 256,
        header_len@.len() == 128,
        1 <= time_bases@.len() <= 128,
        forall|i: int| 0 <= i < time_bases@.len() ==> tb_ok(#[trigger] time_bases@[i]),
        1 <= streams@.len() <= 64,
        forall|i: int| 0 <= i < streams@.len() ==> stream_ok(#[trigger] streams@[i], time_bases@),
    ensures
        r matches Err(e) ==> e != VoleError::BadMagic,
        r matches Ok((frames, offs)) ==> {
            &&& forall|i: int|
                0 <= i < frames@.len() ==> (#[trigger] frames@[i]).stream < streams@.len()
                    && frames@[i].payload@.len() <= bounds::MAX_FRAME_PAYLOAD && is_slice(frames@[i].payload@, data@)
            &&& frames_laid_out(frames@, offs@, data@)
        },
        match walk(data@, p0 as int, frame_codes@, header_len@, streams@, time_bases@, Seq::new(streams@.len(), |i: int| 0i64)) {
            Ok(fs) => r matches Ok((frames, _)) && frame_views(frames@) == fs,
            Err(e) => r == Err::<(Vec<NutFrame>, Ghost<Seq<int>>), VoleError>(e),
        },
{
    let mut p = p0;
    let mut frames: Vec<NutFrame> = Vec::new();
    let ghost mut offs: Seq<int> = Seq::empty();
    let mut last_pts: Vec<i64> = Vec::new();
    let mut k = 0usize;
    while k < streams.len()
        invariant
            k <= streams@.len(),
            last_pts@.len() == k,
            forall|j: int| 0 <= j < k ==> last_pts@[j] == 0i64,
        decreases streams@.len() - k,
    {
        last_pts.push(0);
        k = k + 1;
    }
    let ghost w0 = walk(data@, p0 as int, frame_codes@, header_len@, streams@, time_bases@, last_pts@);
    proof {
        assert(last_pts@ =~= Seq::new(streams@.len(), |i: int| 0i64));
        assert(frame_views(frames@) + Seq::<(u32, i64, bool, Seq<u8>)>::empty() =~= Seq::empty());
        assert(frame_views(frames@) =~= Seq::empty());
        match walk(data@, p0 as int, frame_codes@, header_len@, streams@, time_bases@, last_pts@) {
            Ok(rest) => {
                assert(frame_views(frames@) + rest =~= rest);
            },
            Err(_) => {},
        }
    }
    loop
        invariant
            25 < p <= data@.len(),
            w0 == walk(data@, p0 as int, frame_codes@, header_len@, streams@, time_bases@, Seq::new(streams@.len(), |i: int| 0i64)),
            w0 == (match walk(data@, p as int, frame_codes@, header_len@, streams@, time_bases@, last_pts@) {
                Ok(rest) => Ok(frame_views(frames@) + rest),
                Err(e) => Err(e),
            }),
            frame_codes@.len() == 256,
            header_len@.len() == 128,
            1 <= time_bases@.len() <= 128,
            forall|i: int| 0 <= i < time_bases@.len() ==> tb_ok(#[trigger] time_bases@[i]),
            1 <= streams@.len() <= 64,
            forall|i: int| 0 <= i < streams@.len() ==> stream_ok(#[trigger] streams@[i], time_bases@),
            last_pts@.len() == streams@.len(),
            forall|i: int|
                0 <= i < frames@.len() ==> (#[trigger] frames@[i]).stream < streams@.len() && frames@[i].payload@.len()
                    <= bounds::MAX_FRAME_PAYLOAD && is_slice(frames@[i].payload@, data@),
            frames_laid_out(frames@, offs, data@),
            forall|i: int| 0 <= i < frames@.len() ==> #[trigger] offs[i] + frames@[i].payload@.len() <= p,
        decreases data@.len() - p,
    {
        let kind = peek_next(data, p);
        match kind {
            PacketKind::End => {
                proof {
                    reveal_with_fuel(walk, 1);
                    assert(walk(data@, p as int, frame_codes@, header_len@, streams@, time_bases@, last_pts@) == Ok::<
                        Seq<(u32, i64, bool, Seq<u8>)>,
                        VoleError,
                    >(Seq::empty()));
                    assert(frame_views(frames@) + Seq::<(u32, i64, bool, Seq<u8>)>::empty() =~= frame_views(frames@));
                }
                break;
            },
            PacketKind::Frame => {
                let ghost p_old = p as int;
                let ghost last_old = last_pts@;
                let ghost fr_old = frames@;
                let code = data[p] as usize;
                p = p + 1;
                let fc = frame_codes[code];
                if fc.flags & FLAG_INVALID != 0 {
                    proof {
                    assert(walk(data@, p_old, frame_codes@, header_len@, streams@, time_bases@, last_old) == Err::<Seq<(u32, i64, bool, Seq<u8>)>, VoleError>(VoleError::NonCanonicalEncoding)) by {
                        reveal_with_fuel(walk, 1);
                    }
                }
                return Err(VoleError::NonCanonicalEncoding);
                }
                let (frame, q) = match read_frame(data, p, fc, &header_len, &streams, &time_bases, &mut last_pts) {
                    Ok(v) => v,
                    Err(e) => {
                        proof {
                    assert(walk(data@, p_old, frame_codes@, header_len@, streams@, time_bases@, last_old) == Err::<Seq<(u32, i64, bool, Seq<u8>)>, VoleError>(e)) by {
                        reveal_with_fuel(walk, 1);
                    }
                }
                return Err(e);
                    },
                };
                proof {
                    let fv = frame_view(frame);
                    assert(walk(data@, p_old, frame_codes@, header_len@, streams@, time_bases@, last_old) == match walk(data@, q as int, frame_codes@, header_len@, streams@, time_bases@, last_pts@) {
                        Ok(rest) => Ok(seq![fv] + rest),
                        Err(e) => Err(e),
                    }) by {
                        reveal_with_fuel(walk, 1);
                    }
                    assert(frame_views(fr_old.push(frame)) =~= frame_views(fr_old).push(fv));
                    match walk(data@, q as int, frame_codes@, header_len@, streams@, time_bases@, last_pts@) {
                        Ok(rest) => {
                            assert(frame_views(fr_old).push(fv) + rest =~= frame_views(fr_old) + (seq![fv] + rest));
                        },
                        Err(_) => {},
                    }
                }
                let ghost a = q - frame.payload@.len();
                proof {
                    assert(data@.subrange(a, a + frame.payload@.len()) == frame.payload@);
                }
                p = q;
                let ghost old_frames = frames@;
                frames.push(frame);
                proof {
                    let old_offs = offs;
                    offs = offs.push(a);
                    assert forall|i: int| 0 <= i < frames@.len() implies #[trigger] offs[i] + frames@[i].payload@.len()
                        <= p by {
                        if i < old_frames.len() {
                            assert(frames@[i] == old_frames[i]);
                            assert(old_offs[i] + old_frames[i].payload@.len() <= a);
                        }
                    }
                    assert forall|i: int, j: int|
                        0 <= i < j < frames@.len() implies #[trigger] offs[i] + frames@[i].payload@.len() <= #[trigger] offs[j] by {
                        if j < old_frames.len() {
                            assert(frames@[i] == old_frames[i]);
                            assert(frames@[j] == old_frames[j]);
                        } else {
                            assert(frames@[i] == old_frames[i]);
                            assert(old_offs[i] + old_frames[i].payload@.len() <= a);
                        }
                    }
                    assert forall|i: int| 0 <= i < frames@.len() implies 25 < #[trigger] offs[i] && offs[i]
                        + frames@[i].payload@.len() <= data@.len() && data@.subrange(
                        offs[i],
                        offs[i] + frames@[i].payload@.len(),
                    ) == frames@[i].payload@ by {
                        if i < old_frames.len() {
                            assert(frames@[i] == old_frames[i]);
                        }
                    }
                }
            },
            PacketKind::Startcode(code) => {
                let ghost p_old = p as int;
                let ghost last_old = last_pts@;
                let len = data.len();
                proof {
                    assert(p + 8 <= len);
                }
                p = p + 8;
                let (size, q) = match read_var(data, p) {
                    Ok(v) => v,
                    Err(e) => {
                        proof {
                    assert(walk(data@, p_old, frame_codes@, header_len@, streams@, time_bases@, last_old) == Err::<Seq<(u32, i64, bool, Seq<u8>)>, VoleError>(e)) by {
                        reveal_with_fuel(walk, 1);
                    }
                }
                return Err(e);
                    },
                };
                p = q;
                let body_start = p;
                if size < 4 {
                    proof {
                    assert(walk(data@, p_old, frame_codes@, header_len@, streams@, time_bases@, last_old) == Err::<Seq<(u32, i64, bool, Seq<u8>)>, VoleError>(VoleError::NonCanonicalEncoding)) by {
                        reveal_with_fuel(walk, 1);
                    }
                }
                return Err(VoleError::NonCanonicalEncoding);
                }
                if size - 4 > (data.len() - body_start) as u64 {
                    proof {
                    assert(walk(data@, p_old, frame_codes@, header_len@, streams@, time_bases@, last_old) == Err::<Seq<(u32, i64, bool, Seq<u8>)>, VoleError>(VoleError::Truncated)) by {
                        reveal_with_fuel(walk, 1);
                    }
                }
                return Err(VoleError::Truncated);
                }
                let body_end = body_start + (size - 4) as usize;
                if code == SYNCPOINT_STARTCODE {
                    let body = vstd::slice::slice_subrange(data, body_start, body_end);
                    let (ts, tbi) = match decode_tt(body, time_bases.len()) {
                        Ok(v) => v,
                        Err(e) => {
                            proof {
                    assert(walk(data@, p_old, frame_codes@, header_len@, streams@, time_bases@, last_old) == Err::<Seq<(u32, i64, bool, Seq<u8>)>, VoleError>(e)) by {
                        reveal_with_fuel(walk, 1);
                    }
                }
                return Err(e);
                        },
                    };
                    let (sn, sd) = time_bases[tbi];
                    let mut sid = 0usize;
                    while sid < streams.len()
                        invariant
                            sid <= streams@.len(),
                            last_pts@.len() == streams@.len(),
                            tb_ok((sn, sd)),
                            forall|j: int| 0 <= j < sid ==> last_pts@[j] == rescale(ts, (sn, sd), #[trigger] streams@[j].time_base),
                        decreases streams@.len() - sid,
                    {
                        let (tn, td) = streams[sid].time_base;
                        proof {
                            assert(tb_ok(streams@[sid as int].time_base));
                        }
                        proof {
                            assert((ts as int) * (sn as int) <= 0xffff_ffff_ffff_ffff * 0x8000_0000) by (nonlinear_arith)
                                requires
                                    0 <= ts <= 0xffff_ffff_ffff_ffff,
                                    0 <= sn < 0x8000_0000,
                            ;
                            assert((ts as int) * (sn as int) * (td as int) <= 0xffff_ffff_ffff_ffff * 0x8000_0000 * 0x8000_0000) by (nonlinear_arith)
                                requires
                                    0 <= (ts as int) * (sn as int) <= 0xffff_ffff_ffff_ffff * 0x8000_0000,
                                    0 <= td < 0x8000_0000,
                            ;
                            assert((sd as int) * (tn as int) >= 1) by (nonlinear_arith)
                                requires
                                    sd >= 1,
                                    tn >= 1,
                            ;
                            assert((sd as int) * (tn as int) <= 0x8000_0000 * 0x8000_0000) by (nonlinear_arith)
                                requires
                                    sd < 0x8000_0000,
                                    tn < 0x8000_0000,
                            ;
                        }
                        let top = (ts as i128) * (sn as i128) * (td as i128);
                        let bottom = (sd as i128) * (tn as i128);
                        let scaled = top / bottom;
                        proof {
                            assert(scaled as int == ((ts as int) * (sn as int) * (td as int)) / ((sd as int) * (tn as int)));
                        }
                        last_pts.set(sid, scaled as i64);
                        sid = sid + 1;
                    }
                    proof {
                        assert(last_pts@ =~= synced(ts, time_bases@[tbi as int], streams@));
                    }
                }
                // Skip to the body end, then verify the trailing checksum.
                p = body_end;
                let (stored, q) = match take(data, p, 4) {
                    Ok(v) => v,
                    Err(e) => {
                        proof {
                    assert(walk(data@, p_old, frame_codes@, header_len@, streams@, time_bases@, last_old) == Err::<Seq<(u32, i64, bool, Seq<u8>)>, VoleError>(VoleError::Truncated)) by {
                        reveal_with_fuel(walk, 1);
                    }
                }
                return Err(e);
                    },
                };
                p = q;
                if !verify_packet_crc(vstd::slice::slice_subrange(data, body_start, body_end), stored) {
                    proof {
                    assert(walk(data@, p_old, frame_codes@, header_len@, streams@, time_bases@, last_old) == Err::<Seq<(u32, i64, bool, Seq<u8>)>, VoleError>(VoleError::IntegrityMismatch)) by {
                        reveal_with_fuel(walk, 1);
                    }
                }
                return Err(VoleError::IntegrityMismatch);
                }
                proof {
                    assert(walk(data@, p_old, frame_codes@, header_len@, streams@, time_bases@, last_old) == walk(data@, p as int, frame_codes@, header_len@, streams@, time_bases@, last_pts@)) by {
                        reveal_with_fuel(walk, 1);
                    }
                }
            },
        }
    }
    Ok((frames, Ghost(offs)))
}

/// Parse the narrow NUT subset from `data`: the magic (`BadMagic`), the
/// main header, the stream header packets that follow it, then every
/// packet to the end — frames (recovered in decode order) and skipped
/// info/index/header packets, syncpoints resetting every stream's last PTS.
/// The first fault decides the error; the result is exactly [`nut_spec`]
/// of the bytes.
#[verifier::loop_isolation(false)]
#[verifier::rlimit(100)]
pub fn parse_nut(data: &[u8]) -> (r: Result<NutStream, VoleError>)
    ensures
        r == Err::<NutStream, VoleError>(VoleError::BadMagic) <==> !(data@.len() >= 25 && data@.subrange(0, 25) == nut_magic()),
        r matches Ok(s) ==> nut_ok(s, data@),
        r matches Ok(s) ==> in_stream_order(s, data@),
        match nut_spec(data@) {
            Ok((v, t, hs, fs)) => r matches Ok(s) && s.version == v && s.time_bases@ == t && s.streams@ == hs
                && frame_views(s.frames@) == fs,
            Err(e) => r == Err::<NutStream, VoleError>(e),
        },
        data@.len() >= 25 && data@.subrange(0, 25) == nut_magic() && (forall|i: int|
            25 <= i ==> !code_at(data@, i, MAIN_STARTCODE)) ==> r == Err::<NutStream, VoleError>(
            VoleError::Truncated,
        ),
{
    if data.len() < 25 {
        return Err(VoleError::BadMagic);
    }
    let magic: [u8; 25] = [
        0x6e, 0x75, 0x74, 0x2f, 0x6d, 0x75, 0x6c, 0x74, 0x69, 0x6d, 0x65, 0x64, 0x69, 0x61, 0x20, 0x63, 0x6f, 0x6e,
        0x74, 0x61, 0x69, 0x6e, 0x65, 0x72, 0x00,
    ];
    proof {
        assert(magic@ =~= nut_magic());
    }
    let mut k = 0usize;
    while k < 25
        invariant
            k <= 25,
            data@.len() >= 25,
            forall|j: int| 0 <= j < k ==> data@[j] == nut_magic()[j],
        decreases 25 - k,
    {
        if data[k] != magic[k] {
            proof {
                assert(data@.subrange(0, 25)[k as int] != nut_magic()[k as int]);
            }
            return Err(VoleError::BadMagic);
        }
        k = k + 1;
    }
    proof {
        assert(data@.subrange(0, 25) =~= nut_magic());
    }
    let mut frame_codes: Vec<FrameCode> = Vec::new();
    let mut k = 0usize;
    while k < 256
        invariant
            k <= 256,
            frame_codes@.len() == k,
            frame_codes@ == zero_codes().take(k as int),
        decreases 256 - k,
    {
        frame_codes.push(
            FrameCode { flags: 0, stream_id: 0, size_mul: 0, size_lsb: 0, pts_delta: 0, reserved_count: 0, header_idx: 0 },
        );
        k = k + 1;
        proof {
            assert(frame_codes@ =~= zero_codes().take(k as int));
        }
    }
    let mut header_len: Vec<u32> = Vec::new();
    let mut k = 0usize;
    while k < 128
        invariant
            k <= 128,
            header_len@.len() == k,
            header_len@ == zero_lens().take(k as int),
        decreases 128 - k,
    {
        header_len.push(0);
        k = k + 1;
        proof {
            assert(header_len@ =~= zero_lens().take(k as int));
        }
    }
    let mut time_bases: Vec<(u32, u32)> = Vec::new();
    proof {
        assert(frame_codes@ =~= zero_codes());
        assert(header_len@ =~= zero_lens());
    }
    let (version, q) = match parse_main_header(data, 25, &mut frame_codes, &mut header_len, &mut time_bases) {
        Ok(v) => v,
        Err(e) => {
            return Err(e);
        },
    };
    let mut p = q;
    // Stream headers: collect stream packets until another startcode.
    let (streams, q) = match read_streams(data, p, &time_bases) {
        Ok(v) => v,
        Err(e) => {
            return Err(e);
        },
    };
    p = q;
    if streams.len() == 0 {
        return Err(VoleError::Truncated);
    }
    let ghost p0 = p;
    let (frames, Ghost(offs)) = match read_packets(data, p, &frame_codes, &header_len, &streams, &time_bases) {
        Ok(v) => v,
        Err(e) => {
            return Err(e);
        },
    };
    let out = NutStream { version, time_bases, streams, frames };
    proof {
        assert(frames_laid_out(out.frames@, offs, data@));
        assert(in_stream_order(out, data@));
    }
    Ok(out)
}

/// The video class tail of a stream header is, in order, the width, the
/// height, the aspect numerator and the aspect denominator, each a varlen
/// (then one skipped varlen): a header that parses takes its width from the
/// first and its height from the second, and a nonzero aspect pair from
/// the third and fourth.
pub proof fn law_video_header_dimensions(d: Seq<u8>, p: int, h0: NutStreamHeader)
    ensures
        stream_class_tail(d, p, 0, h0) matches Ok((h, _)) ==> {
            &&& var_at(d, p) matches Ok((wv, q1))
            &&& h.width == wv as u32
            &&& var_at(d, q1) matches Ok((hv, q2))
            &&& h.height == hv as u32
            &&& var_at(d, q2) matches Ok((sn, q3))
            &&& var_at(d, q3) matches Ok((sd, _))
            &&& sn != 0 ==> h.sar == Some((sn as u32, sd as u32))
        },
{
    reveal(stream_class_tail);
    if let Ok((h, _)) = stream_class_tail(d, p, 0, h0) {
        if let Ok((wv, q1)) = var_at(d, p) {
            if let Ok((hv, q2)) = var_at(d, q1) {
                if let Ok((sn, q3)) = var_at(d, q2) {
                    if let Ok((sd, q4)) = var_at(d, q3) {
                        assert(h.width == wv as u32 && h.height == hv as u32);
                    }
                }
            }
        }
    }
}

/// A syncpoint's time carried into a stream's time base is rounded down:
/// the stream tick it gives is the largest whose time does not pass the
/// syncpoint's time (`ts · sn/sd` seconds against `tick · tn/td`).
pub proof fn law_rescale_rounds_down(ts: u64, sb: (u32, u32), tb: (u32, u32))
    requires
        sb.1 > 0,
        tb.0 > 0,
        ((ts as int) * (sb.0 as int) * (tb.1 as int)) / ((sb.1 as int) * (tb.0 as int)) <= i64::MAX,
    ensures
        ({
            let num = (ts as int) * (sb.0 as int) * (tb.1 as int);
            let den = (sb.1 as int) * (tb.0 as int);
            let r = rescale(ts, sb, tb) as int;
            &&& r * den <= num
            &&& num < (r + 1) * den
        }),
{
    let num = (ts as int) * (sb.0 as int) * (tb.1 as int);
    let den = (sb.1 as int) * (tb.0 as int);
    assert(den > 0) by (nonlinear_arith)
        requires
            sb.1 > 0,
            tb.0 > 0,
            den == (sb.1 as int) * (tb.0 as int),
    ;
    assert(num >= 0) by (nonlinear_arith)
        requires
            num == (ts as int) * (sb.0 as int) * (tb.1 as int),
    ;
    vstd::arithmetic::div_mod::lemma_fundamental_div_mod(num, den);
    let q = num / den;
    vstd::arithmetic::div_mod::lemma_div_pos_is_pos(num, den);
    assert(rescale(ts, sb, tb) as int == q);
    assert(q * den <= num && num < (q + 1) * den) by (nonlinear_arith)
        requires
            num == den * q + num % den,
            0 <= num % den < den,
    ;
}

} // verus!
