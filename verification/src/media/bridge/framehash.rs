//! Framehash oracle records.
//!
//! An independent per-observation digest path: a `framehash` muxer decodes
//! the source and prints one record per frame — `#frame#, dts, pts,
//! duration, size, sha256` — where the SHA-256 covers the decoded frame's
//! tight rows in its pixel format. The canonical bytes derived from the NUT
//! pipe must reproduce the same digest per frame; the record's `size`
//! column independently confirms each frame's canonical byte count.
//!
//! Running the muxer is the application's concern; this module parses its
//! text output, line by line, on bytes (ASCII whitespace is trimmed).

use vstd::array::ArrayAdditionalExecFns;
use vstd::prelude::*;

use crate::error::VoleError;
use crate::media::bridge::text::{
    find_byte, hex_digit, hex_val, i64_text, lines_of, parse_i64, parse_u64, pieces, split_lines, split_trimmed,
    starts_with, trim, trimmed, u64_text,
};

verus! {

/// One per-frame oracle record.
#[derive(Debug, Clone)]
pub struct FramehashRecord {
    /// Frame ordinal (decode order, 0-based).
    pub frame: u64,
    /// Decode timestamp in the oracle's time base (`None` when `N/A`).
    pub dts: Option<i64>,
    /// Presentation timestamp in the oracle's time base.
    pub pts: Option<i64>,
    /// Frame duration in the oracle's time base.
    pub duration: Option<i64>,
    /// Canonical sample byte count of the frame.
    pub size: u64,
    /// SHA-256 over the tight-row decoded frame.
    pub sha256: [u8; 32],
}

/// The parsed oracle run.
#[derive(Debug)]
pub struct FramehashResult {
    /// The oracle output time base `(num, den)` seconds per tick (from the
    /// `#tb 0:` header line).
    pub time_base: (u32, u32),
    /// Per-frame records in decode order.
    pub records: Vec<FramehashRecord>,
}

/// Most records one run may hold.
pub const MAX_RECORDS: usize = 0x40_0000;

/// An optional timestamp column: `N/A` or empty is `None`, otherwise the
/// signed decimal (an unreadable number is `None` too).
pub open spec fn opt_i64_text(s: Seq<u8>) -> Option<i64> {
    if s == seq![78u8, 47u8, 65u8] || s.len() == 0 {
        None
    } else {
        i64_text(s)
    }
}

/// A rational `num/den` (each side trimmed) with both parts in `1..2^31`.
pub open spec fn rational_text(s: Seq<u8>) -> Option<(u32, u32)> {
    if exists|i: int| 0 <= i < s.len() && s[i] == 47 {
        let i = choose|i: int| 0 <= i < s.len() && s[i] == 47 && forall|k: int| 0 <= k < i ==> s[k] != 47;
        match (u64_text(trimmed(s.subrange(0, i))), u64_text(trimmed(s.subrange(i + 1, s.len() as int)))) {
            (Some(a), Some(b)) => if a == 0 || b == 0 || a >= 0x8000_0000 || b >= 0x8000_0000 {
                None
            } else {
                Some((a as u32, b as u32))
            },
            _ => None,
        }
    } else {
        None
    }
}

/// Read an optional timestamp column.
pub fn parse_i64_opt(s: &[u8]) -> (r: Option<i64>)
    ensures
        r == opt_i64_text(s@),
{
    if s.len() == 0 {
        return None;
    }
    if s.len() == 3 && s[0] == 78 && s[1] == 47 && s[2] == 65 {
        proof {
            assert(s@ =~= seq![78u8, 47u8, 65u8]);
        }
        return None;
    }
    proof {
        if s@ == seq![78u8, 47u8, 65u8] {
            assert(s@[0] == 78 && s@[1] == 47 && s@[2] == 65);
        }
    }
    parse_i64(s)
}

/// Read a rational `num/den`.
pub fn parse_rational(s: &[u8]) -> (r: Option<(u32, u32)>)
    ensures
        r == rational_text(s@),
{
    let len = s.len();
    match find_byte(s, 47) {
        None => None,
        Some(i) => {
            proof {
                let j = choose|j: int| 0 <= j < s@.len() && s@[j] == 47 && forall|k: int| 0 <= k < j ==> s@[k] != 47;
                assert(j == i as int) by {
                    if j < i {
                        assert(s@[j] != 47);
                    } else if j > i {
                        assert(s@[i as int] != 47);
                    }
                }
            }
            let a = parse_u64(trim(vstd::slice::slice_subrange(s, 0, i)));
            let b = parse_u64(trim(vstd::slice::slice_subrange(s, i + 1, len)));
            match (a, b) {
                (Some(a), Some(b)) => {
                    if a == 0 || b == 0 || a >= 0x8000_0000 || b >= 0x8000_0000 {
                        None
                    } else {
                        Some((a as u32, b as u32))
                    }
                },
                _ => None,
            }
        },
    }
}

/// The byte a two-character hex field gives, as `u8::from_str_radix(_, 16)`
/// reads it (a leading `+` is allowed).
pub open spec fn hex_pair_text(hi: u8, lo: u8) -> Option<u8> {
    if hi == 43 {
        hex_digit(lo)
    } else {
        match (hex_digit(hi), hex_digit(lo)) {
            (Some(h), Some(l)) => Some((h * 16 + l) as u8),
            _ => None,
        }
    }
}

/// The 32 bytes a 64-character hex column spells, pair by pair.
pub open spec fn digest_text(hex: Seq<u8>) -> Option<Seq<u8>> {
    if hex.len() == 64 && forall|i: int| 0 <= i < 32 ==> #[trigger] hex_pair_text(hex[2 * i], hex[2 * i + 1]) is Some {
        Some(Seq::new(32, |i: int| hex_pair_text(hex[2 * i], hex[2 * i + 1])->0))
    } else {
        None
    }
}

/// A record as plain values: frame, dts, pts, duration, size, digest.
pub type RecordView = (u64, Option<i64>, Option<i64>, Option<i64>, u64, Seq<u8>);

/// The plain values of a record.
pub open spec fn record_view(r: FramehashRecord) -> RecordView {
    (r.frame, r.dts, r.pts, r.duration, r.size, r.sha256@)
}

/// The record a data line's trimmed columns spell, or `None` when they are
/// malformed.
pub open spec fn record_text(cols: Seq<Seq<u8>>) -> Option<RecordView> {
    if cols.len() < 6 {
        None
    } else {
        match (u64_text(cols[0]), u64_text(cols[4]), digest_text(cols[5])) {
            (Some(frame), Some(size), Some(d)) => Some(
                (frame, opt_i64_text(cols[1]), opt_i64_text(cols[2]), opt_i64_text(cols[3]), size, d),
            ),
            _ => None,
        }
    }
}

/// The time base a `#` line sets, if it is a `#tb N: num/den` line with a
/// readable rational.
pub open spec fn tb_line(t: Seq<u8>) -> Option<(u32, u32)> {
    if t.len() >= 4 && t.subrange(0, 4) == seq![35u8, 116u8, 98u8, 32u8] {
        let rest = t.subrange(4, t.len() as int);
        if exists|i: int| 0 <= i < rest.len() && rest[i] == 58 {
            let c = choose|i: int| 0 <= i < rest.len() && rest[i] == 58 && forall|k: int| 0 <= k < i ==> rest[k] != 58;
            rational_text(trimmed(rest.subrange(c + 1, rest.len() as int)))
        } else {
            None
        }
    } else {
        None
    }
}

/// The parse state after one more line: blank lines are skipped, `#` lines
/// may set the time base, other lines append a record.
pub open spec fn framehash_step(
    st: Result<(Option<(u32, u32)>, Seq<RecordView>), VoleError>,
    line: Seq<u8>,
) -> Result<(Option<(u32, u32)>, Seq<RecordView>), VoleError> {
    match st {
        Err(e) => Err(e),
        Ok((tb, recs)) => {
            let t = trimmed(line);
            if t.len() == 0 {
                Ok((tb, recs))
            } else if t[0] == 35 {
                match tb_line(t) {
                    Some(v) => Ok((Some(v), recs)),
                    None => Ok((tb, recs)),
                }
            } else {
                match record_text(pieces(t, 44).map_values(|c: Seq<u8>| trimmed(c))) {
                    None => Err(VoleError::BridgeProbeFailed),
                    Some(rec) => if recs.len() + 1 > MAX_RECORDS {
                        Err(VoleError::BridgeOutputLimit)
                    } else {
                        Ok((tb, recs.push(rec)))
                    },
                }
            }
        },
    }
}

/// The parse state after the first `n` lines.
pub open spec fn framehash_fold(lines: Seq<Seq<u8>>, n: nat) -> Result<
    (Option<(u32, u32)>, Seq<RecordView>),
    VoleError,
>
    decreases n,
{
    if n == 0 {
        Ok((None, Seq::empty()))
    } else {
        framehash_step(framehash_fold(lines, (n - 1) as nat), lines[n - 1])
    }
}

/// What the framehash text `bytes` says: the time base and the records in
/// order, or the error the first bad line (or a missing time base) gives.
pub open spec fn framehash_text(bytes: Seq<u8>) -> Result<((u32, u32), Seq<RecordView>), VoleError> {
    let lines = lines_of(bytes);
    match framehash_fold(lines, lines.len()) {
        Err(e) => Err(e),
        Ok((None, _)) => Err(VoleError::BridgeProbeFailed),
        Ok((Some(tb), recs)) => Ok((tb, recs)),
    }
}

/// Read one hex pair.
fn hex_pair(hi: u8, lo: u8) -> (r: Option<u8>)
    ensures
        r == hex_pair_text(hi, lo),
{
    if hi == 43 {
        return hex_val(lo);
    }
    match (hex_val(hi), hex_val(lo)) {
        (Some(h), Some(l)) => Some(h * 16 + l),
        _ => None,
    }
}

/// Once a line fails, every longer prefix fails the same way.
proof fn lemma_fold_err(lines: Seq<Seq<u8>>, m: nat, k: nat, e: VoleError)
    requires
        m <= k,
        framehash_fold(lines, m) == Err::<(Option<(u32, u32)>, Seq<RecordView>), VoleError>(e),
    ensures
        framehash_fold(lines, k) == Err::<(Option<(u32, u32)>, Seq<RecordView>), VoleError>(e),
    decreases k - m,
{
    if m < k {
        lemma_fold_err(lines, m, (k - 1) as nat, e);
    }
}

/// Parse the framehash text output: `#` lines are headers (the `#tb N:
/// num/den` line sets the time base), other nonempty lines are records of
/// at least six comma-separated columns. A malformed record or a missing
/// time base is `BridgeProbeFailed`; more than [`MAX_RECORDS`] records is
/// `BridgeOutputLimit`.
#[verifier::rlimit(60)]
pub fn parse_framehash(bytes: &[u8]) -> (r: Result<FramehashResult, VoleError>)
    ensures
        r is Ok <==> framehash_text(bytes@) is Ok,
        r matches Ok(res) ==> framehash_text(bytes@) == Ok::<((u32, u32), Seq<RecordView>), VoleError>(
            (res.time_base, res.records@.map_values(|x: FramehashRecord| record_view(x))),
        ),
        r matches Err(e) ==> framehash_text(bytes@) == Err::<((u32, u32), Seq<RecordView>), VoleError>(e),
        r matches Ok(res) ==> 1 <= res.time_base.0 < 0x8000_0000 && 1 <= res.time_base.1 < 0x8000_0000
            && res.records@.len() <= MAX_RECORDS,
{
    let lines = split_lines(bytes);
    let ghost ls = lines_of(bytes@);
    let mut time_base: Option<(u32, u32)> = None;
    let mut records: Vec<FramehashRecord> = Vec::new();
    let mut n = 0usize;
    proof {
        assert(records@.map_values(|x: FramehashRecord| record_view(x)) =~= Seq::<RecordView>::empty());
    }
    while n < lines.len()
        invariant
            n <= lines@.len(),
            lines@.len() == ls.len(),
            ls == lines_of(bytes@),
            forall|i: int| 0 <= i < lines@.len() ==> #[trigger] lines@[i]@ == ls[i],
            records@.len() <= MAX_RECORDS,
            time_base matches Some(tb) ==> 1 <= tb.0 < 0x8000_0000 && 1 <= tb.1 < 0x8000_0000,
            framehash_fold(ls, n as nat) == Ok::<(Option<(u32, u32)>, Seq<RecordView>), VoleError>(
                (time_base, records@.map_values(|x: FramehashRecord| record_view(x))),
            ),
        decreases lines@.len() - n,
    {
        let ghost recs0 = records@.map_values(|x: FramehashRecord| record_view(x));
        let ghost raw = ls[n as int];
        let line = trim(lines[n]);
        n = n + 1;
        proof {
            assert(framehash_fold(ls, n as nat) == framehash_step(
                Ok((time_base, recs0)),
                raw,
            ));
        }
        if line.len() == 0 {
            continue;
        }
        if line[0] == 35 {
            let tb_tag: [u8; 4] = [35, 116, 98, 32];
            proof {
                assert(tb_tag@ =~= seq![35u8, 116u8, 98u8, 32u8]);
            }
            if starts_with(line, tb_tag.as_slice()) {
                let rest = vstd::slice::slice_subrange(line, 4, line.len());
                match find_byte(rest, 58) {
                    Some(c) => {
                        proof {
                            let j = choose|j: int|
                                0 <= j < rest@.len() && rest@[j] == 58 && forall|k: int| 0 <= k < j ==> rest@[k] != 58;
                            assert(j == c as int) by {
                                if j < c {
                                    assert(rest@[j] != 58);
                                } else if j > c {
                                    assert(rest@[c as int] != 58);
                                }
                            }
                        }
                        let rat = trim(vstd::slice::slice_subrange(rest, c + 1, rest.len()));
                        if let Some(tb) = parse_rational(rat) {
                            time_base = Some(tb);
                        }
                    },
                    None => {},
                }
            }
            continue;
        }
        let cols = split_trimmed(line, 44);
        let ghost cv = pieces(line@, 44).map_values(|c: Seq<u8>| trimmed(c));
        proof {
            assert(cols@.len() == cv.len());
        }
        if cols.len() < 6 {
            proof {
                lemma_fold_err(ls, n as nat, ls.len(), VoleError::BridgeProbeFailed);
            }
            return Err(VoleError::BridgeProbeFailed);
        }
        proof {
            assert(cols@[0]@ == cv[0]);
            assert(cols@[1]@ == cv[1]);
            assert(cols@[2]@ == cv[2]);
            assert(cols@[3]@ == cv[3]);
            assert(cols@[4]@ == cv[4]);
            assert(cols@[5]@ == cv[5]);
        }
        let frame = match parse_u64(cols[0]) {
            Some(v) => v,
            None => {
                proof {
                    lemma_fold_err(ls, n as nat, ls.len(), VoleError::BridgeProbeFailed);
                }
                return Err(VoleError::BridgeProbeFailed);
            },
        };
        let dts = parse_i64_opt(cols[1]);
        let pts = parse_i64_opt(cols[2]);
        let duration = parse_i64_opt(cols[3]);
        let size = match parse_u64(cols[4]) {
            Some(v) => v,
            None => {
                proof {
                    lemma_fold_err(ls, n as nat, ls.len(), VoleError::BridgeProbeFailed);
                }
                return Err(VoleError::BridgeProbeFailed);
            },
        };
        let hex = cols[5];
        if hex.len() != 64 {
            proof {
                lemma_fold_err(ls, n as nat, ls.len(), VoleError::BridgeProbeFailed);
            }
            return Err(VoleError::BridgeProbeFailed);
        }
        let mut sha256: [u8; 32] = [0u8; 32];
        let mut i = 0usize;
        while i < 32
            invariant
                i <= 32,
                hex@.len() == 64,
                sha256@.len() == 32,
                n <= ls.len(),
                ls == lines_of(bytes@),
                framehash_fold(ls, n as nat) == framehash_step(
                    Ok::<(Option<(u32, u32)>, Seq<RecordView>), VoleError>((time_base, recs0)),
                    raw,
                ),
                trimmed(raw) == line@,
                line@.len() > 0,
                line@[0] != 35,
                cv == pieces(line@, 44).map_values(|c: Seq<u8>| trimmed(c)),
                cv.len() >= 6,
                hex@ == cv[5],
                u64_text(cv[0]) == Some(frame),
                u64_text(cv[4]) == Some(size),
                forall|k: int| 0 <= k < i ==> #[trigger] hex_pair_text(hex@[2 * k], hex@[2 * k + 1]) == Some(sha256@[k]),
            decreases 32 - i,
        {
            match hex_pair(hex[2 * i], hex[2 * i + 1]) {
                Some(v) => {
                    sha256.set(i, v);
                },
                None => {
                    proof {
                        assert(!(hex_pair_text(hex@[2 * (i as int)], hex@[2 * (i as int) + 1]) is Some));
                        assert(digest_text(hex@) is None);
                        lemma_fold_err(ls, n as nat, ls.len(), VoleError::BridgeProbeFailed);
                    }
                    return Err(VoleError::BridgeProbeFailed);
                },
            }
            i = i + 1;
        }
        proof {
            assert(digest_text(hex@) == Some(sha256@)) by {
                assert forall|k: int| 0 <= k < 32 implies #[trigger] hex_pair_text(hex@[2 * k], hex@[2 * k + 1]) is Some by {
                    assert(hex_pair_text(hex@[2 * k], hex@[2 * k + 1]) == Some(sha256@[k]));
                }
                assert(Seq::new(32, |k: int| hex_pair_text(hex@[2 * k], hex@[2 * k + 1])->0) =~= sha256@);
            }
        }
        let rec = FramehashRecord { frame, dts, pts, duration, size, sha256 };
        let ghost rv = record_view(rec);
        if records.len() >= MAX_RECORDS {
            proof {
                lemma_fold_err(ls, n as nat, ls.len(), VoleError::BridgeOutputLimit);
            }
            return Err(VoleError::BridgeOutputLimit);
        }
        records.push(rec);
        proof {
            assert(records@.map_values(|x: FramehashRecord| record_view(x)) =~= recs0.push(rv));
        }
    }
    proof {
        assert(framehash_fold(ls, ls.len()) == framehash_fold(ls, n as nat));
    }
    match time_base {
        Some(tb) => Ok(FramehashResult { time_base: tb, records }),
        None => Err(VoleError::BridgeProbeFailed),
    }
}

} // verus!
