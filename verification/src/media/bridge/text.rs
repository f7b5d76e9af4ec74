//! Byte-level text helpers for the line-oriented tool outputs the bridge
//! reads: ASCII whitespace trimming, decimal numbers as Rust's `str::parse`
//! accepts them, and hexadecimal digits.

use vstd::prelude::*;

verus! {

/// ASCII whitespace: space, tab, line feed, vertical tab, form feed,
/// carriage return.
pub open spec fn is_ws(b: u8) -> bool {
    b == 32 || (9 <= b && b <= 13)
}

/// `s` without its leading whitespace.
pub open spec fn trim_front(s: Seq<u8>) -> Seq<u8>
    decreases s.len(),
{
    if s.len() > 0 && is_ws(s[0]) {
        trim_front(s.subrange(1, s.len() as int))
    } else {
        s
    }
}

/// `s` without its trailing whitespace.
pub open spec fn trim_back(s: Seq<u8>) -> Seq<u8>
    decreases s.len(),
{
    if s.len() > 0 && is_ws(s[s.len() - 1]) {
        trim_back(s.subrange(0, s.len() - 1))
    } else {
        s
    }
}

/// `s` without leading and trailing whitespace.
pub open spec fn trimmed(s: Seq<u8>) -> Seq<u8> {
    trim_back(trim_front(s))
}

/// Whether every byte is an ASCII decimal digit.
pub open spec fn all_digits(s: Seq<u8>) -> bool {
    forall|i: int| 0 <= i < s.len() ==> 48 <= #[trigger] s[i] <= 57
}

/// The decimal value of a digit string.
pub open spec fn dec_value(s: Seq<u8>) -> nat
    decreases s.len(),
{
    if s.len() == 0 {
        0
    } else {
        dec_value(s.drop_last()) * 10 + (s.last() - 48) as nat
    }
}

/// The unsigned decimal `str::parse::<u64>` reads: an optional `+`, then
/// one or more digits whose value fits `u64`.
pub open spec fn u64_text(s: Seq<u8>) -> Option<u64> {
    let t = unsigned_part(s, false);
    if t.len() > 0 && all_digits(t) && dec_value(t) <= u64::MAX {
        Some(dec_value(t) as u64)
    } else {
        None
    }
}

/// The signed decimal `str::parse::<i64>` reads: an optional sign, then one
/// or more digits whose signed value fits `i64`.
pub open spec fn i64_text(s: Seq<u8>) -> Option<i64> {
    let neg = s.len() > 0 && s[0] == 45;
    let t = unsigned_part(s, true);
    if t.len() > 0 && all_digits(t) {
        if neg && dec_value(t) <= 0x8000_0000_0000_0000 {
            Some((0 - dec_value(t)) as i64)
        } else if !neg && dec_value(t) <= 0x7fff_ffff_ffff_ffff {
            Some(dec_value(t) as i64)
        } else {
            None
        }
    } else {
        None
    }
}

/// The value of a hexadecimal digit (either case).
pub open spec fn hex_digit(b: u8) -> Option<u8> {
    if 48 <= b <= 57 {
        Some((b - 48) as u8)
    } else if 97 <= b <= 102 {
        Some((b - 87) as u8)
    } else if 65 <= b <= 70 {
        Some((b - 55) as u8)
    } else {
        None
    }
}

/// Whether `b` is ASCII whitespace.
pub fn ws(b: u8) -> (r: bool)
    ensures
        r == is_ws(b),
{
    b == 32 || (9 <= b && b <= 13)
}

/// `b` without leading and trailing ASCII whitespace.
pub fn trim(b: &[u8]) -> (r: &[u8])
    ensures
        r@ == trimmed(b@),
{
    let mut a = 0usize;
    proof {
        assert(b@.subrange(0, b@.len() as int) =~= b@);
    }
    while a < b.len() && ws(b[a])
        invariant
            a <= b@.len(),
            trim_front(b@) == trim_front(b@.subrange(a as int, b@.len() as int)),
        decreases b@.len() - a,
    {
        proof {
            let s = b@.subrange(a as int, b@.len() as int);
            assert(s.subrange(1, s.len() as int) =~= b@.subrange(a + 1, b@.len() as int));
        }
        a = a + 1;
    }
    proof {
        let s = b@.subrange(a as int, b@.len() as int);
        assert(trim_front(s) == s);
    }
    let mut e = b.len();
    while e > a && ws(b[e - 1])
        invariant
            a <= e <= b@.len(),
            trim_back(b@.subrange(a as int, b@.len() as int)) == trim_back(b@.subrange(a as int, e as int)),
        decreases e,
    {
        proof {
            let s = b@.subrange(a as int, e as int);
            assert(s.subrange(0, s.len() - 1) =~= b@.subrange(a as int, e - 1));
        }
        e = e - 1;
    }
    proof {
        let s = b@.subrange(a as int, e as int);
        assert(trim_back(s) == s);
    }
    vstd::slice::slice_subrange(b, a, e)
}

/// The digits after an optional leading sign byte (`+` only, or `+`/`-`).
pub open spec fn unsigned_part(s: Seq<u8>, minus_too: bool) -> Seq<u8> {
    if s.len() > 0 && (s[0] == 43 || (minus_too && s[0] == 45)) {
        s.subrange(1, s.len() as int)
    } else {
        s
    }
}

/// The value of the digit string `b[start..]`, if all of it is digits and
/// the value is at most `limit`.
fn digits_upto(b: &[u8], start: usize, limit: u64) -> (r: Option<u64>)
    requires
        start <= b@.len(),
    ensures
        r == (if all_digits(b@.subrange(start as int, b@.len() as int)) && dec_value(
            b@.subrange(start as int, b@.len() as int),
        ) <= limit {
            Some(dec_value(b@.subrange(start as int, b@.len() as int)) as u64)
        } else {
            None
        }),
{
    let ghost t = b@.subrange(start as int, b@.len() as int);
    let mut v: u64 = 0;
    let mut i = start;
    while i < b.len()
        invariant
            start <= i <= b@.len(),
            t == b@.subrange(start as int, b@.len() as int),
            all_digits(b@.subrange(start as int, i as int)),
            v == dec_value(b@.subrange(start as int, i as int)),
            v <= limit,
        decreases b@.len() - i,
    {
        let c = b[i];
        proof {
            assert(b@.subrange(start as int, i + 1).drop_last() =~= b@.subrange(start as int, i as int));
            assert(t[i - start] == c);
        }
        if c < 48 || c > 57 {
            return None;
        }
        let d = (c - 48) as u64;
        if (v as u128) * 10 + (d as u128) > limit as u128 {
            proof {
                if all_digits(t) {
                    lemma_dec_prefix_le(t, i - start + 1);
                    assert(t.subrange(0, i - start + 1) =~= b@.subrange(start as int, i + 1));
                }
            }
            return None;
        }
        v = v * 10 + d;
        proof {
            assert(all_digits(b@.subrange(start as int, i + 1)));
        }
        i = i + 1;
    }
    proof {
        assert(b@.subrange(start as int, i as int) =~= t);
    }
    Some(v)
}

/// Read `str::parse::<u64>` of `b`.
pub fn parse_u64(b: &[u8]) -> (r: Option<u64>)
    ensures
        r == u64_text(b@),
{
    let start = if b.len() > 0 && b[0] == 43 {
        1usize
    } else {
        0usize
    };
    proof {
        assert(b@.subrange(start as int, b@.len() as int) =~= unsigned_part(b@, false));
    }
    if start >= b.len() {
        return None;
    }
    digits_upto(b, start, u64::MAX)
}

/// Read `str::parse::<i64>` of `b`.
pub fn parse_i64(b: &[u8]) -> (r: Option<i64>)
    ensures
        r == i64_text(b@),
{
    let neg = b.len() > 0 && b[0] == 45;
    let start = if b.len() > 0 && (b[0] == 43 || b[0] == 45) {
        1usize
    } else {
        0usize
    };
    proof {
        assert(b@.subrange(start as int, b@.len() as int) =~= unsigned_part(b@, true));
    }
    if start >= b.len() {
        return None;
    }
    let limit: u64 = if neg {
        0x8000_0000_0000_0000
    } else {
        0x7fff_ffff_ffff_ffff
    };
    match digits_upto(b, start, limit) {
        None => None,
        Some(v) => if neg {
            if v == 0x8000_0000_0000_0000 {
                Some(i64::MIN)
            } else {
                Some(0 - (v as i64))
            }
        } else {
            Some(v as i64)
        },
    }
}

/// The value of a digit string is at least that of any of its prefixes.
proof fn lemma_dec_prefix_le(s: Seq<u8>, n: int)
    requires
        0 <= n <= s.len(),
        all_digits(s),
    ensures
        dec_value(s.subrange(0, n)) <= dec_value(s),
    decreases s.len() - n,
{
    if n < s.len() {
        lemma_dec_prefix_le(s, n + 1);
        assert(s.subrange(0, n + 1).drop_last() =~= s.subrange(0, n));
    } else {
        assert(s.subrange(0, n) =~= s);
    }
}

/// The value of a hexadecimal digit.
pub fn hex_val(b: u8) -> (r: Option<u8>)
    ensures
        r == hex_digit(b),
{
    if 48 <= b && b <= 57 {
        Some(b - 48)
    } else if 97 <= b && b <= 102 {
        Some(b - 87)
    } else if 65 <= b && b <= 70 {
        Some(b - 55)
    } else {
        None
    }
}

/// Whether `s` starts with `prefix`.
pub fn starts_with(s: &[u8], prefix: &[u8]) -> (r: bool)
    ensures
        r == (prefix@.len() <= s@.len() && s@.subrange(0, prefix@.len() as int) == prefix@),
{
    if prefix.len() > s.len() {
        return false;
    }
    let mut i = 0usize;
    while i < prefix.len()
        invariant
            i <= prefix@.len() <= s@.len(),
            forall|k: int| 0 <= k < i ==> s@[k] == prefix@[k],
        decreases prefix@.len() - i,
    {
        if s[i] != prefix[i] {
            proof {
                assert(s@.subrange(0, prefix@.len() as int)[i as int] != prefix@[i as int]);
            }
            return false;
        }
        i = i + 1;
    }
    proof {
        assert(s@.subrange(0, prefix@.len() as int) =~= prefix@);
    }
    true
}

/// The position of the first `c` in `s`, if any.
pub fn find_byte(s: &[u8], c: u8) -> (r: Option<usize>)
    ensures
        r matches Some(i) ==> i < s@.len() && s@[i as int] == c && forall|k: int| 0 <= k < i ==> s@[k] != c,
        r is None ==> forall|k: int| 0 <= k < s@.len() ==> s@[k] != c,
{
    let mut i = 0usize;
    while i < s.len()
        invariant
            i <= s@.len(),
            forall|k: int| 0 <= k < i ==> s@[k] != c,
        decreases s@.len() - i,
    {
        if s[i] == c {
            return Some(i);
        }
        i = i + 1;
    }
    None
}

/// The pieces of `s` between the bytes equal to `c`, in order (one more
/// piece than there are separators; pieces may be empty).
pub open spec fn pieces(s: Seq<u8>, c: u8) -> Seq<Seq<u8>>
    decreases s.len(),
{
    if s.len() == 0 {
        seq![Seq::<u8>::empty()]
    } else {
        let p = pieces(s.drop_last(), c);
        if s.last() == c {
            p.push(Seq::<u8>::empty())
        } else {
            p.update(p.len() - 1, p.last().push(s.last()))
        }
    }
}

/// The lines of `s`: the pieces between line feeds, the last one kept
/// only when nonempty.
pub open spec fn lines_of(s: Seq<u8>) -> Seq<Seq<u8>> {
    let p = pieces(s, 10);
    if p.last().len() > 0 {
        p
    } else {
        p.drop_last()
    }
}

/// Split `s` at every `c`, keeping the last piece only when `keep_last` or
/// it is nonempty.
fn split_on(s: &[u8], c: u8, keep_last: bool) -> (r: Vec<&[u8]>)
    ensures
        forall|i: int| 0 <= i < r@.len() ==> is_run(#[trigger] r@[i]@, s@),
        ({
            let p = pieces(s@, c);
            let want = if keep_last || p.last().len() > 0 { p } else { p.drop_last() };
            r@.len() == want.len() && forall|i: int| 0 <= i < r@.len() ==> #[trigger] r@[i]@ == want[i]
        }),
{
    let mut out: Vec<&[u8]> = Vec::new();
    let mut start = 0usize;
    let mut i = 0usize;
    proof {
        assert(s@.subrange(0, 0) =~= Seq::<u8>::empty());
        assert(s@.subrange(0, 0) =~= s@.subrange(0, 0));
    }
    while i < s.len()
        invariant
            start <= i <= s@.len(),
            forall|k: int| 0 <= k < out@.len() ==> is_run(#[trigger] out@[k]@, s@),
            pieces(s@.subrange(0, i as int), c).len() == out@.len() + 1,
            forall|k: int| 0 <= k < out@.len() ==> #[trigger] out@[k]@ == pieces(s@.subrange(0, i as int), c)[k],
            pieces(s@.subrange(0, i as int), c).last() == s@.subrange(start as int, i as int),
        decreases s@.len() - i,
    {
        let ghost pre = s@.subrange(0, i as int);
        let ghost p0 = pieces(pre, c);
        proof {
            assert(s@.subrange(0, i + 1).drop_last() =~= pre);
            assert(s@.subrange(0, i + 1).last() == s@[i as int]);
        }
        if s[i] == c {
            let line = vstd::slice::slice_subrange(s, start, i);
            proof {
                assert(s@.subrange(start as int, start + line@.len()) == line@);
                assert(s@.subrange(i + 1, i + 1) =~= Seq::<u8>::empty());
            }
            out.push(line);
            start = i + 1;
        } else {
            proof {
                assert(s@.subrange(start as int, i + 1) =~= s@.subrange(start as int, i as int).push(s@[i as int]));
            }
        }
        i = i + 1;
    }
    proof {
        assert(s@.subrange(0, s@.len() as int) =~= s@);
    }
    if keep_last || start < s.len() {
        let line = vstd::slice::slice_subrange(s, start, s.len());
        proof {
            assert(s@.subrange(start as int, start + line@.len()) == line@);
        }
        out.push(line);
    }
    out
}

/// The lines of `s`: the runs between line feeds, the last one kept only
/// when nonempty.
pub fn split_lines(s: &[u8]) -> (r: Vec<&[u8]>)
    ensures
        forall|i: int| 0 <= i < r@.len() ==> is_run(#[trigger] r@[i]@, s@),
        r@.len() == lines_of(s@).len(),
        forall|i: int| 0 <= i < r@.len() ==> #[trigger] r@[i]@ == lines_of(s@)[i],
{
    split_on(s, 10, false)
}

/// The pieces of `s` between the bytes equal to `c`, each trimmed.
pub fn split_trimmed(s: &[u8], c: u8) -> (r: Vec<&[u8]>)
    ensures
        r@.len() == pieces(s@, c).len(),
        forall|i: int| 0 <= i < r@.len() ==> #[trigger] r@[i]@ == trimmed(pieces(s@, c)[i]),
{
    let raw = split_on(s, c, true);
    let mut out: Vec<&[u8]> = Vec::new();
    let mut i = 0usize;
    while i < raw.len()
        invariant
            i <= raw@.len(),
            out@.len() == i,
            raw@.len() == pieces(s@, c).len(),
            forall|k: int| 0 <= k < raw@.len() ==> #[trigger] raw@[k]@ == pieces(s@, c)[k],
            forall|k: int| 0 <= k < i ==> #[trigger] out@[k]@ == trimmed(pieces(s@, c)[k]),
        decreases raw@.len() - i,
    {
        out.push(trim(raw[i]));
        i = i + 1;
    }
    out
}

/// Whether `p` is a contiguous run of bytes of `d`.
pub open spec fn is_run(p: Seq<u8>, d: Seq<u8>) -> bool {
    exists|a: int| 0 <= a && a + p.len() <= d.len() && #[trigger] d.subrange(a, a + p.len()) == p
}

} // verus!
