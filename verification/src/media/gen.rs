//! Depth-aware procedural generators.
//!
//! A generator is immutable content-as-program: instead of storing the
//! samples of an object's box, the object carries a small deterministic
//! integer program that computes each sample at materialization, in the
//! sample domain of any plane depth:
//!
//! * `Gradient` — `v = (base + sx·x + sy·y) mod (max+1)`;
//! * `Checker` — `a` when `⌊x/cell⌋ + ⌊y/cell⌋` is even, else `b`;
//! * `Periodic` — a sawtooth field with an explicit period;
//! * `Noise` — a seeded integer hash of the coordinate (splitmix64
//!   finalizer, top byte) scaled into the sample domain.
//!
//! At `max = 255` every program is the 8-bit generator: `Gradient` and
//! `Periodic` wrap mod 256 and `Noise` scales by `(b·256) >> 8 == b`.

use vstd::prelude::*;

use crate::error::VoleError;

verus! {

/// Program tag of a gradient.
pub const GEN_GRADIENT: u8 = 0x00;

/// Program tag of a checkerboard.
pub const GEN_CHECKER: u8 = 0x01;

/// Program tag of a sawtooth field.
pub const GEN_PERIODIC: u8 = 0x02;

/// Program tag of seeded noise.
pub const GEN_NOISE: u8 = 0x03;

/// Bound of the slope coefficients (`±2^24`).
pub const MAX_GEN_COEFF: i64 = 16777216;

/// Upper bound of a checker cell or a sawtooth period.
pub const MAX_GEN_PERIOD: u32 = 4096;

/// A bounded procedural content program in the sample domain of one plane.
#[derive(Debug, Clone, Copy, PartialEq, Eq, Structural)]
pub enum Gen {
    /// `v(x, y) = (base + sx·x + sy·y) mod (max+1)`.
    Gradient { base: u32, sx: i64, sy: i64 },
    /// Checkerboard of `cell × cell` squares alternating `a` and `b`.
    Checker { a: u32, b: u32, cell: u32 },
    /// `v = (base + sx·(x mod period) + sy·(y mod period)) mod (max+1)`.
    Periodic { base: u32, sx: i64, sy: i64, period: u32 },
    /// Seeded integer hash of the coordinate, scaled into the domain.
    Noise { seed: u64 },
}

/// Whether a slope coefficient is inside `±MAX_GEN_COEFF`.
pub open spec fn coeff_ok(c: i64) -> bool {
    -MAX_GEN_COEFF <= c <= MAX_GEN_COEFF
}

/// Canonical form of a program against the plane's maximum sample.
pub open spec fn gen_ok(g: Gen, max: u32) -> bool {
    match g {
        Gen::Gradient { base, sx, sy } => base <= max && coeff_ok(sx) && coeff_ok(sy),
        Gen::Checker { a, b, cell } => a <= max && b <= max && 1 <= cell <= MAX_GEN_PERIOD,
        Gen::Periodic { base, sx, sy, period } => base <= max && coeff_ok(sx) && coeff_ok(sy) && 1
            <= period <= MAX_GEN_PERIOD,
        Gen::Noise { .. } => true,
    }
}

/// Whether the sample of `g` at `(x, y)` is defined: a positive cell and
/// period, and a gradient ramp inside the `i128` accumulator.
pub open spec fn gen_defined(g: Gen, x: i64, y: i64) -> bool {
    match g {
        Gen::Gradient { base, sx, sy } => i128::MIN <= base + sx * x + sy * y <= i128::MAX,
        Gen::Checker { cell, .. } => cell >= 1,
        Gen::Periodic { period, .. } => period >= 1,
        _ => true,
    }
}

/// The splitmix64-finalized hash of a seed-mixed position.
pub open spec fn noise_hash(seed: u64, x: i64, y: i64) -> u64 {
    let h0 = seed ^ (x as u64).wrapping_mul(0x9E37_79B9_7F4A_7C15) ^ (y as u64).wrapping_mul(
        0xBF58_476D_1CE4_E5B9,
    );
    let h1 = h0 ^ (h0 >> 30u64);
    let h2 = h1.wrapping_mul(0xBF58_476D_1CE4_E5B9);
    let h3 = h2 ^ (h2 >> 27u64);
    let h4 = h3.wrapping_mul(0x94D0_49BB_1331_11EB);
    h4 ^ (h4 >> 31u64)
}

/// The sample of program `g` at content-local `(x, y)` in a plane whose
/// maximum sample is `max`.
pub open spec fn gen_sample(g: Gen, x: i64, y: i64, max: u32) -> u32 {
    let m = max + 1;
    match g {
        Gen::Gradient { base, sx, sy } => ((base + sx * x + sy * y) % m) as u32,
        Gen::Checker { a, b, cell } => if ((x as int) / (cell as int) + (y as int) / (cell as int)) % 2 == 0 {
            a
        } else {
            b
        },
        Gen::Periodic { base, sx, sy, period } => ((base + sx * ((x as int) % (period as int)) + sy * ((
            y as int) % (period as int))) % m) as u32,
        Gen::Noise { seed } => (((noise_hash(seed, x, y) >> 56u64) * m) / 256) as u32,
    }
}

/// Little-endian bytes of a `u32`.
pub open spec fn le4(v: u32) -> Seq<u8> {
    seq![(v & 0xff) as u8, ((v >> 8u32) & 0xff) as u8, ((v >> 16u32) & 0xff) as u8, ((v >> 24u32) & 0xff) as u8]
}

/// Little-endian bytes of a `u64`.
pub open spec fn le8(v: u64) -> Seq<u8> {
    le4((v & 0xffff_ffff) as u32) + le4((v >> 32u64) as u32)
}

/// The `u32` whose little-endian bytes start at `b[at]`.
pub open spec fn read4(b: Seq<u8>, at: int) -> u32 {
    (b[at] as u32) | ((b[at + 1] as u32) << 8u32) | ((b[at + 2] as u32) << 16u32) | ((b[at + 3] as u32) << 24u32)
}

/// The `u64` whose little-endian bytes start at `b[at]`.
pub open spec fn read8(b: Seq<u8>, at: int) -> u64 {
    (read4(b, at) as u64) | ((read4(b, at + 4) as u64) << 32u64)
}

/// A coefficient's wire word: its `i32` two's-complement bits.
pub open spec fn coeff_word(c: i64) -> u32 {
    (c as i32) as u32
}

/// The coefficient a wire word carries.
pub open spec fn word_coeff(w: u32) -> i64 {
    (w as i32) as i64
}

/// The canonical wire bytes of a program: the kind byte, then its
/// parameters little-endian (`u32` values, `i32` coefficients, `u64` seed).
pub open spec fn program_bytes_spec(g: Gen) -> Seq<u8> {
    match g {
        Gen::Gradient { base, sx, sy } => seq![GEN_GRADIENT] + le4(base) + le4(coeff_word(sx)) + le4(
            coeff_word(sy),
        ),
        Gen::Checker { a, b, cell } => seq![GEN_CHECKER] + le4(a) + le4(b) + le4(cell),
        Gen::Periodic { base, sx, sy, period } => seq![GEN_PERIODIC] + le4(base) + le4(
            coeff_word(sx),
        ) + le4(coeff_word(sy)) + le4(period),
        Gen::Noise { seed } => seq![GEN_NOISE] + le8(seed),
    }
}

/// Payload length of a program kind, `None` for an unknown kind.
pub open spec fn program_len(kind: u8) -> Option<nat> {
    if kind == GEN_GRADIENT {
        Some(12)
    } else if kind == GEN_CHECKER {
        Some(12)
    } else if kind == GEN_PERIODIC {
        Some(16)
    } else if kind == GEN_NOISE {
        Some(8)
    } else {
        None
    }
}

/// The program the wire bytes `b` (kind byte first) describe, before the
/// domain check.
pub open spec fn program_decode(b: Seq<u8>) -> Gen {
    let kind = b[0];
    if kind == GEN_GRADIENT {
        Gen::Gradient { base: read4(b, 1), sx: word_coeff(read4(b, 5)), sy: word_coeff(read4(b, 9)) }
    } else if kind == GEN_CHECKER {
        Gen::Checker { a: read4(b, 1), b: read4(b, 5), cell: read4(b, 9) }
    } else if kind == GEN_PERIODIC {
        Gen::Periodic {
            base: read4(b, 1),
            sx: word_coeff(read4(b, 5)),
            sy: word_coeff(read4(b, 9)),
            period: read4(b, 13),
        }
    } else {
        Gen::Noise { seed: read8(b, 1) }
    }
}

/// What parsing a program from `b` yields: the program and the bytes it
/// occupies, or the typed error (a short input is `Truncated`, an unknown
/// kind or an out-of-domain parameter `NonCanonicalEncoding`).
pub open spec fn program_parse(b: Seq<u8>, max: u32) -> Result<(Gen, nat), VoleError> {
    if b.len() < 1 {
        Err(VoleError::Truncated)
    } else {
        match program_len(b[0]) {
            None => Err(VoleError::NonCanonicalEncoding),
            Some(n) => if b.len() < 1 + n {
                Err(VoleError::Truncated)
            } else if !gen_ok(program_decode(b), max) {
                Err(VoleError::NonCanonicalEncoding)
            } else {
                Ok((program_decode(b), 1 + n))
            },
        }
    }
}

/// Decoding a little-endian `u32` gives back the word.
pub proof fn lemma_read4_le4(v: u32)
    ensures
        read4(le4(v), 0) == v,
{
    let b = le4(v);
    assert(b[0] == (v & 0xff) as u8);
    assert(b[1] == ((v >> 8u32) & 0xff) as u8);
    assert(b[2] == ((v >> 16u32) & 0xff) as u8);
    assert(b[3] == ((v >> 24u32) & 0xff) as u8);
    assert((((v & 0xff) as u8) as u32) | (((((v >> 8u32) & 0xff) as u8) as u32) << 8u32) | (
    ((((v >> 16u32) & 0xff) as u8) as u32) << 16u32) | (((((v >> 24u32) & 0xff) as u8) as u32)
        << 24u32) == v) by (bit_vector);
}

/// Reading four bytes at an offset only sees those bytes.
pub proof fn lemma_read4_shift(pre: Seq<u8>, mid: Seq<u8>, post: Seq<u8>)
    requires
        mid.len() == 4,
    ensures
        read4(pre + mid + post, pre.len() as int) == read4(mid, 0),
{
    let b = pre + mid + post;
    let p = pre.len() as int;
    assert(b[p] == mid[0] && b[p + 1] == mid[1] && b[p + 2] == mid[2] && b[p + 3] == mid[3]);
}

/// A coefficient inside the `i32` domain survives its wire word.
pub proof fn lemma_coeff_word(c: i64)
    requires
        coeff_ok(c),
    ensures
        word_coeff(coeff_word(c)) == c,
{
    assert(-16777216 <= c <= 16777216 ==> (((c as i32) as u32) as i32) as i64 == c) by (bit_vector);
}

/// Decoding a little-endian `u64` gives back the word.
pub proof fn lemma_read8_le8(v: u64)
    ensures
        read8(le8(v), 0) == v,
{
    let lo = (v & 0xffff_ffff) as u32;
    let hi = (v >> 32u64) as u32;
    lemma_read4_le4(lo);
    lemma_read4_le4(hi);
    lemma_read4_shift(seq![], le4(lo), le4(hi));
    lemma_read4_shift(le4(lo), le4(hi), seq![]);
    assert(seq![] + le4(lo) + le4(hi) =~= le8(v));
    assert(le4(lo) + le4(hi) + seq![] =~= le8(v));
    assert(((lo as u64) | ((hi as u64) << 32u64)) == v) by (bit_vector)
        requires
            lo == (v & 0xffff_ffff) as u32,
            hi == (v >> 32u64) as u32,
    ;
}

impl Gen {
    /// Canonical-form check against the plane's maximum sample: values
    /// (`base`, `a`, `b`) inside `0..=max`, slopes inside `±MAX_GEN_COEFF`,
    /// cell/period inside `1..=MAX_GEN_PERIOD`; `NonCanonicalEncoding`
    /// otherwise.
    pub fn check(&self, max: u32) -> (r: Result<(), VoleError>)
        ensures
            r is Ok <==> gen_ok(*self, max),
            r matches Err(e) ==> e == VoleError::NonCanonicalEncoding,
    {
        match *self {
            Gen::Gradient { base, sx, sy } => {
                if base > max || !coeff_in(sx) || !coeff_in(sy) {
                    return Err(VoleError::NonCanonicalEncoding);
                }
                Ok(())
            },
            Gen::Checker { a, b, cell } => {
                if a > max || b > max {
                    return Err(VoleError::NonCanonicalEncoding);
                }
                if cell == 0 || cell > MAX_GEN_PERIOD {
                    return Err(VoleError::NonCanonicalEncoding);
                }
                Ok(())
            },
            Gen::Periodic { base, sx, sy, period } => {
                if base > max || !coeff_in(sx) || !coeff_in(sy) {
                    return Err(VoleError::NonCanonicalEncoding);
                }
                if period == 0 || period > MAX_GEN_PERIOD {
                    return Err(VoleError::NonCanonicalEncoding);
                }
                Ok(())
            },
            Gen::Noise { .. } => Ok(()),
        }
    }

    /// The sample at content-local coordinate `(x, y)` in a plane whose
    /// maximum sample is `max` (exact integer semantics, floor division).
    pub fn sample(&self, x: i64, y: i64, max: u32) -> (r: u32)
        requires
            gen_defined(*self, x, y),
        ensures
            r == gen_sample(*self, x, y, max),
    {
        let m = (max as i128) + 1;
        match *self {
            Gen::Gradient { base, sx, sy } => {
                proof {
                    lemma_i64_product(sx, x);
                    lemma_i64_product(sy, y);
                }
                let v = (base as i128) + (sx as i128) * (x as i128) + (sy as i128) * (y as i128);
                let r = v.checked_rem_euclid(m).unwrap();
                r as u32
            },
            Gen::Checker { a, b, cell } => {
                let c = cell as i64;
                proof {
                    lemma_floor_div_fits(x as int, c as int);
                    lemma_floor_div_fits(y as int, c as int);
                }
                let qx = x.checked_div_euclid(c).unwrap();
                let qy = y.checked_div_euclid(c).unwrap();
                let px = qx.checked_rem_euclid(2).unwrap();
                let py = qy.checked_rem_euclid(2).unwrap();
                proof {
                    assert((qx + qy) % 2 == (px + py) % 2) by (nonlinear_arith)
                        requires
                            px == qx % 2,
                            py == qy % 2,
                    ;
                }
                if (px + py) % 2 == 0 {
                    a
                } else {
                    b
                }
            },
            Gen::Periodic { base, sx, sy, period } => {
                let p = period as i128;
                let px = (x as i128).checked_rem_euclid(p).unwrap();
                let py = (y as i128).checked_rem_euclid(p).unwrap();
                proof {
                    assert(-0x8000_0000_0000_0000_0000_0000 <= (sx as int) * (px as int) <= 0x8000_0000_0000_0000_0000_0000) by (nonlinear_arith)
                        requires
                            i64::MIN <= sx <= i64::MAX,
                            0 <= px < 0x1_0000_0000,
                    ;
                    assert(-0x8000_0000_0000_0000_0000_0000 <= (sy as int) * (py as int) <= 0x8000_0000_0000_0000_0000_0000) by (nonlinear_arith)
                        requires
                            i64::MIN <= sy <= i64::MAX,
                            0 <= py < 0x1_0000_0000,
                    ;
                }
                let v = (base as i128) + (sx as i128) * px + (sy as i128) * py;
                let r = v.checked_rem_euclid(m).unwrap();
                r as u32
            },
            Gen::Noise { seed } => {
                let b = noise_top_byte(seed, x, y);
                proof {
                    assert((b as int) * ((max as int) + 1) <= 0xff * 0x1_0000_0000) by (nonlinear_arith)
                        requires
                            b <= 0xff,
                            max <= 0xffff_ffff,
                    ;
                }
                let prod = (b as u64) * ((max as u64) + 1);
                (prod / 256) as u32
            },
        }
    }

    /// Canonical wire bytes of the program: kind byte plus little-endian
    /// parameters (`u32` values, `i32` coefficients, `u64` seeds).
    pub fn program_bytes(&self) -> (r: Vec<u8>)
        ensures
            r@ == program_bytes_spec(*self),
    {
        let mut out: Vec<u8> = Vec::new();
        match *self {
            Gen::Gradient { base, sx, sy } => {
                out.push(GEN_GRADIENT);
                push_le4(&mut out, base);
                push_le4(&mut out, (sx as i32) as u32);
                push_le4(&mut out, (sy as i32) as u32);
            },
            Gen::Checker { a, b, cell } => {
                out.push(GEN_CHECKER);
                push_le4(&mut out, a);
                push_le4(&mut out, b);
                push_le4(&mut out, cell);
            },
            Gen::Periodic { base, sx, sy, period } => {
                out.push(GEN_PERIODIC);
                push_le4(&mut out, base);
                push_le4(&mut out, (sx as i32) as u32);
                push_le4(&mut out, (sy as i32) as u32);
                push_le4(&mut out, period);
            },
            Gen::Noise { seed } => {
                out.push(GEN_NOISE);
                push_le4(&mut out, (seed & 0xffff_ffff) as u32);
                push_le4(&mut out, (seed >> 32u64) as u32);
            },
        }
        proof {
            assert(out@ =~= program_bytes_spec(*self));
        }
        out
    }

    /// Parse a program from the start of `bytes` (kind byte first); returns
    /// the program and the number of bytes it occupies. A short input is
    /// `Truncated`; an unknown kind or an out-of-domain parameter is
    /// `NonCanonicalEncoding`. The caller's framing decides whether bytes
    /// may follow.
    pub fn parse_program(bytes: &[u8], max: u32) -> (r: Result<(Gen, usize), VoleError>)
        ensures
            match program_parse(bytes@, max) {
                Ok((g, n)) => r == Ok::<(Gen, usize), VoleError>((g, n as usize)),
                Err(e) => r == Err::<(Gen, usize), VoleError>(e),
            },
    {
        if bytes.len() < 1 {
            return Err(VoleError::Truncated);
        }
        let kind = bytes[0];
        let n: usize = if kind == GEN_GRADIENT || kind == GEN_CHECKER {
            12
        } else if kind == GEN_PERIODIC {
            16
        } else if kind == GEN_NOISE {
            8
        } else {
            return Err(VoleError::NonCanonicalEncoding);
        };
        if bytes.len() < 1 + n {
            return Err(VoleError::Truncated);
        }
        let g = if kind == GEN_GRADIENT {
            Gen::Gradient {
                base: get_le4(bytes, 1),
                sx: (get_le4(bytes, 5) as i32) as i64,
                sy: (get_le4(bytes, 9) as i32) as i64,
            }
        } else if kind == GEN_CHECKER {
            Gen::Checker { a: get_le4(bytes, 1), b: get_le4(bytes, 5), cell: get_le4(bytes, 9) }
        } else if kind == GEN_PERIODIC {
            Gen::Periodic {
                base: get_le4(bytes, 1),
                sx: (get_le4(bytes, 5) as i32) as i64,
                sy: (get_le4(bytes, 9) as i32) as i64,
                period: get_le4(bytes, 13),
            }
        } else {
            let lo = get_le4(bytes, 1) as u64;
            let hi = get_le4(bytes, 5) as u64;
            Gen::Noise { seed: lo | (hi << 32u64) }
        };
        match g.check(max) {
            Ok(()) => Ok((g, 1 + n)),
            Err(e) => Err(e),
        }
    }
}

/// Floor division by a positive divisor stays between the dividend and 0.
proof fn lemma_floor_div_fits(x: int, c: int)
    requires
        c >= 1,
    ensures
        x >= 0 ==> 0 <= x / c <= x,
        x < 0 ==> x <= x / c < 0,
{
    vstd::arithmetic::div_mod::lemma_fundamental_div_mod(x, c);
    if x >= 0 {
        vstd::arithmetic::div_mod::lemma_div_pos_is_pos(x, c);
        vstd::arithmetic::div_mod::lemma_div_is_ordered_by_denominator(x, 1, c);
    } else {
        assert(x / c < 0) by (nonlinear_arith)
            requires
                x < 0,
                c >= 1,
                x == c * (x / c) + x % c,
                0 <= x % c < c,
        ;
        assert(x <= x / c) by (nonlinear_arith)
            requires
                x < 0,
                c >= 1,
                x == c * (x / c) + x % c,
                0 <= x % c < c,
                x / c < 0,
        ;
    }
}

/// A product of two `i64` values fits comfortably in `i128`.
proof fn lemma_i64_product(a: i64, b: i64)
    ensures
        -0x4000_0000_0000_0000_0000_0000_0000_0000 <= (a as int) * (b as int)
            <= 0x4000_0000_0000_0000_0000_0000_0000_0000,
{
    assert(-0x4000_0000_0000_0000_0000_0000_0000_0000 <= (a as int) * (b as int)
        <= 0x4000_0000_0000_0000_0000_0000_0000_0000) by (nonlinear_arith)
        requires
            i64::MIN <= a <= i64::MAX,
            i64::MIN <= b <= i64::MAX,
    ;
}

/// Whether a slope coefficient is inside `±MAX_GEN_COEFF`.
fn coeff_in(c: i64) -> (r: bool)
    ensures
        r == coeff_ok(c),
{
    -MAX_GEN_COEFF <= c && c <= MAX_GEN_COEFF
}

/// Append the little-endian bytes of `v`.
pub(crate) fn push_le4(out: &mut Vec<u8>, v: u32)
    ensures
        final(out)@ == old(out)@ + le4(v),
{
    out.push((v & 0xff) as u8);
    out.push(((v >> 8u32) & 0xff) as u8);
    out.push(((v >> 16u32) & 0xff) as u8);
    out.push(((v >> 24u32) & 0xff) as u8);
    proof {
        assert(out@ =~= old(out)@ + le4(v));
    }
}

/// The little-endian `u32` at `bytes[at..at + 4]`.
pub(crate) fn get_le4(bytes: &[u8], at: usize) -> (r: u32)
    requires
        at + 4 <= bytes@.len(),
    ensures
        r == read4(bytes@, at as int),
{
    (bytes[at] as u32) | ((bytes[at + 1] as u32) << 8u32) | ((bytes[at + 2] as u32) << 16u32) | ((
    bytes[at + 3] as u32) << 24u32)
}

/// The top byte of the noise hash.
fn noise_top_byte(seed: u64, x: i64, y: i64) -> (r: u8)
    ensures
        r == noise_hash(seed, x, y) >> 56u64,
{
    let mut h = seed ^ (x as u64).wrapping_mul(0x9E37_79B9_7F4A_7C15) ^ (y as u64).wrapping_mul(
        0xBF58_476D_1CE4_E5B9,
    );
    h = h ^ (h >> 30u64);
    h = h.wrapping_mul(0xBF58_476D_1CE4_E5B9);
    h = h ^ (h >> 27u64);
    h = h.wrapping_mul(0x94D0_49BB_1331_11EB);
    h = h ^ (h >> 31u64);
    proof {
        assert(h >> 56u64 <= 0xff) by (bit_vector);
    }
    (h >> 56u64) as u8
}

/// A canonical program survives its wire form: parsing the bytes of a
/// program that passes the domain check gives back the program and the
/// exact byte count.
pub proof fn law_program_roundtrip(g: Gen, max: u32)
    requires
        gen_ok(g, max),
    ensures
        program_parse(program_bytes_spec(g), max) == Ok::<(Gen, nat), VoleError>(
            (g, program_bytes_spec(g).len()),
        ),
{
    let b = program_bytes_spec(g);
    match g {
        Gen::Gradient { base, sx, sy } => {
            let k = seq![GEN_GRADIENT];
            lemma_read4_le4(base);
            lemma_read4_le4(coeff_word(sx));
            lemma_read4_le4(coeff_word(sy));
            lemma_read4_shift(k, le4(base), le4(coeff_word(sx)) + le4(coeff_word(sy)));
            lemma_read4_shift(k + le4(base), le4(coeff_word(sx)), le4(coeff_word(sy)));
            lemma_read4_shift(k + le4(base) + le4(coeff_word(sx)), le4(coeff_word(sy)), seq![]);
            assert(b =~= k + le4(base) + (le4(coeff_word(sx)) + le4(coeff_word(sy))));
            assert(b =~= k + le4(base) + le4(coeff_word(sx)) + le4(coeff_word(sy)));
            assert(b =~= k + le4(base) + le4(coeff_word(sx)) + le4(coeff_word(sy)) + seq![]);
            lemma_coeff_word(sx);
            lemma_coeff_word(sy);
            assert(program_decode(b) == g);
        },
        Gen::Checker { a, b: bb, cell } => {
            let k = seq![GEN_CHECKER];
            lemma_read4_le4(a);
            lemma_read4_le4(bb);
            lemma_read4_le4(cell);
            lemma_read4_shift(k, le4(a), le4(bb) + le4(cell));
            lemma_read4_shift(k + le4(a), le4(bb), le4(cell));
            lemma_read4_shift(k + le4(a) + le4(bb), le4(cell), seq![]);
            assert(b =~= k + le4(a) + (le4(bb) + le4(cell)));
            assert(b =~= k + le4(a) + le4(bb) + le4(cell) + seq![]);
            assert(program_decode(b) == g);
        },
        Gen::Periodic { base, sx, sy, period } => {
            let k = seq![GEN_PERIODIC];
            let w1 = le4(base);
            let w2 = le4(coeff_word(sx));
            let w3 = le4(coeff_word(sy));
            let w4 = le4(period);
            lemma_read4_le4(base);
            lemma_read4_le4(coeff_word(sx));
            lemma_read4_le4(coeff_word(sy));
            lemma_read4_le4(period);
            lemma_read4_shift(k, w1, w2 + w3 + w4);
            lemma_read4_shift(k + w1, w2, w3 + w4);
            lemma_read4_shift(k + w1 + w2, w3, w4);
            lemma_read4_shift(k + w1 + w2 + w3, w4, seq![]);
            assert(b =~= k + w1 + (w2 + w3 + w4));
            assert(b =~= k + w1 + w2 + (w3 + w4));
            assert(b =~= k + w1 + w2 + w3 + w4);
            assert(b =~= k + w1 + w2 + w3 + w4 + seq![]);
            lemma_coeff_word(sx);
            lemma_coeff_word(sy);
            assert(program_decode(b) == g);
        },
        Gen::Noise { seed } => {
            let k = seq![GEN_NOISE];
            let lo = (seed & 0xffff_ffff) as u32;
            let hi = (seed >> 32u64) as u32;
            lemma_read4_le4(lo);
            lemma_read4_le4(hi);
            lemma_read4_shift(k, le4(lo), le4(hi));
            lemma_read4_shift(k + le4(lo), le4(hi), seq![]);
            assert(b =~= k + le4(lo) + le4(hi));
            assert(b =~= k + le4(lo) + le4(hi) + seq![]);
            assert(((lo as u64) | ((hi as u64) << 32u64)) == seed) by (bit_vector)
                requires
                    lo == (seed & 0xffff_ffff) as u32,
                    hi == (seed >> 32u64) as u32,
            ;
            assert(read8(b, 1) == seed);
            assert(program_decode(b) == g);
        },
    }
}

/// Adding `s` before or after reducing mod `m` agrees.
proof fn lemma_mod_then_add(a: int, s: int, m: int)
    requires
        m > 0,
    ensures
        (a + s) % m == ((a % m) + s) % m,
{
    vstd::arithmetic::div_mod::lemma_add_mod_noop(a, s, m);
    vstd::arithmetic::div_mod::lemma_add_mod_noop(a % m, s, m);
    vstd::arithmetic::div_mod::lemma_mod_twice(a, m);
}

/// One step past `x` inside a period advances the residue by one.
proof fn lemma_residue_step(x: int, p: int)
    requires
        p >= 1,
        x % p + 1 < p,
    ensures
        (x + 1) % p == x % p + 1,
{
    vstd::arithmetic::div_mod::lemma_fundamental_div_mod(x, p);
    assert(x + 1 == (x / p) * p + (x % p + 1)) by (nonlinear_arith)
        requires
            x == p * (x / p) + x % p,
    ;
    vstd::arithmetic::div_mod::lemma_fundamental_div_mod_converse(x + 1, p, x / p, x % p + 1);
}

/// A sawtooth field repeats with its period and, inside a period, steps
/// by `sx` per column and by `sy` per row (mod `max + 1`); at the origin it
/// is `base`. So `sx` goes with the `x` coordinate and `sy` with `y`.
pub proof fn law_periodic_sample(base: u32, sx: i64, sy: i64, period: u32, max: u32, x: i64, y: i64)
    requires
        period >= 1,
    ensures
        ({
            let g = Gen::Periodic { base, sx, sy, period };
            let m = max as int + 1;
            &&& gen_sample(g, 0, 0, max) == (base as int) % m
            &&& x < i64::MAX && (x as int) % (period as int) + 1 < period ==> gen_sample(g, (x + 1) as i64, y, max)
                == (gen_sample(g, x, y, max) + sx) % m
            &&& y < i64::MAX && (y as int) % (period as int) + 1 < period ==> gen_sample(g, x, (y + 1) as i64, max)
                == (gen_sample(g, x, y, max) + sy) % m
            &&& x + period <= i64::MAX ==> gen_sample(g, (x + period) as i64, y, max) == gen_sample(g, x, y, max)
            &&& y + period <= i64::MAX ==> gen_sample(g, x, (y + period) as i64, max) == gen_sample(g, x, y, max)
        }),
{
    let g = Gen::Periodic { base, sx, sy, period };
    let m: int = max + 1;
    let p: int = period as int;
    let px = (x as int) % p;
    let py = (y as int) % p;
    let a = base + sx * px + sy * py;
    assert(0 <= a % m < m);
    assert(gen_sample(g, x, y, max) == a % m);
    assert(0int % p == 0) by {
        vstd::arithmetic::div_mod::lemma_small_mod(0, p as nat);
    }
    if x < i64::MAX && px + 1 < p {
        lemma_residue_step(x as int, p);
        assert(base + sx * (px + 1) + sy * py == a + sx) by (nonlinear_arith)
            requires
                a == base + sx * px + sy * py,
        ;
        lemma_mod_then_add(a, sx as int, m);
        let v = (a + sx) % m;
        assert(0 <= v < m);
        assert(gen_sample(g, (x + 1) as i64, y, max) == v);
    }
    if y < i64::MAX && py + 1 < p {
        lemma_residue_step(y as int, p);
        assert(base + sx * px + sy * (py + 1) == a + sy) by (nonlinear_arith)
            requires
                a == base + sx * px + sy * py,
        ;
        lemma_mod_then_add(a, sy as int, m);
        let v = (a + sy) % m;
        assert(0 <= v < m);
        assert(gen_sample(g, x, (y + 1) as i64, max) == v);
    }
    if x + period <= i64::MAX {
        vstd::arithmetic::div_mod::lemma_mod_add_multiples_vanish(x as int, p);
        assert(((x + period) as i64) as int == p + x);
    }
    if y + period <= i64::MAX {
        vstd::arithmetic::div_mod::lemma_mod_add_multiples_vanish(y as int, p);
        assert(((y + period) as i64) as int == p + y);
    }
}

/// A wrap-around ramp steps by `sx` per column and by `sy` per row (mod
/// `max + 1`) and is `base` at the origin.
pub proof fn law_gradient_sample(base: u32, sx: i64, sy: i64, max: u32, x: i64, y: i64)
    ensures
        ({
            let g = Gen::Gradient { base, sx, sy };
            let m = max as int + 1;
            &&& gen_sample(g, 0, 0, max) == (base as int) % m
            &&& x < i64::MAX ==> gen_sample(g, (x + 1) as i64, y, max) == (gen_sample(g, x, y, max) + sx) % m
            &&& y < i64::MAX ==> gen_sample(g, x, (y + 1) as i64, max) == (gen_sample(g, x, y, max) + sy) % m
        }),
{
    let g = Gen::Gradient { base, sx, sy };
    let m: int = max + 1;
    let a = base + sx * x + sy * y;
    assert(gen_sample(g, x, y, max) == a % m);
    if x < i64::MAX {
        assert(base + sx * (x + 1) + sy * y == a + sx) by (nonlinear_arith)
            requires
                a == base + sx * x + sy * y,
        ;
        lemma_mod_then_add(a, sx as int, m);
        assert(gen_sample(g, (x + 1) as i64, y, max) == (a + sx) % m);
    }
    if y < i64::MAX {
        assert(base + sx * x + sy * (y + 1) == a + sy) by (nonlinear_arith)
            requires
                a == base + sx * x + sy * y,
        ;
        lemma_mod_then_add(a, sy as int, m);
        assert(gen_sample(g, x, (y + 1) as i64, max) == (a + sy) % m);
    }
}

/// Moving a whole cell lands in the next cell.
proof fn lemma_next_cell(x: int, c: int)
    requires
        c >= 1,
    ensures
        (x + c) / c == x / c + 1,
{
    vstd::arithmetic::div_mod::lemma_fundamental_div_mod(x, c);
    assert(x + c == (x / c + 1) * c + x % c) by (nonlinear_arith)
        requires
            x == c * (x / c) + x % c,
    ;
    vstd::arithmetic::div_mod::lemma_fundamental_div_mod_converse(x + c, c, x / c + 1, x % c);
}

/// One step inside a cell stays in that cell.
proof fn lemma_same_cell(x: int, c: int)
    requires
        c >= 1,
        x % c + 1 < c,
    ensures
        (x + 1) / c == x / c,
{
    vstd::arithmetic::div_mod::lemma_fundamental_div_mod(x, c);
    assert(x + 1 == (x / c) * c + (x % c + 1)) by (nonlinear_arith)
        requires
            x == c * (x / c) + x % c,
    ;
    vstd::arithmetic::div_mod::lemma_fundamental_div_mod_converse(x + 1, c, x / c, x % c + 1);
}

/// A checkerboard is `a` at the origin, holds only `a` and `b`, keeps its
/// value inside a `cell × cell` square, and (when `a != b`) alternates
/// between `a` and `b` one cell to the right or one cell down.
pub proof fn law_checker_sample(a: u32, b: u32, cell: u32, max: u32, x: i64, y: i64)
    requires
        cell >= 1,
    ensures
        ({
            let g = Gen::Checker { a, b, cell };
            let v = gen_sample(g, x, y, max);
            &&& gen_sample(g, 0, 0, max) == a
            &&& v == a || v == b
            &&& x < i64::MAX && (x as int) % (cell as int) + 1 < cell ==> gen_sample(g, (x + 1) as i64, y, max) == v
            &&& y < i64::MAX && (y as int) % (cell as int) + 1 < cell ==> gen_sample(g, x, (y + 1) as i64, max) == v
            &&& a != b && x + cell <= i64::MAX ==> (gen_sample(g, (x + cell) as i64, y, max) == a <==> v == b)
            &&& a != b && y + cell <= i64::MAX ==> (gen_sample(g, x, (y + cell) as i64, max) == a <==> v == b)
        }),
{
    let c = cell as int;
    vstd::arithmetic::div_mod::lemma_basic_div(0, c);
    if x < i64::MAX && (x as int) % c + 1 < c {
        lemma_same_cell(x as int, c);
    }
    if y < i64::MAX && (y as int) % c + 1 < c {
        lemma_same_cell(y as int, c);
    }
    if x + cell <= i64::MAX {
        lemma_next_cell(x as int, c);
        assert(((x + cell) as i64) as int == x + c);
    }
    if y + cell <= i64::MAX {
        lemma_next_cell(y as int, c);
        assert(((y + cell) as i64) as int == y + c);
    }
}

/// The wire layout of a program: its kind byte first (`0` gradient, `1`
/// checker, `2` periodic, `3` noise), then its parameters in declaration
/// order as little-endian words at byte offsets 1, 5, 9 and 13
/// (coefficients as `i32` words; the noise seed as one `u64`).
pub proof fn law_program_layout(g: Gen, max: u32)
    requires
        gen_ok(g, max),
    ensures
        ({
            let b = program_bytes_spec(g);
            match g {
                Gen::Gradient { base, sx, sy } => b.len() == 13 && b[0] == 0 && read4(b, 1) == base && word_coeff(
                    read4(b, 5),
                ) == sx && word_coeff(read4(b, 9)) == sy,
                Gen::Checker { a, b: bb, cell } => b.len() == 13 && b[0] == 1 && read4(b, 1) == a && read4(b, 5)
                    == bb && read4(b, 9) == cell,
                Gen::Periodic { base, sx, sy, period } => b.len() == 17 && b[0] == 2 && read4(b, 1) == base
                    && word_coeff(read4(b, 5)) == sx && word_coeff(read4(b, 9)) == sy && read4(b, 13) == period,
                Gen::Noise { seed } => b.len() == 9 && b[0] == 3 && read8(b, 1) == seed,
            }
        }),
{
    law_program_roundtrip(g, max);
}

/// Noise takes the top byte of its coordinate hash and scales it into the
/// sample range: at depth 8 (`max == 255`) the sample is that byte, and at
/// every depth it stays within `0..=max`.
pub proof fn law_noise_scaling(seed: u64, x: i64, y: i64, max: u32)
    ensures
        gen_sample(Gen::Noise { seed }, x, y, max) <= max,
        max == 255 ==> gen_sample(Gen::Noise { seed }, x, y, max) == noise_hash(seed, x, y) >> 56u64,
{
    let t = noise_hash(seed, x, y) >> 56u64;
    assert(t < 256) by (bit_vector)
        requires
            t == noise_hash(seed, x, y) >> 56u64,
    ;
    let m = max as int + 1;
    assert((t as int) * m / 256 <= max) by (nonlinear_arith)
        requires
            0 <= t < 256,
            m == max as int + 1,
            0 <= max,
    ;
    assert((t as int) * m / 256 >= 0) by (nonlinear_arith)
        requires
            0 <= t,
            m >= 1,
    ;
    if max == 255 {
        assert((t as int) * 256 / 256 == t) by (nonlinear_arith);
    }
}

} // verus!
