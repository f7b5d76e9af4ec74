//! Global video structure: the normative fixed-point global-motion map.
//!
//! [`GlobalMap`] + [`MapShift`] predict the whole plane of one observation
//! from the previous materialized observation: destination `(x, y)` reads
//! source `((a·x + b·y + c) >> shift, (d·x + e·y + f) >> shift)` with signed
//! floor division, painted only when the source lies inside the previous
//! plane. [`MapShift`] is the precision registry (`Q8`, `Q12`, `Q16`). All
//! arithmetic is integer and checked.

use vstd::prelude::*;

use crate::error::VoleError;
use crate::media::plane::BitDepth;

verus! {

/// Bound of every map coefficient (`±2^24`, the canonical signed wire
/// domain).
pub const MAX_AFFINE_COEFF: i64 = 16777216;

/// Fixed-point map precision registry.
#[derive(Debug, Clone, Copy, PartialEq, Eq, PartialOrd, Ord, Structural)]
pub enum MapShift {
    /// One source pixel = 256 units.
    Q8,
    /// One source pixel = 4096 units.
    Q12,
    /// One source pixel = 65536 units.
    Q16,
}

/// Fractional bits of a precision.
pub open spec fn shift_bits(s: MapShift) -> u8 {
    match s {
        MapShift::Q8 => 8,
        MapShift::Q12 => 12,
        MapShift::Q16 => 16,
    }
}

/// One source pixel in fixed-point units of a precision.
pub open spec fn shift_scale(s: MapShift) -> i64 {
    match s {
        MapShift::Q8 => 256,
        MapShift::Q12 => 4096,
        MapShift::Q16 => 65536,
    }
}

impl MapShift {
    /// Every registry member in ascending precision (also the tie order:
    /// equal byte cost prefers the lower precision).
    #[allow(non_snake_case)]
    pub fn ALL() -> (r: [MapShift; 3])
        ensures
            r@ == seq![MapShift::Q8, MapShift::Q12, MapShift::Q16],
    {
        let r = [MapShift::Q8, MapShift::Q12, MapShift::Q16];
        assert(r@ =~= seq![MapShift::Q8, MapShift::Q12, MapShift::Q16]);
        r
    }

    /// The wire registry code (the fixed-point fractional bits).
    pub fn code(self) -> (r: u8)
        ensures
            r == shift_bits(self),
    {
        match self {
            MapShift::Q8 => 8,
            MapShift::Q12 => 12,
            MapShift::Q16 => 16,
        }
    }

    /// Decode a wire registry byte; any other value is `None`.
    pub fn from_code(code: u8) -> (r: Option<MapShift>)
        ensures
            r matches Some(s) ==> shift_bits(s) == code,
            r is None <==> !(code == 8 || code == 12 || code == 16),
    {
        match code {
            8 => Some(MapShift::Q8),
            12 => Some(MapShift::Q12),
            16 => Some(MapShift::Q16),
            _ => None,
        }
    }

    /// Fractional bits of this precision.
    pub fn shift(self) -> (r: u32)
        ensures
            r == shift_bits(self),
    {
        match self {
            MapShift::Q8 => 8,
            MapShift::Q12 => 12,
            MapShift::Q16 => 16,
        }
    }

    /// One source pixel in fixed-point units: `2^shift`.
    pub fn scale(self) -> (r: i64)
        ensures
            r == shift_scale(self),
    {
        match self {
            MapShift::Q8 => 256,
            MapShift::Q12 => 4096,
            MapShift::Q16 => 65536,
        }
    }

    /// Short label for reports.
    pub fn label(self) -> (r: &'static str)
        ensures
            r@ == match self {
                MapShift::Q8 => "Q8"@,
                MapShift::Q12 => "Q12"@,
                MapShift::Q16 => "Q16"@,
            },
    {
        match self {
            MapShift::Q8 => "Q8",
            MapShift::Q12 => "Q12",
            MapShift::Q16 => "Q16",
        }
    }
}

/// Canonical fixed-point global-motion map (destination → source sampling
/// of the previous observation).
#[derive(Debug, Clone, Copy, PartialEq, Eq, Structural)]
pub struct GlobalMap {
    /// Fixed-point precision.
    pub shift: MapShift,
    /// Source-x coefficient of destination x.
    pub a: i64,
    /// Source-x coefficient of destination y.
    pub b: i64,
    /// Source-x translation (fixed point).
    pub c: i64,
    /// Source-y coefficient of destination x.
    pub d: i64,
    /// Source-y coefficient of destination y.
    pub e: i64,
    /// Source-y translation (fixed point).
    pub f: i64,
}

/// A coefficient inside the canonical domain.
pub open spec fn map_coeff_ok(v: i64) -> bool {
    -MAX_AFFINE_COEFF <= v <= MAX_AFFINE_COEFF
}

/// The identity map at a precision.
pub open spec fn identity_map(s: MapShift) -> GlobalMap {
    GlobalMap { shift: s, a: shift_scale(s), b: 0, c: 0, d: 0, e: shift_scale(s), f: 0 }
}

/// The exact source coordinate of destination `(x, y)`: floor division of
/// each affine numerator by the scale, or `None` when an intermediate leaves
/// `i64` (evaluated as `a·x`, `+ b·y`, `+ c`, each step checked).
pub open spec fn map_source(m: GlobalMap, x: i64, y: i64) -> Option<(i64, i64)> {
    let nu = m.a * x + m.b * y + m.c;
    let nv = m.d * x + m.e * y + m.f;
    if fits_i64(m.a * x) && fits_i64(m.b * y) && fits_i64(m.a * x + m.b * y) && fits_i64(nu)
        && fits_i64(m.d * x) && fits_i64(m.e * y) && fits_i64(m.d * x + m.e * y) && fits_i64(nv) {
        Some(((nu / (shift_scale(m.shift) as int)) as i64, (nv / (shift_scale(m.shift) as int)) as i64))
    } else {
        None
    }
}

/// Whether an integer fits `i64`.
pub open spec fn fits_i64(v: int) -> bool {
    i64::MIN <= v <= i64::MAX
}

/// `lhs · rhs` when it fits `i64`.
fn mul_checked(lhs: i64, rhs: i64) -> (r: Option<i64>)
    ensures
        r == if fits_i64(lhs * rhs) {
            Some((lhs * rhs) as i64)
        } else {
            None::<i64>
        },
{
    lhs.checked_mul(rhs)
}

/// `lhs + rhs` when it fits `i64`.
fn add_checked(lhs: i64, rhs: i64) -> (r: Option<i64>)
    ensures
        r == if fits_i64(lhs + rhs) {
            Some((lhs + rhs) as i64)
        } else {
            None::<i64>
        },
{
    lhs.checked_add(rhs)
}

/// `a·x + b·y + c` with every step checked.
fn affine_row(a: i64, x: i64, b: i64, y: i64, c: i64) -> (r: Option<i64>)
    ensures
        r == if fits_i64(a * x) && fits_i64(b * y) && fits_i64(a * x + b * y) && fits_i64(a * x
            + b * y + c) {
            Some((a * x + b * y + c) as i64)
        } else {
            None::<i64>
        },
{
    let ax = mul_checked(a, x)?;
    let by = mul_checked(b, y)?;
    let s = add_checked(ax, by)?;
    add_checked(s, c)
}

/// Floor division by a positive power-of-two scale (the arithmetic shift).
fn floor_div(v: i64, s: i64) -> (r: i64)
    requires
        s >= 2,
    ensures
        r == (v as int) / (s as int),
{
    proof {
        vstd::arithmetic::div_mod::lemma_fundamental_div_mod(v as int, s as int);
        assert(i64::MIN <= (v as int) / (s as int) <= i64::MAX) by (nonlinear_arith)
            requires
                s >= 2,
                i64::MIN <= v <= i64::MAX,
                v == s * ((v as int) / (s as int)) + (v as int) % (s as int),
                0 <= (v as int) % (s as int) < s,
        ;
    }
    v.checked_div_euclid(s).unwrap()
}

impl GlobalMap {
    /// The identity map: every destination samples the same coordinate.
    pub fn identity(shift: MapShift) -> (r: GlobalMap)
        ensures
            r == identity_map(shift),
    {
        let s = shift.scale();
        GlobalMap { shift, a: s, b: 0, c: 0, d: 0, e: s, f: 0 }
    }

    /// Whether this is the identity map.
    pub fn is_identity(&self) -> (r: bool)
        ensures
            r == (*self == identity_map(self.shift)),
    {
        let s = self.shift.scale();
        self.a == s && self.b == 0 && self.c == 0 && self.d == 0 && self.e == s && self.f == 0
    }

    /// Canonical-form check: every coefficient inside `±2^24`
    /// (`NonCanonicalEncoding` otherwise).
    pub fn check(&self) -> (r: Result<(), VoleError>)
        ensures
            r is Ok <==> map_coeff_ok(self.a) && map_coeff_ok(self.b) && map_coeff_ok(self.c)
                && map_coeff_ok(self.d) && map_coeff_ok(self.e) && map_coeff_ok(self.f),
            r matches Err(e) ==> e == VoleError::NonCanonicalEncoding,
    {
        let vs = [self.a, self.b, self.c, self.d, self.e, self.f];
        let mut i = 0usize;
        while i < 6
            invariant
                i <= 6,
                vs@ == seq![self.a, self.b, self.c, self.d, self.e, self.f],
                forall|j: int| 0 <= j < i ==> map_coeff_ok(#[trigger] vs@[j]),
            decreases 6 - i,
        {
            let v = vs[i];
            if v < -MAX_AFFINE_COEFF || v > MAX_AFFINE_COEFF {
                return Err(VoleError::NonCanonicalEncoding);
            }
            i = i + 1;
        }
        proof {
            assert(map_coeff_ok(vs@[0]) && map_coeff_ok(vs@[1]) && map_coeff_ok(vs@[2]));
            assert(map_coeff_ok(vs@[3]) && map_coeff_ok(vs@[4]) && map_coeff_ok(vs@[5]));
        }
        Ok(())
    }

    /// Serialized length of one map payload: `tag(1) + shift(1) + 6 ×
    /// coeff(4)`.
    pub fn wire_bytes() -> (r: u64)
        ensures
            r == 26,
    {
        26
    }

    /// The source sample `(su, sv)` of destination `(x, y)`: signed floor
    /// division of each checked affine numerator by the scale; `None` when
    /// an accumulation overflows (never a wrap).
    pub fn source(self, x: i64, y: i64) -> (r: Option<(i64, i64)>)
        ensures
            r == map_source(self, x, y),
    {
        let s = self.shift.scale();
        let nu = affine_row(self.a, x, self.b, y, self.c)?;
        let nv = affine_row(self.d, x, self.e, y, self.f)?;
        Some((floor_div(nu, s), floor_div(nv, s)))
    }

    /// The whole-sample offset `(c/scale, f/scale)` when the map is an exact
    /// pure translation (`a = e = scale`, `b = d = 0`, translations
    /// multiples of the scale); `None` otherwise.
    pub fn as_translation(&self) -> (r: Option<(i64, i64)>)
        ensures
            r == if self.a == shift_scale(self.shift) && self.e == shift_scale(self.shift) && self.b
                == 0 && self.d == 0 && (self.c as int) % (shift_scale(self.shift) as int) == 0 && (self.f as int) % (
            shift_scale(self.shift) as int) == 0 {
                Some(
                    (
                        ((self.c as int) / (shift_scale(self.shift) as int)) as i64,
                        ((self.f as int) / (shift_scale(self.shift) as int)) as i64,
                    ),
                )
            } else {
                None::<(i64, i64)>
            },
    {
        let s = self.shift.scale();
        if self.a != s || self.e != s || self.b != 0 || self.d != 0 {
            return None;
        }
        let rc = self.c.checked_rem_euclid(s).unwrap();
        let rf = self.f.checked_rem_euclid(s).unwrap();
        if rc != 0 || rf != 0 {
            return None;
        }
        Some((floor_div(self.c, s), floor_div(self.f, s)))
    }
}

/// The sample-value tolerance used to judge whether a translation already
/// explains a raster pair: `(max + 1) >> 7` clamped to `1..=8`.
pub fn match_tolerance(depth: BitDepth) -> (r: u32)
    ensures
        r == {
            let t = (depth.max() + 1) / 128;
            if t < 1 {
                1
            } else if t > 8 {
                8
            } else {
                t
            }
        },
{
    let m = depth.max_sample();
    let t = (m + 1) / 128;
    if t < 1 {
        1
    } else if t > 8 {
        8
    } else {
        t
    }
}

} // verus!
