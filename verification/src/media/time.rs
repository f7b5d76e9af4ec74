//! Rational media time.
//!
//! Media timestamps are exact rational values, never floating point. A
//! [`TimeBase`] declares the duration of one tick as `numerator /
//! denominator` seconds; [`Pts`] and [`Duration`] carry their time base and
//! support checked exact rescaling, cross-base comparison and checked
//! addition: every computation either succeeds exactly or returns a typed
//! error.

use core::cmp::Ordering;

use vstd::arithmetic::div_mod::*;
use vstd::arithmetic::mul::*;
use vstd::prelude::*;

use crate::error::VoleError;

verus! {

/// The declared duration of one tick: `numerator / denominator` seconds.
/// Both parts are nonzero (enforced by [`TimeBase::new`]).
#[derive(Debug, Clone, Copy, PartialEq, Eq, Structural)]
pub struct TimeBase {
    numerator: u32,
    denominator: u32,
}

impl TimeBase {
    #[verifier::type_invariant]
    spec fn inv(self) -> bool {
        self.numerator > 0 && self.denominator > 0
    }

    /// Seconds-per-tick numerator (model).
    pub closed spec fn n(self) -> u32 {
        self.numerator
    }

    /// Seconds-per-tick denominator (model).
    pub closed spec fn d(self) -> u32 {
        self.denominator
    }

    /// Build a time base of `numerator / denominator` seconds per tick.
    pub fn new(numerator: u32, denominator: u32) -> (r: Result<Self, VoleError>)
        ensures
            r is Ok <==> numerator > 0 && denominator > 0,
            r matches Ok(tb) ==> tb.n() == numerator && tb.d() == denominator,
            r matches Err(e) ==> e == VoleError::InvalidTimeBase,
    {
        if numerator == 0 || denominator == 0 {
            return Err(VoleError::InvalidTimeBase);
        }
        Ok(TimeBase { numerator, denominator })
    }

    /// One tick per second.
    pub fn whole_seconds() -> (r: Self)
        ensures
            r.n() == 1 && r.d() == 1,
    {
        TimeBase { numerator: 1, denominator: 1 }
    }

    /// The time base of a constant frame rate `fps_numerator /
    /// fps_denominator` frames per second, one tick per frame.
    pub fn for_frame_rate(fps_numerator: u32, fps_denominator: u32) -> (r: Result<
        Self,
        VoleError,
    >)
        ensures
            r is Ok <==> fps_numerator > 0 && fps_denominator > 0,
            r matches Ok(tb) ==> tb.n() == fps_denominator && tb.d() == fps_numerator,
            r matches Err(e) ==> e == VoleError::InvalidTimeBase,
    {
        Self::new(fps_denominator, fps_numerator)
    }

    /// The time base of `ticks` ticks per second: `(1, ticks)`.
    pub fn ticks_per_second(ticks: u32) -> (r: Result<Self, VoleError>)
        ensures
            r is Ok <==> ticks > 0,
            r matches Ok(tb) ==> tb.n() == 1 && tb.d() == ticks,
            r matches Err(e) ==> e == VoleError::InvalidTimeBase,
    {
        Self::new(1, ticks)
    }

    /// Seconds-per-tick numerator.
    pub fn numerator(&self) -> (r: u32)
        ensures
            r == self.n(),
            r > 0,
    {
        proof {
            use_type_invariant(self);
        }
        self.numerator
    }

    /// Seconds-per-tick denominator.
    pub fn denominator(&self) -> (r: u32)
        ensures
            r == self.d(),
            r > 0,
    {
        proof {
            use_type_invariant(self);
        }
        self.denominator
    }

    /// Exact ticks per second (`denominator / numerator`), or
    /// `TimeNotRepresentable` when the numerator does not divide the
    /// denominator.
    pub fn ticks_per_second_exact(&self) -> (r: Result<u64, VoleError>)
        ensures
            r is Ok <==> self.d() % self.n() == 0,
            r matches Ok(t) ==> t * self.n() == self.d(),
            r matches Err(e) ==> e == VoleError::TimeNotRepresentable,
    {
        proof {
            use_type_invariant(self);
        }
        if self.denominator % self.numerator != 0 {
            return Err(VoleError::TimeNotRepresentable);
        }
        let t = self.denominator / self.numerator;
        proof {
            lemma_fundamental_div_mod(self.denominator as int, self.numerator as int);
            lemma_mul_is_commutative(t as int, self.numerator as int);
        }
        Ok(t as u64)
    }

    /// Scale a tick count from this base to `other` exactly. The result must
    /// be an integer tick count at `other` that fits `i64`; otherwise
    /// `TimeNotRepresentable`.
    pub fn rescale_ticks(&self, value: i64, other: &TimeBase) -> (r: Result<i64, VoleError>)
        ensures
            r matches Ok(out) ==> rescales_to(value as int, *self, *other, out as int),
            r matches Err(e) ==> e == VoleError::TimeNotRepresentable && forall|out: i64|
                !rescales_to(value as int, *self, *other, out as int),
    {
        proof {
            use_type_invariant(self);
            use_type_invariant(other);
        }
        let sn = self.numerator as u128;
        let sd = self.denominator as u128;
        let on = other.numerator as u128;
        let od = other.denominator as u128;
        if *self == *other {
            proof {
                assert(value as int * (sn * od) == value as int * (sd * on)) by {
                    lemma_mul_is_commutative(sn as int, od as int);
                }
            }
            return Ok(value);
        }
        let neg = value < 0;
        let mag: u128 = if neg {
            (-(value as i128)) as u128
        } else {
            value as u128
        };
        assert(mag <= 0x8000_0000_0000_0000);
        proof {
            lemma_mul_upper_bound(sn as int, 0xffff_ffff, od as int, 0xffff_ffff);
            assert(0xffff_ffffint * 0xffff_ffffint < 0x1_0000_0000_0000_0000int);
            lemma_mul_upper_bound(sd as int, 0xffff_ffff, on as int, 0xffff_ffff);
        }
        let scale = sn * od;
        proof {
            lemma_mul_upper_bound(
                mag as int,
                0x8000_0000_0000_0000,
                scale as int,
                0xffff_ffff_ffff_ffff,
            );
            assert(0x8000_0000_0000_0000int * 0xffff_ffff_ffff_ffffint
                < 0x1_0000_0000_0000_0000_0000_0000_0000_0000int);
        }
        let num = mag * scale;
        let den = sd * on;
        proof {
            lemma_mul_strictly_positive(sd as int, on as int);
        }
        if num % den != 0 {
            proof {
                assert forall|out: i64| !rescales_to(value as int, *self, *other, out as int) by {
                    if rescales_to(value as int, *self, *other, out as int) {
                        lemma_signed_product_divisible(
                            value as int,
                            mag as int,
                            scale as int,
                            den as int,
                            out as int,
                        );
                    }
                }
            }
            return Err(VoleError::TimeNotRepresentable);
        }
        let q = num / den;
        proof {
            lemma_fundamental_div_mod(num as int, den as int);
            lemma_mul_is_commutative(den as int, q as int);
        }
        if !neg {
            if q > 0x7fff_ffff_ffff_ffffu128 {
                proof {
                    assert forall|out: i64|
                        !rescales_to(value as int, *self, *other, out as int) by {
                        if rescales_to(value as int, *self, *other, out as int) {
                            lemma_unique_quotient(num as int, den as int, out as int);
                        }
                    }
                }
                return Err(VoleError::TimeNotRepresentable);
            }
            let out = q as i64;
            proof {
                assert(rescales_to(value as int, *self, *other, out as int));
            }
            Ok(out)
        } else {
            if q > 0x8000_0000_0000_0000u128 {
                proof {
                    assert forall|out: i64|
                        !rescales_to(value as int, *self, *other, out as int) by {
                        if rescales_to(value as int, *self, *other, out as int) {
                            lemma_mul_unary_negation(out as int, den as int);
                            lemma_mul_unary_negation(mag as int, scale as int);
                            lemma_unique_quotient(num as int, den as int, -out);
                        }
                    }
                }
                return Err(VoleError::TimeNotRepresentable);
            }
            let out = (-(q as i128)) as i64;
            proof {
                lemma_mul_unary_negation(q as int, den as int);
                lemma_mul_unary_negation(mag as int, scale as int);
                assert(rescales_to(value as int, *self, *other, out as int));
            }
            Ok(out)
        }
    }
}

/// `out` ticks at `to` name exactly the instant of `value` ticks at `from`:
/// `out · (from.d · to.n) == value · (from.n · to.d)`.
pub open spec fn rescales_to(value: int, from: TimeBase, to: TimeBase, out: int) -> bool {
    out * (from.d() * to.n()) == value * (from.n() * to.d())
}

/// A product `k · den == ±(mag · scale)` makes `mag · scale` divisible by
/// `den`.
proof fn lemma_signed_product_divisible(value: int, mag: int, scale: int, den: int, out: int)
    requires
        den > 0,
        mag == if value < 0 {
            -value
        } else {
            value
        },
        out * den == value * scale,
    ensures
        (mag * scale) % den == 0,
{
    if value < 0 {
        lemma_mul_unary_negation(value, scale);
        lemma_mul_unary_negation(out, den);
        lemma_mul_is_commutative(-out, den);
        lemma_mod_multiples_basic(-out, den);
    } else {
        lemma_mul_is_commutative(out, den);
        lemma_mod_multiples_basic(out, den);
    }
}

/// When `den` divides `num` exactly, `num / den` is the only integer `k` with
/// `k · den == num`.
proof fn lemma_unique_quotient(num: int, den: int, k: int)
    requires
        den > 0,
        k * den == num,
    ensures
        num / den == k,
{
    lemma_mul_is_commutative(k, den);
    lemma_fundamental_div_mod_converse_div(num, den, k, 0);
}

/// Cross product of `a`'s instant against `b`'s base: `a.value · a.n · b.d`.
/// Comparing `cross(a, b)` with `cross(b, a)` orders two rational instants.
pub open spec fn cross(value: i64, own: TimeBase, against: TimeBase) -> int {
    value * own.n() * against.d()
}

/// Exact `i128` cross product (`value · own.n · against.d`); never overflows
/// since `|value| ≤ 2^63` and each base part is below `2^32`.
fn cross_exact(value: i64, own: &TimeBase, against: &TimeBase) -> (r: i128)
    ensures
        r == cross(value, *own, *against),
{
    let a = value as i128;
    let n = own.numerator as i128;
    let d = against.denominator as i128;
    proof {
        assert(-0x8000_0000_0000_0000 <= a <= 0x7fff_ffff_ffff_ffff);
        assert(-0x8000_0000_0000_0000_0000_0000 <= a * n <= 0x7fff_ffff_ffff_ffff_ffff_ffff)
            by (nonlinear_arith)
            requires
                -0x8000_0000_0000_0000 <= a <= 0x7fff_ffff_ffff_ffff,
                0 <= n <= 0xffff_ffff,
        ;
        assert(-0x8000_0000_0000_0000_0000_0000_0000_0000 <= (a * n) * d
            <= 0x7fff_ffff_ffff_ffff_ffff_ffff_ffff_ffff) by (nonlinear_arith)
            requires
                -0x8000_0000_0000_0000_0000_0000 <= a * n <= 0x7fff_ffff_ffff_ffff_ffff_ffff,
                0 <= d <= 0xffff_ffff,
        ;
    }
    a * n * d
}

/// An absolute presentation timestamp: a signed tick count at a declared
/// [`TimeBase`].
#[derive(Debug, Clone, Copy, PartialEq, Eq, Structural)]
pub struct Pts {
    value: i64,
    time_base: TimeBase,
}

impl Pts {
    /// Tick value (model).
    pub closed spec fn v(self) -> i64 {
        self.value
    }

    /// Time base (model).
    pub closed spec fn tb(self) -> TimeBase {
        self.time_base
    }

    /// A timestamp of `value` ticks at `time_base`.
    pub fn new(value: i64, time_base: TimeBase) -> (r: Self)
        ensures
            r.v() == value && r.tb() == time_base,
    {
        Pts { value, time_base }
    }

    /// Tick value.
    pub fn value(&self) -> (r: i64)
        ensures
            r == self.v(),
    {
        self.value
    }

    /// Time base.
    pub fn time_base(&self) -> (r: TimeBase)
        ensures
            r == self.tb(),
    {
        self.time_base
    }

    /// Exact rescale to `target`; fails typed when the instant is not an
    /// integer tick count at `target` that fits `i64`.
    pub fn rescale(&self, target: TimeBase) -> (r: Result<Pts, VoleError>)
        ensures
            r matches Ok(p) ==> p.tb() == target && rescales_to(
                self.v() as int,
                self.tb(),
                target,
                p.v() as int,
            ),
            r matches Err(e) ==> e == VoleError::TimeNotRepresentable && forall|out: i64|
                !rescales_to(self.v() as int, self.tb(), target, out as int),
    {
        let value = self.time_base.rescale_ticks(self.value, &target)?;
        Ok(Pts { value, time_base: target })
    }

    /// Exact ordering against another timestamp on a possibly different time
    /// base.
    pub fn cmp_pts(&self, other: &Pts) -> (r: Result<Ordering, VoleError>)
        ensures
            r matches Ok(o) && (o == Ordering::Less <==> cross(self.v(), self.tb(), other.tb())
                < cross(other.v(), other.tb(), self.tb())) && (o == Ordering::Equal <==> cross(
                self.v(),
                self.tb(),
                other.tb(),
            ) == cross(other.v(), other.tb(), self.tb())) && (o == Ordering::Greater <==> cross(
                self.v(),
                self.tb(),
                other.tb(),
            ) > cross(other.v(), other.tb(), self.tb())),
    {
        let a = cross_exact(self.value, &self.time_base, &other.time_base);
        let b = cross_exact(other.value, &other.time_base, &self.time_base);
        if a < b {
            Ok(Ordering::Less)
        } else if a == b {
            Ok(Ordering::Equal)
        } else {
            Ok(Ordering::Greater)
        }
    }

    /// Whether two timestamps name the same instant (exact).
    pub fn same_instant(&self, other: &Pts) -> (r: Result<bool, VoleError>)
        ensures
            r matches Ok(b) && (b <==> cross(self.v(), self.tb(), other.tb()) == cross(
                other.v(),
                other.tb(),
                self.tb(),
            )),
    {
        let a = cross_exact(self.value, &self.time_base, &other.time_base);
        let b = cross_exact(other.value, &other.time_base, &self.time_base);
        Ok(a == b)
    }

    /// `self + duration` on the same time base (checked).
    pub fn checked_add(&self, duration: Duration) -> (r: Result<Pts, VoleError>)
        ensures
            r is Ok <==> duration.tb() == self.tb() && i64::MIN <= self.v() + duration.v()
                <= i64::MAX,
            r matches Ok(p) ==> p.tb() == self.tb() && p.v() == self.v() + duration.v(),
            r matches Err(e) ==> e == VoleError::TimeNotRepresentable,
    {
        if duration.time_base != self.time_base {
            return Err(VoleError::TimeNotRepresentable);
        }
        match self.value.checked_add(duration.value) {
            Some(value) => Ok(Pts { value, time_base: self.time_base }),
            None => Err(VoleError::TimeNotRepresentable),
        }
    }

    /// `self - other` as a positive [`Duration`] on `self`'s base: `other`
    /// is first rescaled exactly to `self`'s base, and the difference must be
    /// at least one tick.
    pub fn checked_span_from(&self, other: &Pts) -> (r: Result<Duration, VoleError>)
        ensures
            r matches Ok(d) ==> d.tb() == self.tb() && exists|o: i64|
                rescales_to(other.v() as int, other.tb(), self.tb(), o as int) && d.v()
                    == self.v() - o,
            r is Err ==> r == Err::<Duration, VoleError>(VoleError::TimeNotRepresentable),
            (forall|o: i64| !rescales_to(other.v() as int, other.tb(), self.tb(), o as int))
                ==> r is Err,
            forall|o: i64|
                rescales_to(other.v() as int, other.tb(), self.tb(), o as int) ==> (r is Ok
                    <==> 1 <= self.v() - o <= i64::MAX),
    {
        let lhs = other.rescale(self.time_base)?;
        proof {
            use_type_invariant(&self.time_base);
            use_type_invariant(&other.time_base);
            assert(rescales_to(other.v() as int, other.tb(), self.tb(), lhs.v() as int));
            assert forall|o: i64|
                rescales_to(other.v() as int, other.tb(), self.tb(), o as int) implies o
                == lhs.v() by {
                lemma_rescale_unique(other.v() as int, other.tb(), self.tb(), o as int, lhs.v() as int);
            }
        }
        let ticks = match self.value.checked_sub(lhs.value) {
            Some(t) => t,
            None => return Err(VoleError::TimeNotRepresentable),
        };
        Duration::new(ticks, self.time_base)
    }
}

/// Two exact rescales of the same instant to the same base agree.
pub proof fn lemma_rescale_unique(value: int, from: TimeBase, to: TimeBase, o1: int, o2: int)
    requires
        from.n() > 0 && from.d() > 0 && to.n() > 0 && to.d() > 0,
        rescales_to(value, from, to, o1),
        rescales_to(value, from, to, o2),
    ensures
        o1 == o2,
{
    let den = from.d() * to.n();
    lemma_mul_strictly_positive(from.d() as int, to.n() as int);
    lemma_mul_equality_converse(den, o1, o2);
    lemma_mul_is_commutative(o1, den);
    lemma_mul_is_commutative(o2, den);
}

/// A positive span of time: `value ≥ 1` ticks at a declared [`TimeBase`].
#[derive(Debug, Clone, Copy, PartialEq, Eq, Structural)]
pub struct Duration {
    value: i64,
    time_base: TimeBase,
}

impl Duration {
    #[verifier::type_invariant]
    spec fn inv(self) -> bool {
        self.value >= 1
    }

    /// Tick value (model).
    pub closed spec fn v(self) -> i64 {
        self.value
    }

    /// Time base (model).
    pub closed spec fn tb(self) -> TimeBase {
        self.time_base
    }

    /// A duration of `value ≥ 1` ticks at `time_base`.
    pub fn new(value: i64, time_base: TimeBase) -> (r: Result<Self, VoleError>)
        ensures
            r is Ok <==> value >= 1,
            r matches Ok(d) ==> d.v() == value && d.tb() == time_base,
            r matches Err(e) ==> e == VoleError::TimeNotRepresentable,
    {
        if value <= 0 {
            return Err(VoleError::TimeNotRepresentable);
        }
        Ok(Duration { value, time_base })
    }

    /// Tick value (always ≥ 1).
    pub fn value(&self) -> (r: i64)
        ensures
            r == self.v(),
            r >= 1,
    {
        proof {
            use_type_invariant(self);
        }
        self.value
    }

    /// Time base.
    pub fn time_base(&self) -> (r: TimeBase)
        ensures
            r == self.tb(),
    {
        self.time_base
    }

    /// Exact rescale to `target` (same rule as [`Pts::rescale`]); the result
    /// must still be at least one tick.
    pub fn rescale(&self, target: TimeBase) -> (r: Result<Duration, VoleError>)
        ensures
            r matches Ok(d) ==> d.tb() == target && rescales_to(
                self.v() as int,
                self.tb(),
                target,
                d.v() as int,
            ),
            r is Err ==> r == Err::<Duration, VoleError>(VoleError::TimeNotRepresentable),
            r is Err ==> forall|out: i64|
                #![trigger rescales_to(self.v() as int, self.tb(), target, out as int)]
                rescales_to(self.v() as int, self.tb(), target, out as int) ==> out < 1,
    {
        let value = self.time_base.rescale_ticks(self.value, &target)?;
        proof {
            use_type_invariant(&self.time_base);
            use_type_invariant(&target);
            assert forall|out: i64|
                rescales_to(self.v() as int, self.tb(), target, out as int) implies out
                == value by {
                lemma_rescale_unique(self.v() as int, self.tb(), target, out as int, value as int);
            }
        }
        Duration::new(value, target)
    }

    /// The duration of one frame at the constant frame rate `fps_numerator /
    /// fps_denominator`, expressed exactly at `at`.
    pub fn of_constant_frame_rate(fps_numerator: u32, fps_denominator: u32, at: TimeBase) -> (r:
        Result<Duration, VoleError>)
        ensures
            fps_numerator == 0 || fps_denominator == 0 ==> r == Err::<Duration, VoleError>(
                VoleError::InvalidTimeBase,
            ),
            r matches Ok(d) ==> d.tb() == at && d.v() * (fps_numerator * at.n()) == fps_denominator
                * at.d(),
            fps_numerator > 0 && fps_denominator > 0 ==> (r is Err ==> r == Err::<
                Duration,
                VoleError,
            >(VoleError::TimeNotRepresentable)),
    {
        let tb = TimeBase::for_frame_rate(fps_numerator, fps_denominator)?;
        let one = Duration::new(1, tb)?;
        let r = one.rescale(at);
        proof {
            if let Ok(d) = r {
                assert(d.v() * (tb.d() * at.n()) == 1 * (tb.n() * at.d()));
            }
        }
        r
    }

    /// Exact ordering of two durations, possibly on different bases.
    pub fn cmp_duration(&self, other: &Duration) -> (r: Result<Ordering, VoleError>)
        ensures
            r matches Ok(o) && (o == Ordering::Less <==> cross(self.v(), self.tb(), other.tb())
                < cross(other.v(), other.tb(), self.tb())) && (o == Ordering::Equal <==> cross(
                self.v(),
                self.tb(),
                other.tb(),
            ) == cross(other.v(), other.tb(), self.tb())) && (o == Ordering::Greater <==> cross(
                self.v(),
                self.tb(),
                other.tb(),
            ) > cross(other.v(), other.tb(), self.tb())),
    {
        let a = cross_exact(self.value, &self.time_base, &other.time_base);
        let b = cross_exact(other.value, &other.time_base, &self.time_base);
        if a < b {
            Ok(Ordering::Less)
        } else if a == b {
            Ok(Ordering::Equal)
        } else {
            Ok(Ordering::Greater)
        }
    }
}

} // verus!
