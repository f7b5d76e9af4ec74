use core::cmp::Ordering;
use vole::error::VoleError;
use vole::media::time::{Duration, Pts, TimeBase};

#[test]
fn rescale_math_is_hand_exact() {
    let t25 = TimeBase::for_frame_rate(25, 1).unwrap();
    assert_eq!((t25.numerator(), t25.denominator()), (1, 25));
    assert_eq!(t25.ticks_per_second_exact().unwrap(), 25);
    let t24000_1001 = TimeBase::for_frame_rate(24000, 1001).unwrap();
    assert_eq!(
        (t24000_1001.numerator(), t24000_1001.denominator()),
        (1001, 24000)
    );
    let p = Pts::new(2400, t24000_1001);
    assert!(matches!(
        p.rescale(TimeBase::whole_seconds()),
        Err(VoleError::TimeNotRepresentable)
    ));
    let t1_10 = TimeBase::new(1, 10).unwrap();
    assert_eq!(p.rescale(t1_10).unwrap().value(), 1001);
    let t50 = TimeBase::for_frame_rate(50, 1).unwrap();
    let p = Pts::new(1, t25);
    assert_eq!(p.rescale(t50).unwrap().value(), 2);
    let n = Pts::new(-25, t25);
    assert_eq!(n.rescale(t50).unwrap().value(), -50);
}

#[test]
fn ordering_is_exact_across_bases() {
    let t25 = TimeBase::for_frame_rate(25, 1).unwrap();
    let t24000_1001 = TimeBase::for_frame_rate(24000, 1001).unwrap();
    let t50 = TimeBase::for_frame_rate(50, 1).unwrap();
    let s1_25 = Pts::new(25, t25);
    let s1_50 = Pts::new(50, t50);
    assert_eq!(s1_25.cmp_pts(&s1_50).unwrap(), Ordering::Equal);
    assert!(s1_25.same_instant(&s1_50).unwrap());
    let f = Pts::new(24000, t24000_1001);
    let one_s = Pts::new(1001, TimeBase::whole_seconds());
    assert_eq!(f.cmp_pts(&one_s).unwrap(), Ordering::Equal);
    let a = Pts::new(23, t24000_1001);
    let b = Pts::new(24, t25);
    assert_eq!(a.cmp_pts(&b).unwrap(), Ordering::Less);
}

#[test]
fn durations_are_positive_and_checked() {
    let t30 = TimeBase::for_frame_rate(30000, 1001).unwrap();
    assert_eq!((t30.numerator(), t30.denominator()), (1001, 30000));
    assert!(matches!(
        Duration::new(0, t30),
        Err(VoleError::TimeNotRepresentable)
    ));
    assert!(matches!(
        Duration::new(-1, t30),
        Err(VoleError::TimeNotRepresentable)
    ));
    let d = Duration::new(1, t30).unwrap();
    let p = Pts::new(-1001, t30);
    let next = p.checked_add(d).unwrap();
    assert_eq!(next.value(), -1000);
    let max = Pts::new(i64::MAX, TimeBase::whole_seconds());
    assert!(matches!(
        max.checked_add(Duration::new(1, TimeBase::whole_seconds()).unwrap()),
        Err(VoleError::TimeNotRepresentable)
    ));
}

#[test]
fn degenerate_time_bases_are_typed() {
    assert!(matches!(TimeBase::new(0, 25), Err(VoleError::InvalidTimeBase)));
    assert!(matches!(TimeBase::new(1, 0), Err(VoleError::InvalidTimeBase)));
    assert!(matches!(
        TimeBase::for_frame_rate(0, 1),
        Err(VoleError::InvalidTimeBase)
    ));
    assert!(matches!(
        TimeBase::ticks_per_second(0),
        Err(VoleError::InvalidTimeBase)
    ));
}

#[test]
fn long_and_fractional_timelines_stay_exact() {
    let t30k = TimeBase::ticks_per_second(30_000).unwrap();
    let p = Pts::new(0, t30k);
    let two_h = Duration::new(216_000 * 30_000, t30k).unwrap();
    assert_eq!(p.checked_add(two_h).unwrap().value(), 6_480_000_000);
    let p = Pts::new(i64::MAX - 1, t30k);
    assert!(matches!(
        p.checked_add(Duration::new(2, t30k).unwrap()),
        Err(VoleError::TimeNotRepresentable)
    ));
}

#[test]
fn spans_and_duration_rescales() {
    let t25 = TimeBase::for_frame_rate(25, 1).unwrap();
    let t50 = TimeBase::for_frame_rate(50, 1).unwrap();
    let a = Pts::new(10, t25);
    let b = Pts::new(10, t50);
    let span = a.checked_span_from(&b).unwrap();
    assert_eq!(span.value(), 5);
    assert_eq!(span.time_base(), t25);
    assert!(b.checked_span_from(&b).is_err());
    let d = Duration::of_constant_frame_rate(25, 1, t50).unwrap();
    assert_eq!(d.value(), 2);
    assert_eq!(
        Duration::of_constant_frame_rate(0, 1, t50).unwrap_err(),
        VoleError::InvalidTimeBase
    );
    let d1 = Duration::new(1, t25).unwrap();
    let d2 = Duration::new(1, t50).unwrap();
    assert_eq!(d1.cmp_duration(&d2).unwrap(), Ordering::Greater);
    assert_eq!(
        TimeBase::new(3, 10).unwrap().ticks_per_second_exact().unwrap_err(),
        VoleError::TimeNotRepresentable
    );
    // Extreme values rescale without overflow.
    let big = Pts::new(i64::MIN, TimeBase::new(u32::MAX, 1).unwrap());
    assert!(big.rescale(TimeBase::new(1, u32::MAX).unwrap()).is_err());
}
