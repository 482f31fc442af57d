use dh_vmm::vt::ClockRatio;

struct XorShift(u64);
impl XorShift {
    fn next(&mut self) -> u64 {
        let mut x = self.0;
        x ^= x << 13;
        x ^= x >> 7;
        x ^= x << 17;
        self.0 = x;
        x
    }
}

const CASES: usize = 20_000;

fn small_term(rng: &mut XorShift) -> u32 {
    (1 + rng.next() % 1000) as u32
}

#[test]
fn default_is_one_to_one() {
    let r = ClockRatio::default();
    assert_eq!((r.num(), r.den()), (1, 1));
    assert_eq!(r.vns_from_icount(u64::MAX), Some(u64::MAX));
    assert_eq!(r.icount_for_vns_target(u64::MAX), Some(u64::MAX));
}

#[test]
fn zero_terms_rejected() {
    assert_eq!(ClockRatio::new(0, 1), None);
    assert_eq!(ClockRatio::new(1, 0), None);
    assert_eq!(ClockRatio::new(0, 0), None);
}

#[test]
fn truncation_matches_spec_examples() {
    let third = ClockRatio::new(1, 3).unwrap();
    assert_eq!(third.vns_from_icount(8), Some(2));
    assert_eq!(third.icount_for_vns_target(2), Some(6));
    assert_eq!(third.icount_for_vns_target(3), Some(9));
    let two_thirds = ClockRatio::new(2, 3).unwrap();
    assert_eq!(two_thirds.icount_for_vns_target(1), Some(2));
}

#[test]
fn vns_overflow_is_reported_not_saturated() {
    let doubling = ClockRatio::new(2, 1).unwrap();
    assert_eq!(doubling.vns_from_icount(u64::MAX), None);
    assert_eq!(doubling.vns_from_icount(u64::MAX / 2), Some(u64::MAX - 1));
    let halving = ClockRatio::new(1, 2).unwrap();
    assert_eq!(halving.icount_for_vns_target(u64::MAX), None);
}

#[test]
fn prop_monotone_in_icount() {
    let mut rng = XorShift(0x9E3779B97F4A7C15);
    for _ in 0..CASES {
        let num = small_term(&mut rng);
        let den = small_term(&mut rng);
        let r = ClockRatio::new(num, den).unwrap();
        let i = rng.next();
        let (Some(a), Some(b)) = (r.vns_from_icount(i), r.vns_from_icount(i.saturating_add(1)))
        else {
            continue;
        };
        assert!(a <= b, "vns not monotone: ratio={r:?} icount={i}");
    }
}

#[test]
fn prop_timer_target_is_minimal_reaching_icount() {
    let mut rng = XorShift(0xD1B54A32D192ED03);
    for _ in 0..CASES {
        let num = small_term(&mut rng);
        let den = small_term(&mut rng);
        let r = ClockRatio::new(num, den).unwrap();
        let t = rng.next() % (1 << 48);
        let Some(j) = r.icount_for_vns_target(t) else {
            continue;
        };
        let reached = r
            .vns_from_icount(j)
            .expect("vns(j) overflows only if t did");
        assert!(
            reached >= t,
            "vns(target icount) < T: ratio={r:?} T={t} j={j}"
        );
        if j > 0 {
            let before = r.vns_from_icount(j - 1).unwrap();
            assert!(
                before < t,
                "target icount not minimal: ratio={r:?} T={t} j={j}"
            );
        }
    }
}

#[test]
fn prop_roundtrip_identity_on_exact_boundaries() {
    let mut rng = XorShift(0xA0761D6478BD642F);
    for _ in 0..CASES {
        let num = small_term(&mut rng);
        let den = small_term(&mut rng);
        let r = ClockRatio::new(num, den).unwrap();
        let i = rng.next() % (1 << 48);
        let vns = r.vns_from_icount(i).unwrap();
        let Some(back) = r.icount_for_vns_target(vns) else {
            continue;
        };
        assert!(
            back <= i,
            "roundtrip overshot: ratio={r:?} i={i} back={back}"
        );
        if (u128::from(i) * u128::from(r.num())) % u128::from(r.den()) == 0 {
            assert_eq!(back, i, "exact boundary must roundtrip: ratio={r:?} i={i}");
        }
    }
}

#[test]
fn one_to_one_clock_is_the_identity() {
    let r = ClockRatio::one_to_one();
    assert_eq!(r.vns_from_icount(12345), Some(12345));
    assert_eq!(r.icount_for_vns_target(777), Some(777));
}

#[test]
fn ceil_rule_on_a_three_halves_clock() {
    let r = ClockRatio::new(3, 2).unwrap();
    assert_eq!(r.vns_from_icount(5), Some(7));
    assert_eq!(r.icount_for_vns_target(7), Some(5));
    assert_eq!(r.icount_for_vns_target(8), Some(6));
}
