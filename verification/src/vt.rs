//! Virtual time: vns is a pure function of icount through a fixed rational
//! clock `num / den` (virtual nanoseconds per retired instruction).

use vstd::prelude::*;

verus! {

/// `icount * num / den`, truncating.
pub open spec fn vns_of(num: int, den: int, icount: int) -> int {
    icount * num / den
}

/// `ceil(target * den / num)`: the smallest icount whose vns reaches `target`.
pub open spec fn icount_for_target(num: int, den: int, target: int) -> int {
    (target * den + num - 1) / num
}

/// The per-VM clock rational. Both terms are nonzero.
#[derive(Clone, Copy, Debug, PartialEq, Eq)]
pub struct ClockRatio {
    num: u32,
    den: u32,
}

impl ClockRatio {
    #[verifier::type_invariant]
    spec fn nonzero_terms(self) -> bool {
        self.num != 0 && self.den != 0
    }

    /// The numerator.
    pub closed spec fn num_spec(self) -> nat {
        self.num as nat
    }

    /// The denominator.
    pub closed spec fn den_spec(self) -> nat {
        self.den as nat
    }

    /// vns of `icount` under this clock, as an integer.
    pub open spec fn spec_vns(self, icount: int) -> int {
        vns_of(self.num_spec() as int, self.den_spec() as int, icount)
    }

    /// Target icount of `target` vns under this clock, as an integer.
    pub open spec fn spec_target(self, target: int) -> int {
        icount_for_target(self.num_spec() as int, self.den_spec() as int, target)
    }

    /// The clock `num / den`; `None` if either term is zero.
    pub fn new(num: u32, den: u32) -> (r: Option<ClockRatio>)
        ensures
            (num != 0 && den != 0) <==> r is Some,
            r matches Some(c) ==> c.num_spec() == num && c.den_spec() == den,
    {
        if num != 0 && den != 0 {
            Some(ClockRatio { num, den })
        } else {
            None
        }
    }

    /// The 1:1 clock: one virtual nanosecond per instruction.
    pub fn one_to_one() -> (r: ClockRatio)
        ensures
            r.num_spec() == 1 && r.den_spec() == 1,
    {
        ClockRatio { num: 1, den: 1 }
    }

    pub fn num(self) -> (r: u32)
        ensures
            r == self.num_spec(),
            r > 0,
    {
        proof {
            use_type_invariant(&self);
        }
        self.num
    }

    pub fn den(self) -> (r: u32)
        ensures
            r == self.den_spec(),
            r > 0,
    {
        proof {
            use_type_invariant(&self);
        }
        self.den
    }

    /// `vns = icount * num / den`, truncating; `None` when the result does
    /// not fit in u64 (an overflow is reported, never saturated).
    pub fn vns_from_icount(self, icount: u64) -> (r: Option<u64>)
        ensures
            self.num_spec() > 0 && self.den_spec() > 0,
            self.spec_vns(icount as int) <= u64::MAX ==> r == Some(
                self.spec_vns(icount as int) as u64,
            ),
            self.spec_vns(icount as int) > u64::MAX ==> r is None,
    {
        proof {
            use_type_invariant(&self);
        }
        let num = self.num as u128;
        let den = self.den as u128;
        let i = icount as u128;
        assert(i * num <= 0xffff_ffff_ffff_ffff_u128 * 0xffff_ffff_u128) by (nonlinear_arith)
            requires
                i <= 0xffff_ffff_ffff_ffff_u128,
                num <= 0xffff_ffff_u128,
        ;
        let p = i * num;
        let q = p / den;
        if q <= u64::MAX as u128 {
            Some(q as u64)
        } else {
            None
        }
    }

    /// Timer conversion: `ceil(target_vns * den / num)`, the smallest icount
    /// whose vns reaches `target_vns`; `None` when it does not fit in u64.
    pub fn icount_for_vns_target(self, target_vns: u64) -> (r: Option<u64>)
        ensures
            self.num_spec() > 0 && self.den_spec() > 0,
            self.spec_target(target_vns as int) <= u64::MAX ==> r == Some(
                self.spec_target(target_vns as int) as u64,
            ),
            self.spec_target(target_vns as int) > u64::MAX ==> r is None,
    {
        proof {
            use_type_invariant(&self);
        }
        let num = self.num as u128;
        let den = self.den as u128;
        let t = target_vns as u128;
        assert(t * den <= 0xffff_ffff_ffff_ffff_u128 * 0xffff_ffff_u128) by (nonlinear_arith)
            requires
                t <= 0xffff_ffff_ffff_ffff_u128,
                den <= 0xffff_ffff_u128,
        ;
        let p = t * den + (num - 1);
        let q = p / num;
        if q <= u64::MAX as u128 {
            Some(q as u64)
        } else {
            None
        }
    }
}

impl Default for ClockRatio {
    fn default() -> (r: ClockRatio)
        ensures
            r.num_spec() == 1 && r.den_spec() == 1,
    {
        ClockRatio { num: 1, den: 1 }
    }
}

/// vns never decreases as icount grows.
pub proof fn lemma_vns_monotone(num: int, den: int, a: int, b: int)
    requires
        num > 0,
        den > 0,
        0 <= a <= b,
    ensures
        vns_of(num, den, a) <= vns_of(num, den, b),
{
    assert(a * num <= b * num) by (nonlinear_arith)
        requires
            0 <= a <= b,
            num > 0,
    ;
    vstd::arithmetic::div_mod::lemma_div_is_ordered(a * num, b * num, den);
}

/// The timer target is the minimal icount whose vns reaches the target:
/// its vns reaches `target`, and the icount before it falls short.
pub proof fn lemma_target_is_minimal_reaching(num: int, den: int, target: int)
    requires
        num > 0,
        den > 0,
        target >= 0,
    ensures
        icount_for_target(num, den, target) >= 0,
        vns_of(num, den, icount_for_target(num, den, target)) >= target,
        icount_for_target(num, den, target) > 0 ==> vns_of(
            num,
            den,
            icount_for_target(num, den, target) - 1,
        ) < target,
{
    let j = icount_for_target(num, den, target);
    let n = target * den + num - 1;
    assert(n >= 0) by (nonlinear_arith)
        requires
            target >= 0,
            den > 0,
            num > 0,
            n == target * den + num - 1,
    ;
    vstd::arithmetic::div_mod::lemma_fundamental_div_mod(n, num);
    let rem = n % num;
    assert(0 <= rem < num) by {
        vstd::arithmetic::div_mod::lemma_mod_bound(n, num);
    }
    assert(j >= 0) by {
        vstd::arithmetic::div_mod::lemma_div_pos_is_pos(n, num);
    }
    // j * num == n - rem, so target * den <= j * num < target * den + num.
    assert(num * j == n - rem);
    assert(j * num >= target * den) by (nonlinear_arith)
        requires
            num * j == n - rem,
            n == target * den + num - 1,
            rem < num,
    ;
    assert(j * num / den >= target) by {
        vstd::arithmetic::div_mod::lemma_div_is_ordered(target * den, j * num, den);
        vstd::arithmetic::div_mod::lemma_div_multiples_vanish(target, den);
        assert(target * den == den * target) by (nonlinear_arith);
    }
    if j > 0 {
        assert((j - 1) * num < target * den) by (nonlinear_arith)
            requires
                num * j == n - rem,
                n == target * den + num - 1,
                rem >= 0,
        ;
        assert((j - 1) * num >= 0) by (nonlinear_arith)
            requires
                j > 0,
                num > 0,
        ;
        // (j-1)*num < target*den implies (j-1)*num/den < target
        lemma_div_lt(((j - 1) * num), target, den);
    }
}

proof fn lemma_div_lt(x: int, t: int, d: int)
    requires
        0 <= x,
        d > 0,
        x < t * d,
    ensures
        x / d < t,
{
    vstd::arithmetic::div_mod::lemma_fundamental_div_mod(x, d);
    vstd::arithmetic::div_mod::lemma_mod_bound(x, d);
    let q = x / d;
    assert(d * q <= x);
    if q >= t {
        assert(d * q >= d * t) by (nonlinear_arith)
            requires
                q >= t,
                d > 0,
        ;
        assert(t * d == d * t) by (nonlinear_arith);
    }
}

/// Converting an icount's vns back lands on or before that icount, and
/// exactly on it when the division was exact.
pub proof fn lemma_roundtrip_on_exact_boundaries(num: int, den: int, i: int)
    requires
        num > 0,
        den > 0,
        i >= 0,
    ensures
        icount_for_target(num, den, vns_of(num, den, i)) <= i,
        (i * num) % den == 0 ==> icount_for_target(num, den, vns_of(num, den, i)) == i,
{
    let v = vns_of(num, den, i);
    assert(i * num >= 0) by (nonlinear_arith)
        requires
            i >= 0,
            num > 0,
    ;
    vstd::arithmetic::div_mod::lemma_fundamental_div_mod(i * num, den);
    vstd::arithmetic::div_mod::lemma_mod_bound(i * num, den);
    vstd::arithmetic::div_mod::lemma_div_pos_is_pos(i * num, den);
    // v * den <= i * num
    assert(v * den <= i * num) by (nonlinear_arith)
        requires
            den * v + (i * num) % den == i * num,
            (i * num) % den >= 0,
    ;
    lemma_target_is_minimal_reaching(num, den, v);
    let j = icount_for_target(num, den, v);
    // j is minimal with vns(j) >= v; i has vns(i) == v >= v, so j <= i.
    if j > i {
        lemma_vns_monotone(num, den, i, j - 1);
    }
    if (i * num) % den == 0 {
        assert(v * den == i * num) by (nonlinear_arith)
            requires
                den * v + (i * num) % den == i * num,
                (i * num) % den == 0,
        ;
        if j < i {
            // vns(j) >= v means j*num/den >= v so j*num >= v*den = i*num.
            lemma_vns_monotone(num, den, j, i - 1);
            assert((i - 1) * num < i * num) by (nonlinear_arith)
                requires
                    num > 0,
            ;
            assert((i - 1) * num >= 0) by (nonlinear_arith)
                requires
                    i >= 1,
                    num > 0,
            ;
            lemma_div_lt((i - 1) * num, v, den);
        }
    }
}

} // verus!
