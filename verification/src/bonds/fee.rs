//! The protocol fee: a rational rate in `[0, 1]`, applied with rounding up.

use vstd::prelude::*;
use vstd::arithmetic::div_mod::{
    lemma_fundamental_div_mod, lemma_fundamental_div_mod_converse, lemma_hoist_over_denominator,
};

verus! {

/// The least integer that is not below `a / d`.
pub open spec fn ceil_div(a: nat, d: nat) -> nat
    recommends
        d > 0,
{
    ((a + d - 1) / (d as int)) as nat
}

/// The fee owed on `amount` at the rate `numerator / denominator`.
pub open spec fn fee_on(amount: nat, numerator: nat, denominator: nat) -> nat
    recommends
        denominator > 0,
{
    ceil_div(amount * numerator, denominator)
}

/// `ceil_div(a, d)` is the least `k` with `k * d >= a`.
pub proof fn lemma_ceil_div_is_least(a: nat, d: nat)
    requires
        d > 0,
    ensures
        ceil_div(a, d) * d >= a,
        a > 0 ==> (ceil_div(a, d) - 1) * d < a,
        a == 0 ==> ceil_div(a, d) == 0,
        forall|k: nat| #[trigger] (k * d) >= a ==> k >= ceil_div(a, d),
{
    let c = (a + d - 1) / (d as int);
    let r = (a + d - 1) % (d as int);
    lemma_fundamental_div_mod(a + d - 1, d as int);
    assert(d * c == c * d) by (nonlinear_arith);
    assert(c >= 0) by (nonlinear_arith)
        requires
            d > 0,
            c * d + r == a + d - 1,
            0 <= r < d,
            a >= 0,
    ;
    assert((c - 1) * d == c * d - d) by (nonlinear_arith);
    assert(a == 0 ==> c == 0) by (nonlinear_arith)
        requires
            d > 0,
            c * d + r == a + d - 1,
            0 <= r < d,
            c >= 0,
    ;
    assert forall|k: nat| #[trigger] (k * d) >= a implies k >= c by {
        if k < c {
            assert(k * d <= (c - 1) * d) by (nonlinear_arith)
                requires
                    k <= c - 1,
                    d > 0,
            ;
        }
    }
}

/// Rounding up is rounding down, plus one where a remainder is left.
proof fn lemma_ceil_div_by_remainder(a: nat, d: nat)
    requires
        d > 0,
    ensures
        ceil_div(a, d) == a / d + if a % d == 0 { 0nat } else { 1nat },
{
    let dd = d as int;
    let q = a as int / dd;
    let r = a as int % dd;
    lemma_fundamental_div_mod(a as int, dd);
    assert(dd * q == q * dd) by (nonlinear_arith);
    if r == 0 {
        lemma_fundamental_div_mod_converse(a + d - 1, dd, q, d - 1);
    } else {
        assert((q + 1) * dd == q * dd + dd) by (nonlinear_arith);
        lemma_fundamental_div_mod_converse(a + d - 1, dd, q + 1, r - 1);
    }
}

/// Whole multiples of the divisor leave a rounded-up quotient as they come.
proof fn lemma_ceil_div_hoist(whole: nat, rest: nat, d: nat)
    requires
        d > 0,
    ensures
        ceil_div(whole * d + rest, d) == whole + ceil_div(rest, d),
{
    lemma_hoist_over_denominator(rest + d - 1, whole as int, d);
    lemma_ceil_div_is_least(rest, d);
}

/// A rate of at most one takes at most the whole amount.
pub proof fn lemma_fee_at_most_amount(amount: nat, numerator: nat, denominator: nat)
    requires
        0 < denominator,
        numerator <= denominator,
    ensures
        fee_on(amount, numerator, denominator) <= amount,
{
    lemma_ceil_div_is_least(amount * numerator, denominator);
    assert(amount * denominator >= amount * numerator) by (nonlinear_arith)
        requires
            numerator <= denominator,
    ;
}

/// A rate between zero and one, held as a fraction of two integers.
#[derive(Clone, Copy, Debug)]
pub struct FeeRate {
    numerator: u64,
    denominator: u64,
}

impl FeeRate {
    #[verifier::type_invariant]
    spec fn in_unit_interval(self) -> bool {
        0 < self.denominator && self.numerator <= self.denominator
    }

    /// The fraction's upper part.
    pub closed spec fn num(self) -> nat {
        self.numerator as nat
    }

    /// The fraction's lower part.
    pub closed spec fn den(self) -> nat {
        self.denominator as nat
    }

    /// Whether the fraction is defined and lies between zero and one.
    pub open spec fn valid(self) -> bool {
        0 < self.den() && self.num() <= self.den()
    }

    /// The fee that this rate takes from `amount`.
    pub open spec fn fee(self, amount: nat) -> nat {
        fee_on(amount, self.num(), self.den())
    }

    /// The fee rounds up and never down: it is the least whole amount that
    /// is not below the exact share, so it covers the share and exceeds it
    /// by less than one unit; and it never exceeds the amount itself.
    pub proof fn law_fee_rounds_up(self, amount: nat)
        requires
            self.valid(),
        ensures
            self.fee(amount) * self.den() >= amount * self.num(),
            self.fee(amount) * self.den() < amount * self.num() + self.den(),
            forall|k: nat| #[trigger] (k * self.den()) >= amount * self.num() ==> k >= self.fee(amount),
            self.fee(amount) <= amount,
            self.num() == 0 ==> self.fee(amount) == 0,
            self.num() == self.den() ==> self.fee(amount) == amount,
    {
        let share = amount * self.num();
        lemma_ceil_div_is_least(share, self.den());
        lemma_fee_at_most_amount(amount, self.num(), self.den());
        assert((self.fee(amount) - 1) * self.den() == self.fee(amount) * self.den() - self.den())
            by (nonlinear_arith);
        if self.num() == 0 {
            assert(share == 0) by (nonlinear_arith)
                requires
                    share == amount * self.num(),
                    self.num() == 0,
            ;
        }
        if self.num() == self.den() {
            assert(self.fee(amount) * self.den() >= amount * self.den());
            assert(self.fee(amount) >= amount) by (nonlinear_arith)
                requires
                    self.fee(amount) * self.den() >= amount * self.den(),
                    self.den() > 0,
            ;
        }
    }

    /// The rate `numerator / denominator`, or nothing where that is no rate:
    /// where the denominator is zero or the fraction exceeds one.
    pub fn new(numerator: u64, denominator: u64) -> (rate: Option<FeeRate>)
        ensures
            rate.is_some() <==> 0 < denominator && numerator <= denominator,
            rate matches Some(r) ==> r.num() == numerator && r.den() == denominator && r.valid(),
    {
        if denominator == 0 || numerator > denominator {
            None
        } else {
            Some(FeeRate { numerator, denominator })
        }
    }

    /// `parts` in a million, held at the whole where `parts` exceeds a
    /// million.
    pub fn from_parts(parts: u32) -> (rate: FeeRate)
        ensures
            rate.num() == (if parts > 1_000_000 { 1_000_000nat } else { parts as nat }),
            rate.den() == 1_000_000,
            rate.valid(),
    {
        let numerator: u64 = if parts > 1_000_000 { 1_000_000 } else { parts as u64 };
        FeeRate { numerator, denominator: 1_000_000 }
    }

    /// `percent` in a hundred, held at the whole where `percent` exceeds a
    /// hundred.
    pub fn from_percent(percent: u32) -> (rate: FeeRate)
        ensures
            rate.num() == (if percent > 100 { 100nat } else { percent as nat }),
            rate.den() == 100,
            rate.valid(),
    {
        let numerator: u64 = if percent > 100 { 100 } else { percent as u64 };
        FeeRate { numerator, denominator: 100 }
    }

    /// The rate that takes nothing.
    pub fn zero() -> (rate: FeeRate)
        ensures
            rate.num() == 0,
            rate.den() == 1,
            rate.valid(),
    {
        FeeRate { numerator: 0, denominator: 1 }
    }

    /// The fraction's upper part.
    pub fn numerator(&self) -> (n: u64)
        ensures
            n == self.num(),
            self.valid(),
    {
        proof {
            use_type_invariant(self);
        }
        self.numerator
    }

    /// The fraction's lower part.
    pub fn denominator(&self) -> (d: u64)
        ensures
            d == self.den(),
            self.valid(),
    {
        proof {
            use_type_invariant(self);
        }
        self.denominator
    }

    /// `amount` times the rate, rounded up to a whole unit. No intermediate
    /// value leaves `u128`, whatever the amount.
    pub fn mul_ceil(&self, amount: u128) -> (fee: u128)
        ensures
            fee == self.fee(amount as nat),
            fee <= amount,
            self.valid(),
    {
        proof {
            use_type_invariant(self);
        }
        let d: u128 = self.denominator as u128;
        let n: u128 = self.numerator as u128;
        let whole: u128 = amount / d;
        let rest: u128 = amount % d;
        proof {
            lemma_fundamental_div_mod(amount as int, d as int);
            assert(whole * n <= whole * d && d * whole == whole * d) by (nonlinear_arith)
                requires
                    n <= d,
            ;
            assert(rest * n <= rest * d && rest * d < 0x1_0000_0000_0000_0000 * 0x1_0000_0000_0000_0000)
                by (nonlinear_arith)
                requires
                    n <= d,
                    rest < d,
                    d < 0x1_0000_0000_0000_0000,
            ;
        }
        let scaled: u128 = rest * n;
        let round_up: u128 = if scaled % d == 0 { 0 } else { 1 };
        proof {
            lemma_ceil_div_by_remainder(scaled as nat, d as nat);
            lemma_ceil_div_is_least(scaled as nat, d as nat);
            assert((rest as nat) * (d as nat) >= scaled as nat);
            assert(ceil_div(scaled as nat, d as nat) <= rest);
            lemma_ceil_div_hoist((whole * n) as nat, scaled as nat, d as nat);
            assert((whole * n) * d + rest * n == (whole * d + rest) * n) by (nonlinear_arith);
        }
        whole * n + (scaled / d + round_up)
    }
}

} // verus!
