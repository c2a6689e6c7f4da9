use vstd::prelude::*;

verus! {

/// Number of decimal digits after the point that a `Decimal` carries.
pub const SCALE: u32 = 9;

/// `10^e` for a natural exponent.
pub open spec fn pow10(e: nat) -> int
    decreases e,
{
    if e == 0 {
        1
    } else {
        10 * pow10((e - 1) as nat)
    }
}

/// Whether an integer fits in the units of a `Decimal`.
pub open spec fn fits(v: int) -> bool {
    i128::MIN <= v <= i128::MAX
}

/// A fixed-point decimal number with `SCALE` digits after the point, used for every
/// price and amount. Equality and ordering are exact.
#[derive(Copy, Clone, Debug, PartialEq, Eq, Structural, PartialOrd, Ord, Hash, Default)]
pub struct Decimal {
    pub units: i128,
}

/// Prices are decimals.
pub type Price = Decimal;

/// Amounts (sizes, quantities, positions) are decimals.
pub type Amount = Decimal;

impl View for Decimal {
    type V = int;

    /// The value in units of `10^-SCALE`.
    open spec fn view(&self) -> int {
        self.units as int
    }
}

impl Decimal {
    /// The decimal `num * 10^-scale`; `scale` is at most `SCALE`.
    pub fn new(num: i64, scale: u32) -> (r: Decimal)
        requires
            scale <= SCALE,
        ensures
            r@ == num as int * pow10((SCALE - scale) as nat),
    {
        let mut units: i128 = num as i128;
        let mut e: u32 = scale;
        while e < SCALE
            invariant
                scale <= e <= SCALE,
                units as int == num as int * pow10((e - scale) as nat),
            decreases SCALE - e,
        {
            proof {
                assert(pow10((e + 1 - scale) as nat) == 10 * pow10((e - scale) as nat));
                assert(pow10((e - scale) as nat) <= 100000000) by {
                    lemma_pow10_small((e - scale) as nat);
                }
                assert(pow10((e - scale) as nat) >= 1) by {
                    lemma_pow10_small((e - scale) as nat);
                }
                assert(-9223372036854775808 * 100000000 <= num as int * pow10((e - scale) as nat)
                    <= 9223372036854775807 * 100000000) by (nonlinear_arith)
                    requires
                        -9223372036854775808 <= num <= 9223372036854775807,
                        1 <= pow10((e - scale) as nat) <= 100000000,
                ;
                assert(num as int * pow10((e + 1 - scale) as nat) == 10 * (num as int * pow10(
                    (e - scale) as nat,
                ))) by (nonlinear_arith)
                    requires
                        pow10((e + 1 - scale) as nat) == 10 * pow10((e - scale) as nat),
                ;
            }
            units = units * 10;
            e = e + 1;
        }
        Decimal { units }
    }

    /// The decimal of `units * 10^-SCALE`.
    pub fn from_units(units: i128) -> (r: Decimal)
        ensures
            r@ == units,
    {
        Decimal { units }
    }

    /// The value in units of `10^-SCALE`.
    pub fn units(&self) -> (r: i128)
        ensures
            r == self@,
    {
        self.units
    }

    pub fn zero() -> (r: Decimal)
        ensures
            r@ == 0,
    {
        Decimal { units: 0 }
    }

    pub fn is_zero(&self) -> (r: bool)
        ensures
            r == (self@ == 0),
    {
        self.units == 0
    }

    /// Exact sum; the sum must be representable.
    pub fn add(self, other: Decimal) -> (r: Decimal)
        requires
            fits(self@ + other@),
        ensures
            r@ == self@ + other@,
    {
        Decimal { units: self.units + other.units }
    }

    /// Exact difference; the difference must be representable.
    pub fn sub(self, other: Decimal) -> (r: Decimal)
        requires
            fits(self@ - other@),
        ensures
            r@ == self@ - other@,
    {
        Decimal { units: self.units - other.units }
    }

    /// Exact sum, or `None` where it is not representable.
    pub fn checked_add(self, other: Decimal) -> (r: Option<Decimal>)
        ensures
            r is Some <==> fits(self@ + other@),
            r matches Some(d) ==> d@ == self@ + other@,
    {
        match self.units.checked_add(other.units) {
            Some(u) => Some(Decimal { units: u }),
            None => None,
        }
    }

    /// Exact difference, or `None` where it is not representable.
    pub fn checked_sub(self, other: Decimal) -> (r: Option<Decimal>)
        ensures
            r is Some <==> fits(self@ - other@),
            r matches Some(d) ==> d@ == self@ - other@,
    {
        match self.units.checked_sub(other.units) {
            Some(u) => Some(Decimal { units: u }),
            None => None,
        }
    }

    pub fn lt(&self, other: &Decimal) -> (r: bool)
        ensures
            r == (self@ < other@),
    {
        self.units < other.units
    }

    pub fn le(&self, other: &Decimal) -> (r: bool)
        ensures
            r == (self@ <= other@),
    {
        self.units <= other.units
    }

    pub fn gt(&self, other: &Decimal) -> (r: bool)
        ensures
            r == (self@ > other@),
    {
        self.units > other.units
    }

    pub fn ge(&self, other: &Decimal) -> (r: bool)
        ensures
            r == (self@ >= other@),
    {
        self.units >= other.units
    }

    pub fn eq(&self, other: &Decimal) -> (r: bool)
        ensures
            r == (self@ == other@),
    {
        self.units == other.units
    }
}

proof fn lemma_pow10_small(e: nat)
    requires
        e <= 8,
    ensures
        1 <= pow10(e) <= 100000000,
{
    reveal_with_fuel(pow10, 9);
}

} // verus!
