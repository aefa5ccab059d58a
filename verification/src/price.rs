//! Fixed-point prices.
//!
//! A price is a whole part and a fractional part counted in units of
//! `1 / SCALAR`. Prices are ordered by their whole part first and by their
//! fractional part second.

use core::cmp::Ordering;
use vstd::prelude::*;
use vstd::std_specs::cmp::PartialEqSpec;

verus! {

/// The number of fractional units in one whole unit of price.
pub const SCALAR: u64 = 100000;

/// A fixed-point price, standing for `integral + fractional / scalar`.
#[derive(Debug, Clone, Copy, Ord)]
pub struct Price {
    integral: u64,
    fractional: u64,
    scalar: u64,
}

impl Price {
    /// The whole part of the price.
    pub closed spec fn integral_part(&self) -> nat {
        self.integral as nat
    }

    /// The fractional part of the price, in units of `1 / scalar`.
    pub closed spec fn fractional_part(&self) -> nat {
        self.fractional as nat
    }

    /// The denominator of the fractional part.
    pub closed spec fn scalar_part(&self) -> nat {
        self.scalar as nat
    }

    /// A price is well formed when it uses the common denominator and its
    /// fractional part is a proper fraction of it.
    pub open spec fn wf(&self) -> bool {
        &&& self.scalar_part() == 100000
        &&& self.fractional_part() < 100000
    }

    /// The price as a count of fractional units.
    pub open spec fn ticks(&self) -> nat {
        self.integral_part() * 100000 + self.fractional_part()
    }

    /// How `self` compares to `other`: by the whole parts, and by the
    /// fractional parts where the whole parts agree. The denominator takes
    /// no part in the comparison.
    pub open spec fn cmp_spec(&self, other: &Price) -> Ordering {
        if self.integral_part() < other.integral_part() {
            Ordering::Less
        } else if self.integral_part() > other.integral_part() {
            Ordering::Greater
        } else if self.fractional_part() < other.fractional_part() {
            Ordering::Less
        } else if self.fractional_part() > other.fractional_part() {
            Ordering::Greater
        } else {
            Ordering::Equal
        }
    }

    /// The price nearest below the decimal value `numerator / denominator`:
    /// the whole part is the truncated quotient and the fractional part is
    /// the remainder scaled to `SCALAR` and truncated. What lies beyond the
    /// precision of `SCALAR` is lost.
    pub fn new(numerator: u64, denominator: u64) -> (price: Price)
        requires
            denominator > 0,
        ensures
            price.wf(),
            price.integral_part() == numerator as nat / denominator as nat,
            price.fractional_part() == ((numerator as nat % denominator as nat) * 100000)
                / denominator as nat,
    {
        let integral: u64 = numerator / denominator;
        let rest: u128 = (numerator % denominator) as u128;
        let wide: u128 = denominator as u128;
        let scaled: u128 = rest * 100000;
        let fraction: u128 = scaled / wide;
        proof {
            assert(fraction < 100000) by (nonlinear_arith)
                requires
                    scaled < wide * 100000,
                    wide > 0,
                    fraction == scaled / wide,
            ;
        }
        Price { integral, fractional: fraction as u64, scalar: SCALAR }
    }

    /// The price with the given whole and fractional parts, if the
    /// fractional part is a proper fraction of `SCALAR`.
    pub fn from_parts(integral: u64, fractional: u64) -> (price: Option<Price>)
        ensures
            price.is_some() <==> fractional < 100000,
            price.is_some() ==> {
                &&& price.unwrap().wf()
                &&& price.unwrap().integral_part() == integral
                &&& price.unwrap().fractional_part() == fractional
            },
    {
        if fractional < SCALAR {
            Some(Price { integral, fractional, scalar: SCALAR })
        } else {
            None
        }
    }

    /// The whole part of the price.
    pub fn integral(&self) -> (part: u64)
        ensures
            part == self.integral_part(),
    {
        self.integral
    }

    /// The fractional part of the price, in units of `1 / scalar`.
    pub fn fractional(&self) -> (part: u64)
        ensures
            part == self.fractional_part(),
    {
        self.fractional
    }

    /// The denominator of the fractional part.
    pub fn scalar(&self) -> (part: u64)
        ensures
            part == self.scalar_part(),
    {
        self.scalar
    }

    /// Compares two prices by whole part, then by fractional part.
    pub fn cmp(&self, other: &Price) -> (order: Ordering)
        ensures
            order == self.cmp_spec(other),
    {
        if self.integral < other.integral {
            Ordering::Less
        } else if self.integral > other.integral {
            Ordering::Greater
        } else {
            if self.fractional < other.fractional {
                Ordering::Less
            } else if self.fractional > other.fractional {
                Ordering::Greater
            } else {
                Ordering::Equal
            }
        }
    }

    /// The signed distance from `other` up to `self`, in fractional units.
    pub fn distance(&self, other: &Price) -> (ticks: i128)
        requires
            self.wf(),
            other.wf(),
        ensures
            ticks == self.ticks() - other.ticks(),
    {
        let whole: i128 = self.integral as i128 - other.integral as i128;
        let part: i128 = self.fractional as i128 - other.fractional as i128;
        whole * 100000 + part
    }
}

impl PartialEq for Price {
    fn eq(&self, other: &Self) -> (equal: bool) {
        self.integral == other.integral && self.fractional == other.fractional
    }
}

impl vstd::std_specs::cmp::PartialEqSpecImpl for Price {
    open spec fn obeys_eq_spec() -> bool {
        true
    }

    open spec fn eq_spec(&self, other: &Self) -> bool {
        self.integral_part() == other.integral_part() && self.fractional_part()
            == other.fractional_part()
    }
}

impl Eq for Price {

}

impl PartialOrd for Price {
    fn partial_cmp(&self, other: &Self) -> (order: Option<Ordering>) {
        Some(self.cmp(other))
    }
}

impl vstd::std_specs::cmp::PartialOrdSpecImpl for Price {
    open spec fn obeys_partial_cmp_spec() -> bool {
        true
    }

    open spec fn partial_cmp_spec(&self, other: &Self) -> Option<Ordering> {
        Some(self.cmp_spec(other))
    }
}

impl Price {
    /// The price of a whole number of units, with no fraction.
    pub closed spec fn whole(units: u64) -> Price {
        Price { integral: units, fractional: 0, scalar: 100000 }
    }

    /// The parts of a whole price: it is what `new` makes of `units / 1`.
    pub proof fn lemma_whole(units: u64)
        ensures
            Self::whole(units).wf(),
            Self::whole(units).integral_part() == units as nat / 1,
            Self::whole(units).fractional_part() == ((units as nat % 1) * 100000) / 1,
            Self::whole(units).integral_part() == units,
            Self::whole(units).fractional_part() == 0,
            Self::whole(units).scalar_part() == 100000,
    {
    }
}

impl From<u64> for Price {
    /// The price of a whole number of units.
    fn from(units: u64) -> (price: Price)
        ensures
            price.wf(),
            price.integral_part() == units,
            price.fractional_part() == 0,
    {
        Price { integral: units, fractional: 0, scalar: SCALAR }
    }
}

impl vstd::std_specs::convert::FromSpecImpl<u64> for Price {
    open spec fn obeys_from_spec() -> bool {
        true
    }

    open spec fn from_spec(units: u64) -> Price {
        Price::whole(units)
    }
}

impl Default for Price {
    /// The zero price.
    fn default() -> (price: Price)
        ensures
            price.wf(),
            price.integral_part() == 0,
            price.fractional_part() == 0,
    {
        Price { integral: 0, fractional: 0, scalar: 100000 }
    }
}

/// Two prices made from the same decimal value agree in every part, and so
/// are equal.
pub proof fn lemma_new_is_deterministic(a: Price, b: Price, numerator: nat, denominator: nat)
    requires
        denominator > 0,
        a.wf(),
        b.wf(),
        a.integral_part() == numerator / denominator,
        a.fractional_part() == ((numerator % denominator) * 100000) / denominator,
        b.integral_part() == numerator / denominator,
        b.fractional_part() == ((numerator % denominator) * 100000) / denominator,
    ensures
        a.integral_part() == b.integral_part(),
        a.fractional_part() == b.fractional_part(),
        a.scalar_part() == b.scalar_part(),
        a.eq_spec(&b),
        a.cmp_spec(&b) == Ordering::Equal,
        a.ticks() == b.ticks(),
{
}

/// A price made from the decimal value `numerator / denominator` lies at or
/// below that value and less than one fractional unit away from it.
pub proof fn lemma_new_truncates(price: Price, numerator: nat, denominator: nat)
    requires
        denominator > 0,
        price.integral_part() == numerator / denominator,
        price.fractional_part() == ((numerator % denominator) * 100000) / denominator,
    ensures
        price.ticks() * denominator <= numerator * 100000,
        numerator * 100000 < (price.ticks() + 1) * denominator,
        price.ticks() == (numerator * 100000) / denominator,
{
    let q = numerator / denominator;
    let r = numerator % denominator;
    let f = (r * 100000) / denominator;
    let m = (r * 100000) % denominator;
    assert(numerator == q * denominator + r && r < denominator) by (nonlinear_arith)
        requires
            denominator > 0,
            q == numerator / denominator,
            r == numerator % denominator,
    ;
    assert(r * 100000 == f * denominator + m && m < denominator) by (nonlinear_arith)
        requires
            denominator > 0,
            f == (r * 100000) / denominator,
            m == (r * 100000) % denominator,
    ;
    let t = q * 100000 + f;
    assert(numerator * 100000 == t * denominator + m) by (nonlinear_arith)
        requires
            numerator == q * denominator + r,
            r * 100000 == f * denominator + m,
            t == q * 100000 + f,
    ;
    assert((t + 1) * denominator == t * denominator + denominator) by (nonlinear_arith);
    vstd::arithmetic::div_mod::lemma_fundamental_div_mod_converse(
        (numerator * 100000) as int,
        denominator as int,
        t as int,
        m as int,
    );
}

/// Among well-formed prices the order of two prices is the order of their
/// values in fractional units.
pub proof fn lemma_order_is_by_ticks(a: Price, b: Price)
    requires
        a.wf(),
        b.wf(),
    ensures
        a.cmp_spec(&b) == Ordering::Less <==> a.ticks() < b.ticks(),
        a.cmp_spec(&b) == Ordering::Equal <==> a.ticks() == b.ticks(),
        a.cmp_spec(&b) == Ordering::Greater <==> a.ticks() > b.ticks(),
{
}

/// Well-formed prices are equal exactly when their values in fractional
/// units are.
pub proof fn lemma_equal_is_by_ticks(a: Price, b: Price)
    requires
        a.wf(),
        b.wf(),
    ensures
        a.eq_spec(&b) <==> a.ticks() == b.ticks(),
{
}

} // verus!
