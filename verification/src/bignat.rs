//! Unbounded natural numbers (token amounts), held as base-2^32 digits.
//! The arithmetic itself is done by `candid::Nat`.
use vstd::prelude::*;

verus! {

/// The value of little-endian base-2^32 digits.
pub open spec fn digits_value(d: Seq<u32>) -> nat
    decreases d.len(),
{
    if d.len() == 0 {
        0
    } else {
        d[0] as nat + 4294967296 * digits_value(d.drop_first())
    }
}

/// An unbounded natural number; `digits` are base 2^32, least significant first.
#[derive(Debug, Clone, PartialEq, Eq)]
pub struct BigNat {
    pub digits: Vec<u32>,
}

/// A token amount.
pub type Balance = BigNat;

impl View for BigNat {
    type V = nat;

    open spec fn view(&self) -> nat {
        digits_value(self.digits@)
    }
}

/// `candid::Nat::from(u64)`: the number `v`.
#[verifier::external_body]
pub(crate) fn nat_from_u64(v: u64) -> (r: BigNat)
    ensures
        r@ == v,
{
    BigNat { digits: candid::Nat::from(v).0.to_u32_digits() }
}

/// `candid::Nat::from(u128)`: the number `v`.
#[verifier::external_body]
pub(crate) fn nat_from_u128(v: u128) -> (r: BigNat)
    ensures
        r@ == v,
{
    BigNat { digits: candid::Nat::from(v).0.to_u32_digits() }
}

/// `candid::Nat` addition: the exact sum.
#[verifier::external_body]
pub(crate) fn nat_add(a: &BigNat, b: &BigNat) -> (r: BigNat)
    ensures
        r@ == a@ + b@,
{
    let x = candid::Nat(num_bigint::BigUint::new(a.digits.clone()));
    let y = candid::Nat(num_bigint::BigUint::new(b.digits.clone()));
    BigNat { digits: (x + y).0.to_u32_digits() }
}

/// `candid::Nat` subtraction, which panics when `b > a`: the exact difference.
#[verifier::external_body]
pub(crate) fn nat_sub(a: &BigNat, b: &BigNat) -> (r: BigNat)
    requires
        a@ >= b@,
    ensures
        r@ == a@ - b@,
{
    let x = candid::Nat(num_bigint::BigUint::new(a.digits.clone()));
    let y = candid::Nat(num_bigint::BigUint::new(b.digits.clone()));
    BigNat { digits: (x - y).0.to_u32_digits() }
}

/// `candid::Nat` multiplication: the exact product.
#[verifier::external_body]
pub(crate) fn nat_mul(a: &BigNat, b: &BigNat) -> (r: BigNat)
    ensures
        r@ == a@ * b@,
{
    let x = candid::Nat(num_bigint::BigUint::new(a.digits.clone()));
    let y = candid::Nat(num_bigint::BigUint::new(b.digits.clone()));
    BigNat { digits: (x * y).0.to_u32_digits() }
}

/// `candid::Nat` division, which panics on a zero divisor: the quotient rounded down.
#[verifier::external_body]
pub(crate) fn nat_div(a: &BigNat, b: &BigNat) -> (r: BigNat)
    requires
        b@ > 0,
    ensures
        r@ == a@ / b@,
{
    let x = candid::Nat(num_bigint::BigUint::new(a.digits.clone()));
    let y = candid::Nat(num_bigint::BigUint::new(b.digits.clone()));
    BigNat { digits: (x / y).0.to_u32_digits() }
}

/// `<` on `candid::Nat`: numeric order.
#[verifier::external_body]
pub(crate) fn nat_less(a: &BigNat, b: &BigNat) -> (r: bool)
    ensures
        r == (a@ < b@),
{
    let x = candid::Nat(num_bigint::BigUint::new(a.digits.clone()));
    let y = candid::Nat(num_bigint::BigUint::new(b.digits.clone()));
    x < y
}

/// `==` on `candid::Nat`: numeric equality.
#[verifier::external_body]
pub(crate) fn nat_equal(a: &BigNat, b: &BigNat) -> (r: bool)
    ensures
        r == (a@ == b@),
{
    let x = candid::Nat(num_bigint::BigUint::new(a.digits.clone()));
    let y = candid::Nat(num_bigint::BigUint::new(b.digits.clone()));
    x == y
}

impl BigNat {
    /// The number `v`.
    pub fn from_u64(v: u64) -> (r: BigNat)
        ensures
            r@ == v,
    {
        nat_from_u64(v)
    }

    /// The number `v`.
    pub fn from_u128(v: u128) -> (r: BigNat)
        ensures
            r@ == v,
    {
        nat_from_u128(v)
    }

    /// A copy with the same digits.
    pub fn duplicate(&self) -> (r: BigNat)
        ensures
            r.digits@ == self.digits@,
            r@ == self@,
    {
        let d = self.digits.clone();
        assert(d@ =~= self.digits@);
        BigNat { digits: d }
    }
}

} // verus!
