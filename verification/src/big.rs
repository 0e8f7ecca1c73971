//! Unbounded unsigned integers, as `num` provides them, with the few
//! operations that table matching needs.

use vstd::prelude::*;
use num::bigint::BigUint;
use num::ToPrimitive;

verus! {

/// `num`'s unsigned big integer, carried as a value that only `num`
/// reads.
#[verifier::external_type_specification]
#[verifier::external_body]
pub struct ExBigUint(num::bigint::BigUint);

/// The natural number that a `BigUint` holds.
pub uninterp spec fn big_value(b: BigUint) -> nat;

/// Bitwise conjunction of two natural numbers.
pub open spec fn nat_and(a: nat, b: nat) -> nat
    decreases a,
{
    if a == 0 || b == 0 {
        0
    } else {
        2 * nat_and(a / 2, b / 2) + if a % 2 == 1 && b % 2 == 1 { 1nat } else { 0nat }
    }
}

/// On machine words `nat_and` is `&`.
pub proof fn lemma_nat_and_is_bit_and(a: u64, b: u64)
    ensures
        nat_and(a as nat, b as nat) == (a & b) as nat,
    decreases a,
{
    if a == 0 || b == 0 {
        assert(a & b == 0) by (bit_vector)
            requires
                a == 0 || b == 0,
        ;
    } else {
        lemma_nat_and_is_bit_and(a / 2, b / 2);
        assert(a & b == 2 * ((a / 2) & (b / 2)) + (if a % 2 == 1 && b % 2 == 1 {
            1u64
        } else {
            0u64
        })) by (bit_vector);
    }
}

/// `BigUint`'s `==`: trusted to hold exactly when both stand for the same
/// number (the digits are kept without leading zeros).
#[verifier::external_body]
pub(crate) fn big_eq(a: &BigUint, b: &BigUint) -> (r: bool)
    ensures
        r == (big_value(*a) == big_value(*b)),
{
    a == b
}

/// `BigUint`'s `<=`: trusted to be the order of the numbers held.
#[verifier::external_body]
pub(crate) fn big_le(a: &BigUint, b: &BigUint) -> (r: bool)
    ensures
        r == (big_value(*a) <= big_value(*b)),
{
    a <= b
}

/// `&BigUint & &BigUint`: trusted to hold the bitwise conjunction of the
/// two numbers.
#[verifier::external_body]
pub(crate) fn big_and(a: &BigUint, b: &BigUint) -> (r: BigUint)
    ensures
        big_value(r) == nat_and(big_value(*a), big_value(*b)),
{
    a & b
}

/// `ToPrimitive::to_u128` on a `BigUint`: trusted to give the number where
/// it is below 2^128 and `None` where it is not.
#[verifier::external_body]
pub(crate) fn big_to_u128(a: &BigUint) -> (r: Option<u128>)
    ensures
        match r {
            Some(v) => big_value(*a) == v,
            None => big_value(*a) > u128::MAX,
        },
{
    a.to_u128()
}

/// `ToPrimitive::to_u32` on a `BigUint`: trusted to give the number where
/// it is below 2^32 and `None` where it is not.
#[verifier::external_body]
pub(crate) fn big_to_u32(a: &BigUint) -> (r: Option<u32>)
    ensures
        match r {
            Some(v) => big_value(*a) == v,
            None => big_value(*a) > u32::MAX,
        },
{
    a.to_u32()
}

/// `BigUint::clone`: trusted to give a value that holds the same number.
#[verifier::external_body]
pub(crate) fn big_clone(a: &BigUint) -> (r: BigUint)
    ensures
        big_value(r) == big_value(*a),
{
    a.clone()
}

} // verus!
