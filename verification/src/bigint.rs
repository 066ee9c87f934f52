//! 256-bit multiplication, optionally modular, delegated to a
//! constant-time big-integer arithmetic crate. Operands and results are
//! 32-byte little-endian strings; the contracts are exact over their
//! little-endian values.

use vstd::prelude::*;
use vstd::arithmetic::power2::pow2;
use crate::bytes::le_val;

use crypto_bigint::{CheckedMul, Concat, Encoding, NonZero, U256, U512};

verus! {

/// Relies on crypto_bigint::U256::checked_mul: the full 256-bit product
/// when it fits, nothing when it overflows.
#[verifier::external_body]
pub fn mul256_checked(x: &Vec<u8>, y: &Vec<u8>) -> (r: Option<Vec<u8>>)
    requires
        x@.len() == 32,
        y@.len() == 32,
    ensures
        match r {
            Some(z) => z@.len() == 32 && le_val(z@) == le_val(x@) * le_val(y@),
            None => le_val(x@) * le_val(y@) >= pow2(256),
        },
{
    let xa: [u8; 32] = x.as_slice().try_into().unwrap();
    let ya: [u8; 32] = y.as_slice().try_into().unwrap();
    let xb = U256::from_le_bytes(xa);
    let yb = U256::from_le_bytes(ya);
    let o: Option<U256> = xb.checked_mul(&yb).into();
    o.map(|z| z.to_le_bytes().to_vec())
}

/// Relies on crypto_bigint::U256::mul_wide, U256::concat and U512::rem:
/// the 512-bit product reduced by the non-zero 256-bit modulus.
#[verifier::external_body]
pub fn mulmod256(x: &Vec<u8>, y: &Vec<u8>, n: &Vec<u8>) -> (r: Vec<u8>)
    requires
        x@.len() == 32,
        y@.len() == 32,
        n@.len() == 32,
        le_val(n@) > 0,
    ensures
        r@.len() == 32,
        le_val(r@) == (le_val(x@) * le_val(y@)) % le_val(n@),
{
    let xa: [u8; 32] = x.as_slice().try_into().unwrap();
    let ya: [u8; 32] = y.as_slice().try_into().unwrap();
    let na: [u8; 32] = n.as_slice().try_into().unwrap();
    let xb = U256::from_le_bytes(xa);
    let yb = U256::from_le_bytes(ya);
    let nb = U256::from_le_bytes(na);
    let (lo, hi) = xb.mul_wide(&yb);
    let w: U512 = hi.concat(&lo);
    let nz = NonZero::<U512>::from_uint(nb.resize());
    let z: U256 = w.rem(&nz).resize();
    z.to_le_bytes().to_vec()
}

} // verus!
