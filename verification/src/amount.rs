//! Raw on-chain amounts: unsigned integers of up to 256 bits.
//!
//! Balances come back from a chain client as 256-bit words.  They are held
//! here as four 64-bit limbs, least significant first, so that formatting can
//! scale them exactly, never through a lossy floating-point intermediate.

use vstd::prelude::*;

use crate::digits::{all_digits, digits_value, no_leading_zero, pow10};

verus! {

/// An unsigned integer of up to 256 bits, stored as four little-endian
/// 64-bit limbs.
#[derive(Clone, Copy, Debug)]
pub struct RawAmount {
    limb0: u64,
    limb1: u64,
    limb2: u64,
    limb3: u64,
}

impl View for RawAmount {
    type V = nat;

    closed spec fn view(&self) -> nat {
        self.limb0 as nat + self.limb1 as nat * 0x10000000000000000 + self.limb2 as nat
            * 0x100000000000000000000000000000000 + self.limb3 as nat
            * 0x1000000000000000000000000000000000000000000000000
    }
}

impl RawAmount {
    /// The amount zero.
    pub fn zero() -> (r: RawAmount)
        ensures
            r@ == 0,
    {
        RawAmount { limb0: 0, limb1: 0, limb2: 0, limb3: 0 }
    }

    /// Builds an amount from four little-endian 64-bit limbs, the word layout
    /// of a 256-bit chain balance.
    pub fn from_limbs(limb0: u64, limb1: u64, limb2: u64, limb3: u64) -> (r: RawAmount)
        ensures
            r@ == limb0 as nat + limb1 as nat * 0x10000000000000000 + limb2 as nat
                * 0x100000000000000000000000000000000 + limb3 as nat
                * 0x1000000000000000000000000000000000000000000000000,
    {
        RawAmount { limb0, limb1, limb2, limb3 }
    }

    /// Builds an amount from a 128-bit integer.
    pub fn from_u128(x: u128) -> (r: RawAmount)
        ensures
            r@ == x as nat,
    {
        let limb0: u64 = (x % 0x10000000000000000) as u64;
        let limb1: u64 = (x / 0x10000000000000000) as u64;
        let r = RawAmount { limb0, limb1, limb2: 0, limb3: 0 };
        proof {
            assert(x == 0x10000000000000000 * (x as int / 0x10000000000000000) + x as int
                % 0x10000000000000000) by {
                vstd::arithmetic::div_mod::lemma_fundamental_div_mod(x as int, 0x10000000000000000);
            }
        }
        r
    }

    /// Builds an amount from a 64-bit integer.
    pub fn from_u64(x: u64) -> (r: RawAmount)
        ensures
            r@ == x as nat,
    {
        RawAmount { limb0: x, limb1: 0, limb2: 0, limb3: 0 }
    }

    /// True exactly when the amount is zero.
    pub fn is_zero(&self) -> (r: bool)
        ensures
            r <==> self@ == 0,
    {
        self.limb0 == 0 && self.limb1 == 0 && self.limb2 == 0 && self.limb3 == 0
    }

    /// Divides by ten; returns the quotient and the remainder digit.
    fn divmod10(&self) -> (res: (RawAmount, u8))
        ensures
            self@ == res.0@ * 10 + res.1,
            res.1 < 10,
    {
        let q3: u64 = self.limb3 / 10;
        let r3: u64 = self.limb3 % 10;
        let c2: u128 = (r3 as u128) * 0x10000000000000000 + (self.limb2 as u128);
        proof {
            assert(c2 / 10 < 0x10000000000000000 && c2 == 10 * (c2 / 10) + c2 % 10) by {
                vstd::arithmetic::div_mod::lemma_fundamental_div_mod(c2 as int, 10);
            }
        }
        let q2: u64 = (c2 / 10) as u64;
        let r2: u64 = (c2 % 10) as u64;
        let c1: u128 = (r2 as u128) * 0x10000000000000000 + (self.limb1 as u128);
        proof {
            assert(c1 / 10 < 0x10000000000000000 && c1 == 10 * (c1 / 10) + c1 % 10) by {
                vstd::arithmetic::div_mod::lemma_fundamental_div_mod(c1 as int, 10);
            }
        }
        let q1: u64 = (c1 / 10) as u64;
        let r1: u64 = (c1 % 10) as u64;
        let c0: u128 = (r1 as u128) * 0x10000000000000000 + (self.limb0 as u128);
        proof {
            assert(c0 / 10 < 0x10000000000000000 && c0 == 10 * (c0 / 10) + c0 % 10) by {
                vstd::arithmetic::div_mod::lemma_fundamental_div_mod(c0 as int, 10);
            }
        }
        let q0: u64 = (c0 / 10) as u64;
        let r0: u64 = (c0 % 10) as u64;
        let q = RawAmount { limb0: q0, limb1: q1, limb2: q2, limb3: q3 };
        proof {
            // Every multiplication below has a literal constant factor, so the
            // whole derivation is linear arithmetic.
            assert(self.limb3 as int == q3 * 10 + r3);
            assert(c2 as int == r3 as int * 0x10000000000000000 + self.limb2);
            assert(c2 as int == q2 * 10 + r2);
            assert(c1 as int == r2 as int * 0x10000000000000000 + self.limb1);
            assert(c1 as int == q1 * 10 + r1);
            assert(c0 as int == r1 as int * 0x10000000000000000 + self.limb0);
            assert(c0 as int == q0 * 10 + r0);
            assert(self.limb3 as int * 0x1000000000000000000000000000000000000000000000000 == (q3
                * 10 + r3) * 0x1000000000000000000000000000000000000000000000000);
            assert(self.limb2 as int * 0x100000000000000000000000000000000 == (c2 - r3 as int
                * 0x10000000000000000) * 0x100000000000000000000000000000000);
            assert(self.limb1 as int * 0x10000000000000000 == (c1 - r2 as int
                * 0x10000000000000000) * 0x10000000000000000);
            assert(self@ == q@ * 10 + r0);
        }
        (q, r0 as u8)
    }

    /// The little-endian decimal digits of the amount, without a leading
    /// zero.  Zero yields the empty vector.
    pub fn to_decimal_digits(&self) -> (ds: Vec<u8>)
        ensures
            digits_value(ds@) == self@,
            all_digits(ds@),
            no_leading_zero(ds@),
    {
        let mut v: RawAmount = *self;
        let mut ds: Vec<u8> = Vec::new();
        proof {
            assert(pow10(0) == 1);
            assert(digits_value(ds@) == 0);
            assert(digits_value(ds@) + v@ * pow10(ds@.len()) == self@) by (nonlinear_arith)
                requires digits_value(ds@) == 0, pow10(ds@.len()) == 1, v@ == self@;
        }
        while !v.is_zero()
            invariant
                digits_value(ds@) + v@ * pow10(ds@.len()) == self@,
                all_digits(ds@),
                v@ == 0 ==> no_leading_zero(ds@),
            decreases v@,
        {
            let (q, r) = v.divmod10();
            proof {
                crate::digits::lemma_digits_value_push(ds@, r);
                let p = pow10(ds@.len());
                assert(digits_value(ds@) + r * p + q@ * (10 * p) == digits_value(ds@) + (q@ * 10
                    + r) * p) by (nonlinear_arith);
                assert(pow10(ds@.len() + 1) == 10 * pow10(ds@.len()));
                assert(q@ < v@) by (nonlinear_arith)
                    requires v@ == q@ * 10 + r, v@ > 0, r < 10;
            }
            ds.push(r);
            v = q;
        }
        ds
    }
}

} // verus!
