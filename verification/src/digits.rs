//! Little-endian decimal digit sequences and their numeric value.
//!
//! A `Seq<u8>` whose entries are all below ten stands for the natural number
//! `ds[0] + 10 * ds[1] + 100 * ds[2] + ...`.  These sequences are the bridge
//! between the limb representation of a raw amount and its decimal rendering.

use vstd::prelude::*;

verus! {

/// Ten to the `k`-th power.
pub open spec fn pow10(k: nat) -> nat
    decreases k,
{
    if k == 0 {
        1
    } else {
        10 * pow10((k - 1) as nat)
    }
}

/// Every entry of the sequence is a decimal digit.
pub open spec fn all_digits(ds: Seq<u8>) -> bool {
    forall|i: int| 0 <= i < ds.len() ==> ds[i] < 10
}

/// The sequence carries no leading zero (its most significant digit, the
/// last entry, is nonzero).  The empty sequence stands for zero.
pub open spec fn no_leading_zero(ds: Seq<u8>) -> bool {
    ds.len() > 0 ==> ds[ds.len() - 1] != 0
}

/// Value of a little-endian digit sequence.
pub open spec fn digits_value(ds: Seq<u8>) -> nat
    decreases ds.len(),
{
    if ds.len() == 0 {
        0
    } else {
        ds[0] as nat + 10 * digits_value(ds.subrange(1, ds.len() as int))
    }
}

pub proof fn lemma_pow10_pos(k: nat)
    ensures
        pow10(k) >= 1,
    decreases k,
{
    if k > 0 {
        lemma_pow10_pos((k - 1) as nat);
    }
}

pub proof fn lemma_pow10_add(a: nat, b: nat)
    ensures
        pow10(a + b) == pow10(a) * pow10(b),
    decreases a,
{
    if a == 0 {
        assert(pow10(0 + b) == 1 * pow10(b));
    } else {
        lemma_pow10_add((a - 1) as nat, b);
        assert(pow10(a + b) == 10 * pow10(((a - 1) + b) as nat)) by {
            assert(a + b == ((a - 1) + b) as nat + 1);
        }
        assert(10 * (pow10((a - 1) as nat) * pow10(b)) == (10 * pow10((a - 1) as nat)) * pow10(b))
            by (nonlinear_arith);
    }
}

pub proof fn lemma_pow10_increases(a: nat, b: nat)
    requires
        a <= b,
    ensures
        pow10(a) <= pow10(b),
{
    lemma_pow10_add(a, (b - a) as nat);
    lemma_pow10_pos((b - a) as nat);
    lemma_pow10_pos(a);
    assert(pow10(a) * 1 <= pow10(a) * pow10((b - a) as nat)) by (nonlinear_arith)
        requires pow10((b - a) as nat) >= 1, pow10(a) >= 1;
}

/// Appending a digit at the most significant end adds `d * pow10(len)`.
pub proof fn lemma_digits_value_push(ds: Seq<u8>, d: u8)
    ensures
        digits_value(ds.push(d)) == digits_value(ds) + d * pow10(ds.len()),
    decreases ds.len(),
{
    if ds.len() == 0 {
        assert(ds.push(d).subrange(1, 1) =~= Seq::<u8>::empty());
        assert(digits_value(Seq::<u8>::empty()) == 0);
        assert(digits_value(ds.push(d)) == d as nat + 10 * digits_value(Seq::<u8>::empty()));
        assert(digits_value(ds) == 0);
        assert(pow10(0) == 1);
    } else {
        let rest = ds.subrange(1, ds.len() as int);
        assert(ds.push(d).subrange(1, ds.push(d).len() as int) =~= rest.push(d));
        lemma_digits_value_push(rest, d);
        let n = rest.len();
        assert(digits_value(ds.push(d)) == ds[0] as nat + 10 * (digits_value(rest) + d * pow10(n)));
        assert(10 * (digits_value(rest) + d * pow10(n)) == 10 * digits_value(rest) + d * (10
            * pow10(n))) by (nonlinear_arith);
        assert(pow10(ds.len()) == 10 * pow10(n));
    }
}

/// A digit sequence without a leading zero has a value of at least
/// `pow10(len - 1)`; in particular it is nonzero.
pub proof fn lemma_digits_value_lower(ds: Seq<u8>)
    requires
        all_digits(ds),
        no_leading_zero(ds),
        ds.len() > 0,
    ensures
        digits_value(ds) >= pow10((ds.len() - 1) as nat),
        digits_value(ds) >= 1,
    decreases ds.len(),
{
    if ds.len() == 1 {
        assert(ds.subrange(1, 1) =~= Seq::<u8>::empty());
        assert(digits_value(Seq::<u8>::empty()) == 0);
        assert(digits_value(ds) == ds[0] as nat);
        assert(pow10(0) == 1);
    } else {
        let rest = ds.subrange(1, ds.len() as int);
        assert(rest[rest.len() - 1] == ds[ds.len() - 1]);
        lemma_digits_value_lower(rest);
        let p = pow10((rest.len() - 1) as nat);
        assert(10 * digits_value(rest) >= 10 * p) by (nonlinear_arith)
            requires digits_value(rest) >= p;
        assert(pow10((ds.len() - 1) as nat) == 10 * p);
        lemma_pow10_pos((ds.len() - 1) as nat);
    }
}

/// The value splits at any position `k`: the low `k` digits give the value
/// modulo `pow10(k)`, the rest the quotient.
pub proof fn lemma_digits_value_split(ds: Seq<u8>, k: int)
    requires
        all_digits(ds),
        0 <= k <= ds.len(),
    ensures
        digits_value(ds) == digits_value(ds.subrange(0, k)) + pow10(k as nat) * digits_value(
            ds.subrange(k, ds.len() as int),
        ),
        digits_value(ds.subrange(0, k)) < pow10(k as nat),
    decreases k,
{
    if k == 0 {
        assert(ds.subrange(0, 0) =~= Seq::<u8>::empty());
        assert(digits_value(Seq::<u8>::empty()) == 0);
        assert(ds.subrange(0, ds.len() as int) =~= ds);
        assert(pow10(0) == 1);
        assert(digits_value(ds) == 0 + 1 * digits_value(ds));
    } else {
        let rest = ds.subrange(1, ds.len() as int);
        lemma_digits_value_split(rest, k - 1);
        let low = ds.subrange(0, k);
        let lowrest = rest.subrange(0, k - 1);
        let high = ds.subrange(k, ds.len() as int);
        assert(low.subrange(1, k) =~= lowrest);
        assert(rest.subrange(k - 1, rest.len() as int) =~= high);
        let p = pow10((k - 1) as nat);
        assert(digits_value(ds) == ds[0] as nat + 10 * digits_value(rest));
        assert(digits_value(rest) == digits_value(lowrest) + p * digits_value(high));
        assert(10 * (digits_value(lowrest) + p * digits_value(high)) == 10 * digits_value(lowrest)
            + (10 * p) * digits_value(high)) by (nonlinear_arith);
        assert(digits_value(low) == ds[0] as nat + 10 * digits_value(lowrest));
        assert(pow10(k as nat) == 10 * p);
        assert(digits_value(ds) == digits_value(low) + (10 * p) * digits_value(high));
        // bound
        assert(10 * digits_value(lowrest) <= 10 * (p - 1)) by (nonlinear_arith)
            requires digits_value(lowrest) < p;
        assert(digits_value(low) < 10 * p);
    }
}

/// Each digit is recovered from the value by division and remainder.
pub proof fn lemma_digit_extract(ds: Seq<u8>, i: int)
    requires
        all_digits(ds),
        0 <= i < ds.len(),
    ensures
        ds[i] as nat == (digits_value(ds) / pow10(i as nat)) % 10,
{
    lemma_digits_value_split(ds, i);
    let low = digits_value(ds.subrange(0, i));
    let high = ds.subrange(i, ds.len() as int);
    let p = pow10(i as nat);
    lemma_pow10_pos(i as nat);
    assert(digits_value(high) * p == p * digits_value(high)) by (nonlinear_arith);
    assert(digits_value(ds) as int == digits_value(high) as int * p as int + low as int);
    vstd::arithmetic::div_mod::lemma_fundamental_div_mod_converse(
        digits_value(ds) as int,
        p as int,
        digits_value(high) as int,
        low as int,
    );
    assert(digits_value(ds) as int / p as int == digits_value(high));
    let rest = high.subrange(1, high.len() as int);
    assert(digits_value(high) == high[0] as nat + 10 * digits_value(rest));
    assert(high[0] == ds[i]);
    vstd::arithmetic::div_mod::lemma_fundamental_div_mod_converse(
        digits_value(high) as int,
        10,
        digits_value(rest) as int,
        ds[i] as int,
    );
}

/// The whole value is below `pow10(len)`.
pub proof fn lemma_digits_value_upper(ds: Seq<u8>)
    requires
        all_digits(ds),
    ensures
        digits_value(ds) < pow10(ds.len()),
{
    lemma_digits_value_split(ds, ds.len() as int);
    assert(ds.subrange(0, ds.len() as int) =~= ds);
}

/// A sequence of zeros has value zero.
pub proof fn lemma_digits_value_zeros(ds: Seq<u8>)
    requires
        forall|i: int| 0 <= i < ds.len() ==> ds[i] == 0,
    ensures
        digits_value(ds) == 0,
    decreases ds.len(),
{
    if ds.len() > 0 {
        lemma_digits_value_zeros(ds.subrange(1, ds.len() as int));
    }
}

} // verus!
