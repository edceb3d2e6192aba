//! Exact fixed-point rendering of raw amounts.
//!
//! A raw amount `b` with `d` decimals denotes the rational `b / 10^d`.  It is
//! rendered with exactly six fraction digits, truncating anything below the
//! sixth digit: the string shows `scaled_value(b, d) = b * 10^6 / 10^d` with
//! a decimal point six places from the right.  A zero amount renders as the
//! literal string `"0"`.  Everything is integer arithmetic on the decimal
//! digits of `b`; no floating-point value is ever formed, so amounts above
//! 2^53 keep every digit.

use vstd::prelude::*;

use crate::amount::RawAmount;
use crate::digits::{
    all_digits, digits_value, lemma_digit_extract, lemma_digits_value_split,
    lemma_digits_value_upper, lemma_digits_value_zeros, lemma_pow10_add, lemma_pow10_increases,
    lemma_pow10_pos, no_leading_zero, pow10,
};

verus! {

/// The decimal digit `n` (below ten) as a character.
pub open spec fn digit_char(n: nat) -> char {
    if n == 0 {
        '0'
    } else if n == 1 {
        '1'
    } else if n == 2 {
        '2'
    } else if n == 3 {
        '3'
    } else if n == 4 {
        '4'
    } else if n == 5 {
        '5'
    } else if n == 6 {
        '6'
    } else if n == 7 {
        '7'
    } else if n == 8 {
        '8'
    } else {
        '9'
    }
}

/// The value of a digit character; other characters count as zero.
pub open spec fn char_digit(c: char) -> nat {
    if c == '0' {
        0
    } else if c == '1' {
        1
    } else if c == '2' {
        2
    } else if c == '3' {
        3
    } else if c == '4' {
        4
    } else if c == '5' {
        5
    } else if c == '6' {
        6
    } else if c == '7' {
        7
    } else if c == '8' {
        8
    } else if c == '9' {
        9
    } else {
        0
    }
}

/// The usual decimal rendering of `n`, without leading zeros (zero is "0").
pub open spec fn dec_str(n: nat) -> Seq<char>
    decreases n,
{
    if n < 10 {
        seq![digit_char(n)]
    } else {
        dec_str(n / 10).push(digit_char(n % 10))
    }
}

/// `f` rendered as exactly six digits, leading zeros kept (`f < 10^6`).
pub open spec fn pad6(f: nat) -> Seq<char> {
    Seq::new(6, |t: int| digit_char((f / pow10((5 - t) as nat)) % 10))
}

/// The amount in millionths: `b / 10^d` scaled by `10^6`, truncated.
pub open spec fn scaled_value(b: nat, d: nat) -> nat {
    b * pow10(6) / pow10(d)
}

/// What the formatter produces for raw amount `b` with `d` decimals.
pub open spec fn format_spec(b: nat, d: nat) -> Seq<char> {
    if b == 0 {
        seq!['0']
    } else {
        dec_str(scaled_value(b, d) / pow10(6)) + seq!['.'] + pad6(scaled_value(b, d) % pow10(6))
    }
}

/// Value of a string of digit characters.
pub open spec fn str_value(s: Seq<char>) -> nat
    decreases s.len(),
{
    if s.len() == 0 {
        0
    } else {
        str_value(s.drop_last()) * 10 + char_digit(s.last())
    }
}

/// Reads a formatted balance back as an integer count of millionths: the
/// digits before the decimal point times `10^6`, plus the six fraction
/// digits.  A string without a point (the rendering of zero) is a whole
/// number of units.
pub open spec fn parse_scaled6(s: Seq<char>) -> nat {
    if s.len() >= 7 && s[s.len() - 7] == '.' {
        str_value(s.subrange(0, s.len() - 7)) * pow10(6) + str_value(
            s.subrange(s.len() - 6, s.len() as int),
        )
    } else {
        str_value(s) * pow10(6)
    }
}

/// `digit_char` never collides with the decimal point and is inverted by
/// `char_digit`.
proof fn lemma_digit_char_inverse(n: nat)
    requires
        n < 10,
    ensures
        char_digit(digit_char(n)) == n,
        digit_char(n) != '.',
{
}

/// The rendering of a digit sequence (most significant digit first) is
/// `dec_str` of its value.
proof fn lemma_dec_str_digits(ds: Seq<u8>)
    requires
        all_digits(ds),
        no_leading_zero(ds),
        ds.len() > 0,
    ensures
        dec_str(digits_value(ds)) =~= Seq::new(
            ds.len(),
            |i: int| digit_char(ds[ds.len() - 1 - i] as nat),
        ),
    decreases ds.len(),
{
    let n = digits_value(ds);
    let rest = ds.subrange(1, ds.len() as int);
    assert(digits_value(Seq::<u8>::empty()) == 0);
    if ds.len() == 1 {
        assert(rest =~= Seq::<u8>::empty());
        assert(n == ds[0] as nat);
    } else {
        assert(rest[rest.len() - 1] == ds[ds.len() - 1]);
        crate::digits::lemma_digits_value_lower(rest);
        assert(n == ds[0] as nat + 10 * digits_value(rest));
        assert(10 * digits_value(rest) >= 10 * 1) by (nonlinear_arith)
            requires digits_value(rest) >= 1;
        assert(n >= 10);
        vstd::arithmetic::div_mod::lemma_fundamental_div_mod_converse(
            n as int,
            10,
            digits_value(rest) as int,
            ds[0] as int,
        );
        assert(n / 10 == digits_value(rest));
        assert(n % 10 == ds[0] as nat);
        lemma_dec_str_digits(rest);
        assert(dec_str(n) == dec_str(digits_value(rest)).push(digit_char(ds[0] as nat)));
    }
}

/// `dec_str` always yields at least one character.
proof fn lemma_dec_str_len(n: nat)
    ensures
        dec_str(n).len() >= 1,
    decreases n,
{
    if n >= 10 {
        lemma_dec_str_len(n / 10);
    }
}

/// `str_value` inverts `dec_str`.
proof fn lemma_str_value_dec_str(n: nat)
    ensures
        str_value(dec_str(n)) == n,
    decreases n,
{
    if n < 10 {
        let s = seq![digit_char(n)];
        assert(s.drop_last() =~= Seq::<char>::empty());
        assert(str_value(Seq::<char>::empty()) == 0);
        lemma_digit_char_inverse(n);
        assert(str_value(s) == 0 * 10 + char_digit(digit_char(n)));
    } else {
        let s = dec_str(n / 10).push(digit_char(n % 10));
        assert(s.drop_last() =~= dec_str(n / 10));
        lemma_str_value_dec_str(n / 10);
        lemma_digit_char_inverse(n % 10);
        assert(str_value(s) == (n / 10) * 10 + n % 10);
        assert((n / 10) * 10 + n % 10 == n) by {
            vstd::arithmetic::div_mod::lemma_fundamental_div_mod(n as int, 10);
        }
    }
}

/// The digit characters of `f`, `w` wide, most significant first.
spec fn fixed_chars(f: nat, w: nat) -> Seq<char> {
    Seq::new(w, |t: int| digit_char((f / pow10((w - 1 - t) as nat)) % 10))
}

/// `str_value` reads a fixed-width digit block back modulo `10^w`.
proof fn lemma_str_value_fixed(f: nat, w: nat)
    ensures
        str_value(fixed_chars(f, w)) == f % pow10(w),
    decreases w,
{
    if w == 0 {
        assert(fixed_chars(f, 0) =~= Seq::<char>::empty());
        assert(pow10(0) == 1);
        assert((f as int) % 1 == 0) by (nonlinear_arith);
    } else {
        let s = fixed_chars(f, w);
        let prev = fixed_chars(f / 10, (w - 1) as nat);
        assert forall|t: int| 0 <= t < w - 1 implies s[t] == prev[t] by {
            let k = (w - 2 - t) as nat;
            assert((f / 10) / pow10(k) == f / pow10((k + 1) as nat)) by {
                lemma_pow10_pos(k);
                vstd::arithmetic::div_mod::lemma_div_denominator(f as int, 10, pow10(k) as int);
                lemma_pow10_add(1, k);
                assert(pow10(1) == 10 * pow10(0));
                assert(pow10((k + 1) as nat) == pow10(1) * pow10(k)) by {
                    lemma_pow10_add(1, k);
                }
            }
            assert((w - 1 - t) as nat == (k + 1) as nat);
        }
        assert(s.drop_last() =~= prev);
        assert(s.last() == digit_char((f / pow10(0)) % 10));
        assert(pow10(0) == 1);
        assert(f as int / 1 == f as int) by {
            vstd::arithmetic::div_mod::lemma_div_basics_2(f as int);
        }
        lemma_str_value_fixed(f / 10, (w - 1) as nat);
        lemma_digit_char_inverse((f % 10) as nat);
        assert(str_value(s) == ((f / 10) % pow10((w - 1) as nat)) * 10 + f % 10);
        // f % 10^w == 10 * ((f / 10) % 10^(w-1)) + f % 10
        lemma_pow10_pos((w - 1) as nat);
        vstd::arithmetic::div_mod::lemma_breakdown(f as int, 10, pow10((w - 1) as nat) as int);
        assert(pow10(w) == 10 * pow10((w - 1) as nat));
        assert(((f / 10) % pow10((w - 1) as nat)) * 10 == 10 * ((f / 10) % pow10(
            (w - 1) as nat,
        ))) by (nonlinear_arith);
    }
}

/// `pad6` is the width-six digit block.
proof fn lemma_str_value_pad6(f: nat)
    requires
        f < pow10(6),
    ensures
        str_value(pad6(f)) == f,
{
    assert(pad6(f) =~= fixed_chars(f, 6));
    lemma_str_value_fixed(f, 6);
    vstd::arithmetic::div_mod::lemma_small_mod(f, pow10(6));
}

/// With at least six decimals, scaling down to millionths is division by
/// `10^(d-6)`.
pub proof fn lemma_scaled_high(b: nat, d: nat)
    requires
        d >= 6,
    ensures
        scaled_value(b, d) == b / pow10((d - 6) as nat),
{
    let p6 = pow10(6);
    let pd6 = pow10((d - 6) as nat);
    lemma_pow10_pos(6);
    lemma_pow10_pos((d - 6) as nat);
    lemma_pow10_add((d - 6) as nat, 6);
    assert(pow10(d) == pd6 * p6);
    vstd::arithmetic::div_mod::lemma_div_denominator(b as int * p6 as int, p6 as int, pd6 as int);
    assert((b * p6) as int / (p6 as int * pd6 as int) == ((b * p6) as int / p6 as int) / pd6
        as int);
    assert(p6 as int * pd6 as int == pd6 as int * p6 as int) by (nonlinear_arith);
    assert(b as int * p6 as int == p6 as int * b as int) by (nonlinear_arith);
    vstd::arithmetic::div_mod::lemma_div_multiples_vanish(b as int, p6 as int);
}

/// With fewer than six decimals, scaling to millionths is exact
/// multiplication by `10^(6-d)`.
pub proof fn lemma_scaled_low(b: nat, d: nat)
    requires
        d < 6,
    ensures
        scaled_value(b, d) == b * pow10((6 - d) as nat),
{
    let pd = pow10(d);
    let pe = pow10((6 - d) as nat);
    lemma_pow10_pos(d);
    lemma_pow10_add((6 - d) as nat, d);
    assert(pow10(6) == pe * pd);
    assert(b as int * (pe as int * pd as int) == pd as int * (b as int * pe as int))
        by (nonlinear_arith);
    vstd::arithmetic::div_mod::lemma_div_multiples_vanish(
        b as int * pe as int,
        pd as int,
    );
}

/// The formatted string parses back to exactly the truncated scaled value.
pub proof fn lemma_parse_format(b: nat, d: nat)
    ensures
        parse_scaled6(format_spec(b, d)) == scaled_value(b, d),
{
    let p6 = pow10(6);
    lemma_pow10_pos(6);
    lemma_pow10_pos(d);
    if b == 0 {
        let s = seq!['0'];
        assert(s.drop_last() =~= Seq::<char>::empty());
        assert(str_value(Seq::<char>::empty()) == 0);
        assert(str_value(s) == 0 * 10 + char_digit('0'));
        assert(b * p6 == 0) by (nonlinear_arith)
            requires b == 0;
        assert(scaled_value(b, d) == 0) by {
            vstd::arithmetic::div_mod::lemma_div_of0(pow10(d) as int);
        }
        assert(parse_scaled6(s) == str_value(s) * p6);
        assert(str_value(s) * p6 == 0) by (nonlinear_arith)
            requires str_value(s) == 0;
    } else {
        let v = scaled_value(b, d);
        let q = v / p6;
        let r = v % p6;
        let s = dec_str(q) + seq!['.'] + pad6(r);
        let il = dec_str(q).len();
        lemma_dec_str_len(q);
        assert(s.len() == il + 7);
        assert(s[il as int] == '.');
        assert(s[s.len() - 7] == '.');
        assert(s.subrange(0, s.len() - 7) =~= dec_str(q));
        assert(s.subrange(s.len() - 6, s.len() as int) =~= pad6(r));
        lemma_str_value_dec_str(q);
        vstd::arithmetic::div_mod::lemma_mod_pos_bound(v as int, p6 as int);
        lemma_str_value_pad6(r);
        assert(parse_scaled6(s) == q * p6 + r);
        assert(v == p6 * q + r) by {
            vstd::arithmetic::div_mod::lemma_fundamental_div_mod(v as int, p6 as int);
        }
        assert(q * p6 == p6 * q) by (nonlinear_arith);
    }
}

/// How the scaled value relates to the raw amount: exact below six decimals,
/// truncation of the low `d - 6` digits otherwise.
pub proof fn lemma_scaled_recovers(b: nat, d: nat)
    ensures
        d >= 6 ==> scaled_value(b, d) * pow10((d - 6) as nat) <= b < scaled_value(b, d) * pow10(
            (d - 6) as nat,
        ) + pow10((d - 6) as nat),
        d < 6 ==> scaled_value(b, d) == b * pow10((6 - d) as nat) && b == scaled_value(b, d)
            / pow10((6 - d) as nat),
{
    if d >= 6 {
        lemma_scaled_high(b, d);
        let p = pow10((d - 6) as nat);
        lemma_pow10_pos((d - 6) as nat);
        vstd::arithmetic::div_mod::lemma_fundamental_div_mod(b as int, p as int);
        vstd::arithmetic::div_mod::lemma_mod_pos_bound(b as int, p as int);
        assert(p * (b / p) == (b / p) * p) by (nonlinear_arith);
    } else {
        lemma_scaled_low(b, d);
        let p = pow10((6 - d) as nat);
        lemma_pow10_pos((6 - d) as nat);
        assert(b as int * p as int == p as int * b as int) by (nonlinear_arith);
        vstd::arithmetic::div_mod::lemma_div_multiples_vanish(b as int, p as int);
    }
}

/// Round trip: the formatted string, read back as a scaled decimal, recovers
/// the raw amount exactly — completely so below six decimals, and up to
/// truncation of the digits beyond the sixth fraction digit otherwise.
pub proof fn lemma_format_round_trip(b: nat, d: nat)
    ensures
        ({
            let micro = parse_scaled6(format_spec(b, d));
            &&& d >= 6 ==> micro * pow10((d - 6) as nat) <= b < micro * pow10((d - 6) as nat)
                + pow10((d - 6) as nat)
            &&& d < 6 ==> micro == b * pow10((6 - d) as nat)
        }),
{
    lemma_parse_format(b, d);
    lemma_scaled_recovers(b, d);
}

/// A single decimal digit as a one-character string.
fn digit_str(d: u8) -> (s: &'static str)
    requires
        d < 10,
    ensures
        s@ == seq![digit_char(d as nat)],
{
    if d == 0 {
        proof {
            reveal_strlit("0");
            assert("0"@ =~= seq![digit_char(0)]);
        }
        "0"
    } else if d == 1 {
        proof {
            reveal_strlit("1");
            assert("1"@ =~= seq![digit_char(1)]);
        }
        "1"
    } else if d == 2 {
        proof {
            reveal_strlit("2");
            assert("2"@ =~= seq![digit_char(2)]);
        }
        "2"
    } else if d == 3 {
        proof {
            reveal_strlit("3");
            assert("3"@ =~= seq![digit_char(3)]);
        }
        "3"
    } else if d == 4 {
        proof {
            reveal_strlit("4");
            assert("4"@ =~= seq![digit_char(4)]);
        }
        "4"
    } else if d == 5 {
        proof {
            reveal_strlit("5");
            assert("5"@ =~= seq![digit_char(5)]);
        }
        "5"
    } else if d == 6 {
        proof {
            reveal_strlit("6");
            assert("6"@ =~= seq![digit_char(6)]);
        }
        "6"
    } else if d == 7 {
        proof {
            reveal_strlit("7");
            assert("7"@ =~= seq![digit_char(7)]);
        }
        "7"
    } else if d == 8 {
        proof {
            reveal_strlit("8");
            assert("8"@ =~= seq![digit_char(8)]);
        }
        "8"
    } else {
        proof {
            reveal_strlit("9");
            assert("9"@ =~= seq![digit_char(9)]);
        }
        "9"
    }
}

/// Renders `amount / 10^decimals` with six fraction digits, truncating.
/// Zero renders as "0".
pub fn format_scaled(amount: &RawAmount, decimals: u8) -> (s: String)
    ensures
        s@ == format_spec(amount@, decimals as nat),
{
    let ghost b = amount@;
    if amount.is_zero() {
        let s = String::from_str("0");
        proof {
            reveal_strlit("0");
            assert(s@ =~= format_spec(0, decimals as nat));
        }
        return s;
    }
    let ds = amount.to_decimal_digits();
    proof {
        if ds@.len() == 0 {
            assert(digits_value(ds@) == 0);
            assert(false);
        }
    }
    // Digits of the scaled value: shift the point by `decimals - 6` places.
    let mut sds: Vec<u8> = Vec::new();
    if decimals >= 6 {
        let skip: usize = (decimals - 6) as usize;
        let mut i: usize = skip;
        if i > ds.len() {
            i = ds.len();
        }
        let start: Ghost<int> = Ghost(i as int);
        while i < ds.len()
            invariant
                0 <= start@ <= i <= ds.len(),
                sds@ =~= ds@.subrange(start@, i as int),
            decreases ds.len() - i,
        {
            let dg = ds[i];
            sds.push(dg);
            i = i + 1;
            proof {
                assert(ds@.subrange(start@, i as int) =~= ds@.subrange(start@, i - 1).push(
                    ds@[i - 1],
                ));
            }
        }
        proof {
            let sk = (decimals - 6) as nat;
            lemma_scaled_high(b, decimals as nat);
            if sk <= ds@.len() {
                assert(start@ == sk);
                assert(sds@ =~= ds@.subrange(sk as int, ds@.len() as int));
                lemma_digits_value_split(ds@, sk as int);
                lemma_pow10_pos(sk);
                assert(pow10(sk) * digits_value(sds@) == digits_value(sds@) * pow10(sk))
                    by (nonlinear_arith);
                vstd::arithmetic::div_mod::lemma_fundamental_div_mod_converse(
                    digits_value(ds@) as int,
                    pow10(sk) as int,
                    digits_value(sds@) as int,
                    digits_value(ds@.subrange(0, sk as int)) as int,
                );
                assert(digits_value(sds@) == b / pow10(sk));
                if sds@.len() > 0 {
                    assert(sds@[sds@.len() - 1] == ds@[ds@.len() - 1]);
                }
            } else {
                assert(start@ == ds@.len());
                assert(sds@ =~= Seq::<u8>::empty());
                lemma_digits_value_upper(ds@);
                lemma_pow10_increases(ds@.len(), sk);
                vstd::arithmetic::div_mod::lemma_basic_div(b as int, pow10(sk) as int);
                assert(digits_value(sds@) == b / pow10(sk));
            }
            assert(digits_value(sds@) == scaled_value(b, decimals as nat));
        }
    } else {
        let pad: usize = (6 - decimals) as usize;
        let mut i: usize = 0;
        while i < pad
            invariant
                0 <= i <= pad,
                sds@.len() == i,
                forall|k: int| 0 <= k < i ==> sds@[k] == 0,
            decreases pad - i,
        {
            sds.push(0u8);
            i = i + 1;
        }
        let zpart: Ghost<Seq<u8>> = Ghost(sds@);
        let mut j: usize = 0;
        while j < ds.len()
            invariant
                0 <= j <= ds.len(),
                sds@ =~= zpart@ + ds@.subrange(0, j as int),
                zpart@.len() == pad,
                forall|k: int| 0 <= k < pad ==> zpart@[k] == 0,
            decreases ds.len() - j,
        {
            let dg = ds[j];
            sds.push(dg);
            j = j + 1;
            proof {
                assert(zpart@ + ds@.subrange(0, j as int) =~= (zpart@ + ds@.subrange(0, j - 1)).push(
                    ds@[j - 1],
                ));
            }
        }
        proof {
            let pd = pad as nat;
            assert(sds@.subrange(0, pad as int) =~= zpart@);
            assert(sds@.subrange(pad as int, sds@.len() as int) =~= ds@);
            lemma_digits_value_split(sds@, pad as int);
            lemma_digits_value_zeros(zpart@);
            lemma_scaled_low(b, decimals as nat);
            assert(pow10(pd) * b == b * pow10(pd)) by (nonlinear_arith);
            assert(digits_value(sds@) == scaled_value(b, decimals as nat));
            assert(sds@[sds@.len() - 1] == ds@[ds@.len() - 1]);
        }
    }
    let v: Ghost<nat> = Ghost(scaled_value(b, decimals as nat));
    proof {
        assert(all_digits(sds@));
        assert(no_leading_zero(sds@));
        assert(digits_value(sds@) == v@);
        lemma_pow10_pos(6);
    }
    let mut s = String::new();
    // Integer part.
    if sds.len() > 6 {
        let mut i: usize = sds.len();
        while i > 6
            invariant
                6 <= i <= sds@.len(),
                all_digits(sds@),
                s@ =~= Seq::new(
                    (sds@.len() - i) as nat,
                    |t: int| digit_char(sds@[sds@.len() - 1 - t] as nat),
                ),
            decreases i,
        {
            i = i - 1;
            let c = digit_str(sds[i]);
            s.append(c);
            proof {
                assert(s@ =~= Seq::new(
                    (sds@.len() - i) as nat,
                    |t: int| digit_char(sds@[sds@.len() - 1 - t] as nat),
                ));
            }
        }
        proof {
            let high = sds@.subrange(6, sds@.len() as int);
            lemma_digits_value_split(sds@, 6);
            assert(pow10(6) * digits_value(high) == digits_value(high) * pow10(6))
                by (nonlinear_arith);
            vstd::arithmetic::div_mod::lemma_fundamental_div_mod_converse(
                v@ as int,
                pow10(6) as int,
                digits_value(high) as int,
                digits_value(sds@.subrange(0, 6)) as int,
            );
            assert(high[high.len() - 1] == sds@[sds@.len() - 1]);
            lemma_dec_str_digits(high);
            assert forall|t: int| 0 <= t < high.len() implies #[trigger] high[high.len() - 1 - t]
                == sds@[sds@.len() - 1 - t] by {}
            assert(s@ =~= dec_str(v@ / pow10(6)));
        }
    } else {
        let c = digit_str(0);
        s.append(c);
        proof {
            lemma_digits_value_upper(sds@);
            lemma_pow10_increases(sds@.len(), 6);
            vstd::arithmetic::div_mod::lemma_basic_div(v@ as int, pow10(6) as int);
            assert(Seq::<char>::empty() + seq![digit_char(0)] =~= dec_str(v@ / pow10(6)));
            assert(s@ =~= dec_str(v@ / pow10(6)));
        }
    }
    let ipart: Ghost<Seq<char>> = Ghost(s@);
    s.append(".");
    proof {
        reveal_strlit(".");
        assert(s@ =~= ipart@ + seq!['.']);
    }
    // Fraction part: six digits, most significant first.
    let f: Ghost<nat> = Ghost(v@ % pow10(6));
    proof {
        if sds@.len() >= 6 {
            lemma_digits_value_split(sds@, 6);
            let high = sds@.subrange(6, sds@.len() as int);
            assert(pow10(6) * digits_value(high) == digits_value(high) * pow10(6))
                by (nonlinear_arith);
            vstd::arithmetic::div_mod::lemma_fundamental_div_mod_converse(
                v@ as int,
                pow10(6) as int,
                digits_value(high) as int,
                digits_value(sds@.subrange(0, 6)) as int,
            );
            assert(f@ == digits_value(sds@.subrange(0, 6)));
        } else {
            lemma_digits_value_upper(sds@);
            lemma_pow10_increases(sds@.len(), 6);
            vstd::arithmetic::div_mod::lemma_small_mod(v@, pow10(6));
            assert(f@ == v@);
        }
    }
    let mut t: usize = 0;
    while t < 6
        invariant
            0 <= t <= 6,
            all_digits(sds@),
            digits_value(sds@) == v@,
            f@ == v@ % pow10(6),
            sds@.len() >= 6 ==> f@ == digits_value(sds@.subrange(0, 6)),
            sds@.len() < 6 ==> f@ == v@,
            s@ =~= ipart@ + seq!['.'] + Seq::new(
                t as nat,
                |k: int| digit_char((f@ / pow10((5 - k) as nat)) % 10),
            ),
        decreases 6 - t,
    {
        let j: usize = 5 - t;
        let dg: u8 = if j < sds.len() {
            sds[j]
        } else {
            0u8
        };
        proof {
            if j < sds@.len() {
                if sds@.len() >= 6 {
                    let low = sds@.subrange(0, 6);
                    lemma_digit_extract(low, j as int);
                    assert(low[j as int] == sds@[j as int]);
                } else {
                    lemma_digit_extract(sds@, j as int);
                }
                assert(dg as nat == (f@ / pow10(j as nat)) % 10);
            } else {
                // Digit above every stored one: it is zero.
                assert(sds@.len() < 6);
                lemma_digits_value_upper(sds@);
                lemma_pow10_increases(sds@.len(), j as nat);
                assert(f@ < pow10(j as nat));
                vstd::arithmetic::div_mod::lemma_basic_div(f@ as int, pow10(j as nat) as int);
                assert(dg as nat == (f@ / pow10(j as nat)) % 10);
            }
            assert(j as nat == (5 - t) as nat);
        }
        let c = digit_str(dg);
        s.append(c);
        t = t + 1;
        proof {
            assert(s@ =~= ipart@ + seq!['.'] + Seq::new(
                t as nat,
                |k: int| digit_char((f@ / pow10((5 - k) as nat)) % 10),
            ));
        }
    }
    proof {
        assert(Seq::new(6, |k: int| digit_char((f@ / pow10((5 - k) as nat)) % 10)) =~= pad6(f@));
        assert(s@ =~= dec_str(v@ / pow10(6)) + seq!['.'] + pad6(v@ % pow10(6)));
        assert(b != 0);
    }
    s
}

} // verus!
