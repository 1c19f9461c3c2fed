//! Decimal-to-binary64 conversion.
//!
//! The transport's decimal entry widens `mantissa * 10^exp` to a 64-bit
//! float. The outcome is classified exactly: a magnitude above the finite
//! binary64 range is an overflow; a value the 96-bit decimal converter
//! cannot hold is a reportable loss; everything else is rounded by the
//! outside decimal library.

use vstd::prelude::*;
use vstd::arithmetic::div_mod::lemma_fundamental_div_mod;
use crate::value::DecimalVal;

verus! {

/// 2^96 - 1: the largest mantissa the decimal converter accepts.
pub const MAX96: i128 = 79228162514264337593543950335;

/// floor(MAX96 / 10): mantissas up to this bound can absorb one more
/// decimal digit.
const FOLD_LIMIT: i128 = 7922816251426433759354395033;

/// floor(f64_max_int() / 10^270).
const Q270: u128 = 179769313486231570814527423731704356798;

/// 2^127.
const TWO127: u128 = 170141183460469231731687303715884105728;

/// The largest finite IEEE 754 binary64 value, as an exact integer:
/// (2^53 - 1) * 2^971.
pub open spec fn f64_max_int() -> int {
    179769313486231570814527423731704356798070567525844996598917476803157260780028538760589558632766878171540458953514382464234321326889464182768467546703537516986049910576551282076245490090389328944075868508455133942304583236903222948165808559332123348274797826204144723168738177180919299881250404026184124858368int
}

/// 10^e.
pub open spec fn pow10(e: nat) -> int
    decreases e,
{
    if e == 0 {
        1
    } else {
        10 * pow10((e - 1) as nat)
    }
}

/// The absolute value of a mantissa.
pub open spec fn dec_abs(m: int) -> int {
    if m >= 0 {
        m
    } else {
        -m
    }
}

/// The numeric value `m * 10^exp` lies above the finite binary64 range.
/// With a non-positive exponent the magnitude stays below 2^127, so only
/// positive exponents can overflow.
pub open spec fn dec_overflows(m: int, exp: int) -> bool {
    exp > 0 && dec_abs(m) * pow10(exp as nat) > f64_max_int()
}

/// Folds a positive exponent into the mantissa, one decimal digit at a
/// time, while the mantissa stays within 96 bits.
pub open spec fn fold_spec(m: int, e: int) -> (int, int)
    decreases (if e <= 0 { 0int } else { e }),
{
    if e <= 0 {
        (m, e)
    } else if -MAX96 <= m * 10 <= MAX96 {
        fold_spec(m * 10, e - 1)
    } else {
        (m, e)
    }
}

/// The canonical (mantissa, exponent) pair handed to the converter.
pub open spec fn normalize_spec(m: int, e: int) -> (int, int) {
    if m == 0 {
        (0, 0)
    } else if e > 0 {
        fold_spec(m, e)
    } else {
        (m, e)
    }
}

/// The normalization lands in the converter's domain: a scale between 0
/// and 28 and a mantissa within 96 bits.
pub open spec fn dec_convertible(m: int, e: int) -> bool {
    -28 <= normalize_spec(m, e).1 <= 0 && -MAX96 <= normalize_spec(m, e).0 <= MAX96
}

/// The failure modes of the decimal widening.
#[derive(Clone, Copy, Debug, PartialEq, Eq, Structural)]
pub enum DecimalError {
    /// The value lies outside the finite binary64 range.
    Overflow,
    /// The value is in range but outside the converter's domain.
    Loss,
}

/// The bit pattern of the IEEE 754 binary64 value that the decimal library
/// rounds `mantissa / 10^scale` to; a function of mantissa and scale alone.
pub uninterp spec fn f64_bits_of_decimal(mantissa: int, scale: int) -> u64;

/// Relies on rust_decimal::Decimal::from_i128_with_scale, which represents
/// `mantissa / 10^scale` exactly for a mantissa within 96 bits and a scale
/// of at most 28, and on its ToPrimitive::to_f64, which always returns the
/// binary64 rounding of that value; the result depends on the two
/// arguments alone.
#[verifier::external_body]
fn decimal_bits(mantissa: i128, scale: u32) -> (r: u64)
    requires
        scale <= 28,
        -MAX96 <= mantissa <= MAX96,
    ensures
        r == f64_bits_of_decimal(mantissa as int, scale as int),
{
    let d = rust_decimal::Decimal::from_i128_with_scale(mantissa, scale);
    rust_decimal::prelude::ToPrimitive::to_f64(&d).unwrap().to_bits()
}

/// Widens a decimal to binary64 bits. Succeeds exactly on the convertible
/// values; everything else is classified as overflow (above the finite
/// binary64 range) or reportable loss.
pub fn decimal_to_f64_bits(d: DecimalVal) -> (r: Result<u64, DecimalError>)
    ensures
        dec_convertible(d.mantissa as int, d.exp as int) ==> r == Result::<
            u64,
            DecimalError,
        >::Ok(
            f64_bits_of_decimal(
                normalize_spec(d.mantissa as int, d.exp as int).0,
                -normalize_spec(d.mantissa as int, d.exp as int).1,
            ),
        ),
        !dec_convertible(d.mantissa as int, d.exp as int) && dec_overflows(
            d.mantissa as int,
            d.exp as int,
        ) ==> r == Result::<u64, DecimalError>::Err(DecimalError::Overflow),
        !dec_convertible(d.mantissa as int, d.exp as int) && !dec_overflows(
            d.mantissa as int,
            d.exp as int,
        ) ==> r == Result::<u64, DecimalError>::Err(DecimalError::Loss),
{
    let m = d.mantissa;
    let e = d.exp;
    if m == 0 {
        return Ok(decimal_bits(0, 0));
    }
    if e > 0 {
        let mut fm: i128 = m;
        let mut fe: i32 = e;
        while fe > 0 && -FOLD_LIMIT <= fm && fm <= FOLD_LIMIT
            invariant
                fe >= 0,
                e > 0,
                m != 0,
                fm != 0,
                fold_spec(fm as int, fe as int) == fold_spec(m as int, e as int),
                fe < e ==> -MAX96 <= fm <= MAX96,
            decreases fe,
        {
            proof {
                assert(-MAX96 <= (fm as int) * 10 <= MAX96);
            }
            fm = fm * 10;
            fe = fe - 1;
        }
        proof {
            assert(fold_spec(fm as int, fe as int) == (fm as int, fe as int));
            assert(normalize_spec(m as int, e as int) == (fm as int, fe as int));
        }
        if fe == 0 {
            proof {
                assert(-MAX96 <= fm <= MAX96);
            }
            return Ok(decimal_bits(fm, 0));
        }
        // The exponent could not be folded away: the value lies outside the
        // converter's domain; decide whether it is an overflow.
        proof {
            lemma_fold_preserves(m as int, e as int);
            assert(dec_abs(fm as int) * pow10(fe as nat) == dec_abs(m as int) * pow10(e as nat));
            assert(!(-MAX96 <= (fm as int) * 10 <= MAX96));
            assert(dec_abs(fm as int) > FOLD_LIMIT);
        }
        let au = abs_u128(fm);
        if fe >= 281 {
            proof {
                lemma_overflow_high(fm as int, fe as int);
            }
            return Err(DecimalError::Overflow);
        }
        if fe <= 270 {
            proof {
                lemma_no_overflow_low(fm as int, fe as int);
            }
            return Err(DecimalError::Loss);
        }
        let k: u32 = (fe - 270) as u32;
        let p = pow10_u128(k);
        proof {
            lemma_pow10_pos(k as nat);
        }
        let limit = u128::MAX / p;
        if au > limit {
            proof {
                lemma_div_exceeds(au as int, p as int, u128::MAX as int);
                lemma_gray_overflow_big(fm as int, fe as int, p as int);
            }
            return Err(DecimalError::Overflow);
        }
        proof {
            lemma_div_within(au as int, p as int, u128::MAX as int);
        }
        let b = au * p;
        proof {
            lemma_gray_split(fm as int, fe as int);
            lemma_gray_cmp(b as int);
        }
        if b > Q270 {
            return Err(DecimalError::Overflow);
        }
        return Err(DecimalError::Loss);
    }
    if e >= -28 {
        if -MAX96 <= m && m <= MAX96 {
            return Ok(decimal_bits(m, (0 - e) as u32));
        }
        return Err(DecimalError::Loss);
    }
    Err(DecimalError::Loss)
}

/// The magnitude of a mantissa, as an unsigned 128-bit value.
fn abs_u128(m: i128) -> (r: u128)
    ensures
        r == dec_abs(m as int),
{
    if m >= 0 {
        m as u128
    } else {
        ((-1 - m) as u128) + 1
    }
}

/// 10^k as an unsigned 128-bit value.
fn pow10_u128(k: u32) -> (r: u128)
    requires
        k <= 38,
    ensures
        r == pow10(k as nat),
{
    let mut r: u128 = 1;
    let mut i: u32 = 0;
    while i < k
        invariant
            i <= k <= 38,
            r == pow10(i as nat),
        decreases k - i,
    {
        proof {
            lemma_pow10_ground();
            lemma_pow10_mono(i as nat + 1, 38);
        }
        r = r * 10;
        i = i + 1;
    }
    r
}

/// 10^(a + b) == 10^a * 10^b.
pub proof fn lemma_pow10_add(a: nat, b: nat)
    ensures
        pow10(a + b) == pow10(a) * pow10(b),
    decreases b,
{
    if b == 0 {
    } else {
        lemma_pow10_add(a, (b - 1) as nat);
        assert(pow10(a + b) == 10 * pow10((a + b - 1) as nat));
        assert(10 * (pow10(a) * pow10((b - 1) as nat)) == pow10(a) * (10 * pow10(
            (b - 1) as nat,
        ))) by (nonlinear_arith);
    }
}

/// 10^e is at least 1.
pub proof fn lemma_pow10_pos(e: nat)
    ensures
        pow10(e) >= 1,
    decreases e,
{
    if e > 0 {
        lemma_pow10_pos((e - 1) as nat);
    }
}

/// 10^a <= 10^b for a <= b.
pub proof fn lemma_pow10_mono(a: nat, b: nat)
    requires
        a <= b,
    ensures
        pow10(a) <= pow10(b),
    decreases b,
{
    if a < b {
        lemma_pow10_mono(a, (b - 1) as nat);
        lemma_pow10_pos((b - 1) as nat);
    }
}

/// Ground values of 10^e at the exponents the classification uses.
proof fn lemma_pow10_ground()
    ensures
        pow10(2) == 100,
        pow10(4) == 10000,
        pow10(8) == 100000000,
        pow10(16) == 10000000000000000,
        pow10(32) == 100000000000000000000000000000000int,
        pow10(38) == 100000000000000000000000000000000000000int,
        pow10(270)
            == 1000000000000000000000000000000000000000000000000000000000000000000000000000000000000000000000000000000000000000000000000000000000000000000000000000000000000000000000000000000000000000000000000000000000000000000000000000000000000000000000000000000000000000000000000000000int,
        pow10(281)
            == 100000000000000000000000000000000000000000000000000000000000000000000000000000000000000000000000000000000000000000000000000000000000000000000000000000000000000000000000000000000000000000000000000000000000000000000000000000000000000000000000000000000000000000000000000000000000000000int,
{
    assert(pow10(0) == 1);
    assert(pow10(1) == 10);
    assert(pow10(2) == 100);
    lemma_pow10_add(2, 2);
    assert(pow10(4) == 10000);
    lemma_pow10_add(4, 4);
    assert(pow10(8) == 100000000);
    lemma_pow10_add(8, 8);
    assert(pow10(16) == 10000000000000000);
    lemma_pow10_add(16, 16);
    assert(pow10(32) == 100000000000000000000000000000000int);
    lemma_pow10_add(32, 4);
    assert(pow10(36) == 1000000000000000000000000000000000000int);
    lemma_pow10_add(36, 2);
    assert(pow10(38) == 100000000000000000000000000000000000000int);
    lemma_pow10_add(32, 32);
    assert(pow10(64)
        == 10000000000000000000000000000000000000000000000000000000000000000int);
    lemma_pow10_add(64, 64);
    assert(pow10(128)
        == 100000000000000000000000000000000000000000000000000000000000000000000000000000000000000000000000000000000000000000000000000000000int);
    lemma_pow10_add(128, 128);
    assert(pow10(256)
        == 10000000000000000000000000000000000000000000000000000000000000000000000000000000000000000000000000000000000000000000000000000000000000000000000000000000000000000000000000000000000000000000000000000000000000000000000000000000000000000000000000000000000000000int);
    lemma_pow10_add(256, 8);
    assert(pow10(264)
        == 1000000000000000000000000000000000000000000000000000000000000000000000000000000000000000000000000000000000000000000000000000000000000000000000000000000000000000000000000000000000000000000000000000000000000000000000000000000000000000000000000000000000000000000000000int);
    lemma_pow10_add(264, 4);
    assert(pow10(268)
        == 10000000000000000000000000000000000000000000000000000000000000000000000000000000000000000000000000000000000000000000000000000000000000000000000000000000000000000000000000000000000000000000000000000000000000000000000000000000000000000000000000000000000000000000000000000int);
    lemma_pow10_add(268, 2);
    assert(pow10(270)
        == 1000000000000000000000000000000000000000000000000000000000000000000000000000000000000000000000000000000000000000000000000000000000000000000000000000000000000000000000000000000000000000000000000000000000000000000000000000000000000000000000000000000000000000000000000000000int);
    lemma_pow10_add(270, 8);
    assert(pow10(278)
        == 100000000000000000000000000000000000000000000000000000000000000000000000000000000000000000000000000000000000000000000000000000000000000000000000000000000000000000000000000000000000000000000000000000000000000000000000000000000000000000000000000000000000000000000000000000000000000int);
    lemma_pow10_add(278, 2);
    assert(pow10(280)
        == 10000000000000000000000000000000000000000000000000000000000000000000000000000000000000000000000000000000000000000000000000000000000000000000000000000000000000000000000000000000000000000000000000000000000000000000000000000000000000000000000000000000000000000000000000000000000000000int);
    lemma_pow10_add(280, 1);
    assert(pow10(281)
        == 100000000000000000000000000000000000000000000000000000000000000000000000000000000000000000000000000000000000000000000000000000000000000000000000000000000000000000000000000000000000000000000000000000000000000000000000000000000000000000000000000000000000000000000000000000000000000000int);
}

/// Folding preserves the numeric value and stops only when one more digit
/// would leave 96 bits.
proof fn lemma_fold_preserves(m: int, e: int)
    requires
        e >= 0,
    ensures
        0 <= fold_spec(m, e).1 <= e,
        dec_abs(fold_spec(m, e).0) * pow10(fold_spec(m, e).1 as nat) == dec_abs(m) * pow10(
            e as nat,
        ),
        fold_spec(m, e).1 > 0 ==> !(-MAX96 <= fold_spec(m, e).0 * 10 <= MAX96),
    decreases e,
{
    if e <= 0 {
    } else if -MAX96 <= m * 10 <= MAX96 {
        lemma_fold_preserves(m * 10, e - 1);
        assert(dec_abs(m * 10) == dec_abs(m) * 10) by (nonlinear_arith);
        assert(pow10(e as nat) == 10 * pow10((e - 1) as nat));
        assert((dec_abs(m) * 10) * pow10((e - 1) as nat) == dec_abs(m) * (10 * pow10(
            (e - 1) as nat,
        ))) by (nonlinear_arith);
    } else {
    }
}

/// A mantissa past the folding bound with exponent at least 281 overflows.
proof fn lemma_overflow_high(m1: int, e1: int)
    requires
        dec_abs(m1) > FOLD_LIMIT,
        e1 >= 281,
    ensures
        dec_abs(m1) * pow10(e1 as nat) > f64_max_int(),
{
    lemma_pow10_ground();
    lemma_pow10_mono(281, e1 as nat);
    assert(dec_abs(m1) * pow10(e1 as nat) >= (FOLD_LIMIT + 1) * pow10(281)) by (nonlinear_arith)
        requires
            dec_abs(m1) >= FOLD_LIMIT + 1,
            pow10(e1 as nat) >= pow10(281),
            pow10(281) >= 1,
    ;
    assert((FOLD_LIMIT + 1) * pow10(281) > f64_max_int());
}

/// A 128-bit mantissa with exponent at most 270 stays within the finite
/// binary64 range.
proof fn lemma_no_overflow_low(m1: int, e1: int)
    requires
        -170141183460469231731687303715884105728 <= m1 <= 170141183460469231731687303715884105728,
        0 <= e1 <= 270,
    ensures
        dec_abs(m1) * pow10(e1 as nat) <= f64_max_int(),
{
    lemma_pow10_ground();
    lemma_pow10_mono(e1 as nat, 270);
    lemma_pow10_pos(e1 as nat);
    assert(dec_abs(m1) * pow10(e1 as nat) <= 170141183460469231731687303715884105728int * pow10(
        270,
    )) by (nonlinear_arith)
        requires
            0 <= dec_abs(m1) <= 170141183460469231731687303715884105728int,
            1 <= pow10(e1 as nat) <= pow10(270),
    ;
    assert(170141183460469231731687303715884105728int * pow10(270) < f64_max_int());
}

/// If a exceeds floor(c / p), then a * p exceeds c.
proof fn lemma_div_exceeds(a: int, p: int, c: int)
    requires
        p >= 1,
        c >= 0,
        a > c / p,
    ensures
        a * p > c,
{
    lemma_fundamental_div_mod(c, p);
    assert(a * p >= (c / p + 1) * p) by (nonlinear_arith)
        requires
            a >= c / p + 1,
            p >= 1,
    ;
    assert((c / p + 1) * p == (c / p) * p + p) by (nonlinear_arith);
}

/// If a is at most floor(c / p), then a * p is at most c.
proof fn lemma_div_within(a: int, p: int, c: int)
    requires
        p >= 1,
        c >= 0,
        0 <= a <= c / p,
    ensures
        a * p <= c,
{
    lemma_fundamental_div_mod(c, p);
    assert(a * p <= (c / p) * p) by (nonlinear_arith)
        requires
            0 <= a <= c / p,
            p >= 1,
    ;
}

/// In the window 271..=280, the magnitude splits as b * 10^270 with
/// b = |m1| * 10^(e1 - 270).
proof fn lemma_gray_split(m1: int, e1: int)
    requires
        271 <= e1 <= 280,
    ensures
        dec_abs(m1) * pow10(e1 as nat) == (dec_abs(m1) * pow10((e1 - 270) as nat)) * pow10(270),
{
    lemma_pow10_add((e1 - 270) as nat, 270);
    assert(dec_abs(m1) * (pow10((e1 - 270) as nat) * pow10(270)) == (dec_abs(m1) * pow10(
        (e1 - 270) as nat,
    )) * pow10(270)) by (nonlinear_arith);
}

/// A magnitude of at least 2^128 before the final 10^270 factor overflows.
proof fn lemma_gray_overflow_big(m1: int, e1: int, p: int)
    requires
        271 <= e1 <= 280,
        p == pow10((e1 - 270) as nat),
        dec_abs(m1) * p > 340282366920938463463374607431768211455int,
    ensures
        dec_abs(m1) * pow10(e1 as nat) > f64_max_int(),
{
    lemma_pow10_ground();
    lemma_gray_split(m1, e1);
    assert((dec_abs(m1) * p) * pow10(270) >= 340282366920938463463374607431768211456int * pow10(
        270,
    )) by (nonlinear_arith)
        requires
            dec_abs(m1) * p >= 340282366920938463463374607431768211456int,
            pow10(270) >= 1,
    ;
    assert(340282366920938463463374607431768211456int * pow10(270) > f64_max_int());
}

/// Against the one bracketing constant: b * 10^270 exceeds the binary64
/// range exactly when b exceeds floor(f64_max_int() / 10^270).
proof fn lemma_gray_cmp(b: int)
    requires
        b >= 0,
    ensures
        b * pow10(270) > f64_max_int() <==> b > Q270,
{
    lemma_pow10_ground();
    assert(Q270 * pow10(270) <= f64_max_int());
    assert((Q270 + 1) * pow10(270) > f64_max_int());
    if b > Q270 {
        assert(b * pow10(270) >= (Q270 + 1) * pow10(270)) by (nonlinear_arith)
            requires
                b >= Q270 + 1,
                pow10(270) >= 1,
        ;
    } else {
        assert(b * pow10(270) <= Q270 * pow10(270)) by (nonlinear_arith)
            requires
                0 <= b <= Q270,
                pow10(270) >= 1,
        ;
    }
}

} // verus!
