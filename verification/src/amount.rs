//! The reversible compression of satoshi amounts used by the chainstate.
//!
//! Bitcoin Core stores an amount `n` as a shuffled decimal form: the count of
//! trailing decimal zeroes (capped at 9) and the remaining mantissa digits.
//! Decompression is a total, exact integer computation with no rounding.

use vstd::prelude::*;

verus! {

use vstd::arithmetic::div_mod::lemma_fundamental_div_mod;
use vstd::arithmetic::div_mod::lemma_fundamental_div_mod_converse;
use vstd::arithmetic::div_mod::lemma_div_is_ordered;
use vstd::arithmetic::div_mod::lemma_div_denominator;

pub open spec fn pow10(e: nat) -> nat
    decreases e,
{
    if e == 0 {
        1
    } else {
        10 * pow10((e - 1) as nat)
    }
}

/// The decompressed satoshi amount for a stored compressed value `x`:
/// `x - 1` splits into an exponent (its last decimal digit) and a mantissa,
/// and a mantissa digit withheld by the compressor is restored when the
/// exponent is below 9.
pub open spec fn decompress_amount(x: nat) -> nat {
    if x == 0 {
        0
    } else {
        let n0 = (x - 1) as nat;
        let e = n0 % 10;
        let n1 = n0 / 10;
        if e < 9 {
            ((n1 / 9) * 10 + (n1 % 9) + 1) * pow10(e)
        } else {
            (n1 + 1) * pow10(9)
        }
    }
}

/// How many factors of 10 the compressor strips from `n`: the count of
/// trailing decimal zeroes, capped at `cap`.
pub open spec fn pow10_exponent(n: nat, cap: nat) -> nat
    decreases cap,
{
    if cap == 0 || n == 0 || n % 10 != 0 {
        0
    } else {
        1 + pow10_exponent(n / 10, (cap - 1) as nat)
    }
}

/// Bitcoin Core's forward amount compression: strip up to 9 trailing decimal
/// zeroes from `n`, then fold the zero count and the mantissa's last digit
/// (always nonzero when fewer than 9 zeroes were stripped) into one integer.
pub open spec fn compress_amount(n: nat) -> nat {
    if n == 0 {
        0
    } else {
        let e = pow10_exponent(n, 9);
        let m = n / pow10(e);
        if e < 9 {
            (1 + ((m / 10) * 9 + ((m % 10) - 1)) * 10 + e) as nat
        } else {
            (1 + (m - 1) * 10 + 9) as nat
        }
    }
}

proof fn lemma_pow10_pos(e: nat)
    ensures
        pow10(e) >= 1,
    decreases e,
{
    if e > 0 {
        lemma_pow10_pos((e - 1) as nat);
    }
}

proof fn lemma_pow10_monotone(a: nat, b: nat)
    requires
        a <= b,
    ensures
        pow10(a) <= pow10(b),
    decreases b,
{
    if a < b {
        lemma_pow10_monotone(a, (b - 1) as nat);
        lemma_pow10_pos((b - 1) as nat);
    }
}

proof fn lemma_pow10_exponent_le(n: nat, cap: nat)
    ensures
        pow10_exponent(n, cap) <= cap,
    decreases cap,
{
    if !(cap == 0 || n == 0 || n % 10 != 0) {
        lemma_pow10_exponent_le(n / 10, (cap - 1) as nat);
    }
}

/// Stripping the counted zeroes divides `n` exactly, the quotient is
/// positive, and when fewer than `cap` zeroes were counted the quotient has
/// no further factor of 10.
proof fn lemma_pow10_exponent_div(n: nat, cap: nat)
    requires
        n > 0,
    ensures
        n == (n / pow10(pow10_exponent(n, cap))) * pow10(pow10_exponent(n, cap)),
        n / pow10(pow10_exponent(n, cap)) > 0,
        pow10_exponent(n, cap) < cap ==> (n / pow10(pow10_exponent(n, cap))) % 10 != 0,
    decreases cap,
{
    let e = pow10_exponent(n, cap);
    if cap == 0 || n % 10 != 0 {
        assert(e == 0);
        assert(pow10(0) == 1);
        assert(n / 1 == n) by (nonlinear_arith);
    } else {
        let n2 = n / 10;
        lemma_fundamental_div_mod(n as int, 10);
        assert(n == n2 * 10);
        assert(n2 > 0);
        lemma_pow10_exponent_div(n2, (cap - 1) as nat);
        let e2 = pow10_exponent(n2, (cap - 1) as nat);
        assert(e == 1 + e2);
        lemma_pow10_pos(e2);
        lemma_div_denominator(n as int, 10, pow10(e2) as int);
        let p2: int = pow10(e2) as int;
        let p: int = pow10(e) as int;
        assert(p == 10 * p2);
        assert(n as int / (10 * p2) == (n as int / 10) / p2);
        let m: int = n2 as int / p2;
        assert(n as int / p == m);
        assert(n2 == m * p2);
        assert(m * (10 * p2) == (m * p2) * 10) by (nonlinear_arith);
        assert(n == m * p);
    }
}

/// Law: decompression is the exact left-inverse of Bitcoin Core's forward
/// amount compression, for every satoshi amount.
pub proof fn lemma_amount_round_trip(n: nat)
    ensures
        decompress_amount(compress_amount(n)) == n,
{
    if n > 0 {
        let e = pow10_exponent(n, 9);
        let m = n / pow10(e);
        lemma_pow10_exponent_div(n, 9);
        lemma_pow10_exponent_le(n, 9);
        assert(e <= 9);
        if e < 9 {
            let d = m % 10;
            let q = m / 10;
            lemma_fundamental_div_mod(m as int, 10);
            assert(d != 0);
            let a: int = q * 9 + (d - 1);
            let x: nat = (1 + a * 10 + e) as nat;
            assert(compress_amount(n) == x);
            let n0 = (x - 1) as nat;
            assert(n0 == a * 10 + e);
            lemma_fundamental_div_mod_converse(n0 as int, 10, a as int, e as int);
            assert(n0 % 10 == e);
            assert(n0 / 10 == a);
            lemma_fundamental_div_mod_converse(a as int, 9, q as int, d - 1);
            assert(a % 9 == d - 1);
            assert(a / 9 == q);
            assert(decompress_amount(x) == (q * 10 + d) * pow10(e));
            assert(q * 10 + d == m);
            assert(decompress_amount(x) == n);
        } else {
            let x: nat = (1 + (m - 1) * 10 + 9) as nat;
            assert(compress_amount(n) == x);
            let n0 = (x - 1) as nat;
            lemma_fundamental_div_mod_converse(n0 as int, 10, m - 1, 9);
            assert(n0 % 10 == 9);
            assert(n0 / 10 == m - 1);
            assert(decompress_amount(x) == m * pow10(9));
            assert(decompress_amount(x) == n);
        }
    }
}

/// Decompresses a stored amount. The caller must know the result fits an
/// `i64`; `decompress_value_checked` tests that at run time.
pub fn decompress_value(x: i64) -> (r: i64)
    requires
        0 <= x,
        decompress_amount(x as nat) <= i64::MAX,
    ensures
        r == decompress_amount(x as nat),
{
    if x == 0 {
        return 0;
    }
    let n0 = x - 1;
    let e = n0 % 10;
    let n1 = n0 / 10;
    let n: i64 = if e < 9 {
        proof {
            lemma_mantissa_fits(n1);
        }
        (n1 / 9) * 10 + (n1 % 9) + 1
    } else {
        n1 + 1
    };
    proof {
        lemma_pow10_pos(e as nat);
        assert(n * 1 <= n * pow10(e as nat)) by (nonlinear_arith)
            requires
                n >= 0,
                1 <= pow10(e as nat),
        ;
    }
    let mut result: i64 = n;
    let mut k: i64 = 0;
    while k < e
        invariant
            0 <= k <= e,
            e <= 9,
            0 < n,
            result == n * pow10(k as nat),
            n * pow10(e as nat) <= i64::MAX,
        decreases e - k,
    {
        proof {
            lemma_pow10_monotone((k + 1) as nat, e as nat);
            assert(n * pow10((k + 1) as nat) <= n * pow10(e as nat)) by (nonlinear_arith)
                requires
                    n >= 0,
                    pow10((k + 1) as nat) <= pow10(e as nat),
            ;
            assert(n * pow10((k + 1) as nat) == (n * pow10(k as nat)) * 10) by (nonlinear_arith)
                requires
                    pow10((k + 1) as nat) == 10 * pow10(k as nat),
            ;
        }
        result = result * 10;
        k = k + 1;
    }
    result
}

/// The reconstructed mantissa never overflows an `i64`, whatever the stored
/// compressed value was.
proof fn lemma_mantissa_fits(n1: i64)
    requires
        0 <= n1 <= i64::MAX / 10,
    ensures
        (n1 / 9) * 10 + (n1 % 9) + 1 <= i64::MAX,
{
    lemma_div_is_ordered(n1 as int, i64::MAX / 10, 9);
}

/// Decompresses a stored amount, reporting a result that does not fit an
/// `i64` as `None` instead of masking it.
pub fn decompress_value_checked(x: i64) -> (r: Option<i64>)
    requires
        0 <= x,
    ensures
        r matches Some(v) ==> v == decompress_amount(x as nat) && decompress_amount(x as nat)
            <= i64::MAX,
        r is None ==> decompress_amount(x as nat) > i64::MAX,
{
    if x == 0 {
        return Some(0);
    }
    let n0 = x - 1;
    let e = n0 % 10;
    let n1 = n0 / 10;
    let n: i64 = if e < 9 {
        proof {
            lemma_mantissa_fits(n1);
        }
        (n1 / 9) * 10 + (n1 % 9) + 1
    } else {
        n1 + 1
    };
    let ghost target: nat = decompress_amount(x as nat);
    proof {
        assert(pow10(0) == 1);
        assert(n * pow10(0) == n) by (nonlinear_arith)
            requires
                pow10(0) == 1,
        ;
        assert(target == n * pow10(e as nat));
    }
    let mut result: i64 = n;
    let mut k: i64 = 0;
    while k < e
        invariant
            0 <= k <= e,
            e <= 9,
            0 < n,
            0 <= x,
            result == n * pow10(k as nat),
            target == n * pow10(e as nat),
            target == decompress_amount(x as nat),
        decreases e - k,
    {
        proof {
            lemma_pow10_monotone((k + 1) as nat, e as nat);
            assert(n * pow10((k + 1) as nat) <= n * pow10(e as nat)) by (nonlinear_arith)
                requires
                    n >= 0,
                    pow10((k + 1) as nat) <= pow10(e as nat),
            ;
            assert(n * pow10((k + 1) as nat) == (n * pow10(k as nat)) * 10) by (nonlinear_arith)
                requires
                    pow10((k + 1) as nat) == 10 * pow10(k as nat),
            ;
        }
        if result > i64::MAX / 10 {
            proof {
                lemma_fundamental_div_mod(i64::MAX as int, 10);
                assert(result * 10 > i64::MAX);
                assert(n * pow10((k + 1) as nat) == result * 10);
                assert(target >= n * pow10((k + 1) as nat));
            }
            return None;
        }
        result = result * 10;
        k = k + 1;
    }
    Some(result)
}

} // verus!
