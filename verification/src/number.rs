//! Exact decimal numbers for the assertion language.
//!
//! A value is `sign * mant * 10^exp` with the mantissa free of trailing
//! zeros, which makes the representation canonical. Comparison is exact
//! integer arithmetic on a common scale.

use vstd::prelude::*;

use vstd::arithmetic::power::pow;
use vstd::arithmetic::power::lemma_pow_adds;
use vstd::arithmetic::power::lemma_pow_positive;
use vstd::arithmetic::power::lemma_pow_increases;
use vstd::arithmetic::mul::lemma_mul_inequality;
use vstd::arithmetic::mul::lemma_mul_strict_inequality;
use crate::text::all_digits;
use crate::text::digits_val;
use crate::text::is_digit;
use crate::text::parse_u64;
use crate::variable::resolver::run_end;
use crate::variable::resolver::lemma_run_end;
use crate::variable::resolver::lemma_run_end_is;

verus! {

/// A decimal number: `sign * mant * 10^exp`.
#[derive(Clone, Copy, PartialEq, Eq, Debug)]
pub struct Number {
    pub neg: bool,
    pub mant: u64,
    pub exp: i64,
}

/// Canonical form: zero is positive with exponent zero, a non-zero
/// mantissa carries no trailing zero, and the exponent stays in a range
/// that keeps scale arithmetic inside machine integers.
pub open spec fn num_wf(n: Number) -> bool {
    &&& (n.mant == 0 ==> !n.neg && n.exp == 0)
    &&& (n.mant > 0 ==> n.mant % 10 != 0)
    &&& -300000 <= n.exp <= 300000
}

/// The value as an integer once scaled by `10^-m`, defined for `m <= exp`.
pub open spec fn scaled(n: Number, m: int) -> int {
    let mag = n.mant * pow(10, (n.exp - m) as nat);
    if n.neg {
        -mag
    } else {
        mag
    }
}

/// The common scale of two numbers.
pub open spec fn min_exp(a: Number, b: Number) -> int {
    if a.exp <= b.exp {
        a.exp as int
    } else {
        b.exp as int
    }
}

/// `a < b` as rationals.
pub open spec fn num_lt(a: Number, b: Number) -> bool {
    scaled(a, min_exp(a, b)) < scaled(b, min_exp(a, b))
}

/// `a == b` as rationals.
pub open spec fn num_eq_val(a: Number, b: Number) -> bool {
    scaled(a, min_exp(a, b)) == scaled(b, min_exp(a, b))
}

/// A three-way comparison outcome.
#[derive(Clone, Copy, PartialEq, Eq, Debug)]
pub enum Ord3 {
    Lt,
    Eq,
    Gt,
}

/// How many decimal digits a positive integer has, bracketed by powers of
/// ten.
fn ndigits_u64(m: u64) -> (d: usize)
    requires
        m >= 1,
    ensures
        1 <= d <= 20,
        pow(10, (d - 1) as nat) <= m < pow(10, d as nat),
{
    let mut x: u64 = m;
    let mut d: usize = 0;
    proof {
        assert(pow(10, 0) == 1) by {
            vstd::arithmetic::power::lemma_pow0(10);
        }
    }
    while x > 0
        invariant
            0 <= d,
            x as int * pow(10, d as nat) <= m as int,
            (m as int) < (x + 1) as int * pow(10, d as nat),
            x == 0 ==> d >= 1 && pow(10, (d - 1) as nat) <= m as int,
            d <= 20,
        decreases x,
    {
        let ghost x0 = x as int;
        let ghost d0 = d as nat;
        let x1 = x / 10;
        proof {
            lemma_pow_positive(10, d0);
            let p = pow(10, d0);
            assert(pow(10, (d0 + 1) as nat) == 10 * p) by {
                lemma_pow_adds(10, 1nat, d0);
                vstd::arithmetic::power::lemma_pow1(10);
            }
            assert(x1 as int * (10 * p) <= x0 * p) by (nonlinear_arith)
                requires
                    p > 0,
                    x1 == x0 / 10,
                    x0 >= 0,
            ;
            assert((m as int) < (x1 + 1) as int * (10 * p)) by (nonlinear_arith)
                requires
                    p > 0,
                    x1 == x0 / 10,
                    x0 >= 0,
                    (m as int) < (x0 + 1) * p,
            ;
            if x1 == 0 {
                // The last digit: x0 is in 1..=9, so m >= pow(10, d).
                assert(x0 >= 1);
                assert(x0 * p >= p) by (nonlinear_arith)
                    requires
                        p > 0,
                        x0 >= 1,
                ;
            }
            // d stays at most 20 because m < 2^64 < 10^20.
            if d0 + 1 > 20 {
                assert(pow(10, 20) > u64::MAX) by {
                    vstd::arithmetic::power::lemma_pow0(10);
                    reveal_with_fuel(pow, 21);
                }
                assert(pow(10, d0) >= pow(10, 20)) by {
                    lemma_pow_increases(10, 20, d0);
                }
                assert(x0 * pow(10, d0) >= pow(10, d0)) by (nonlinear_arith)
                    requires
                        x0 >= 1,
                        pow(10, d0) > 0,
                ;
                assert(false);
            }
        }
        x = x1;
        d = d + 1;
    }
    proof {
        assert(x == 0);
        assert(d >= 1);
        assert(pow(10, (d - 1) as nat) <= m as int);
        assert((m as int) < (x + 1) as int * pow(10, d as nat));
        assert((x + 1) as int * pow(10, d as nat) == pow(10, d as nat)) by (nonlinear_arith)
            requires
                x == 0,
        ;
        assert((m as int) < pow(10, d as nat));
    }
    d
}

/// `10^d` as a wide integer, for `d` at most 38.
fn pow10_u128(d: usize) -> (r: u128)
    requires
        d <= 38,
    ensures
        r as int == pow(10, d as nat),
{
    let mut i: usize = 0;
    let mut r: u128 = 1;
    proof {
        assert(pow(10, 0) == 1) by {
            vstd::arithmetic::power::lemma_pow0(10);
        }
        assert(pow(10, 38) < u128::MAX) by {
            reveal_with_fuel(pow, 39);
        }
    }
    while i < d
        invariant
            0 <= i <= d <= 38,
            r as int == pow(10, i as nat),
        decreases d - i,
    {
        proof {
            assert(pow(10, (i + 1) as nat) == 10 * pow(10, i as nat)) by {
                lemma_pow_adds(10, 1nat, i as nat);
                vstd::arithmetic::power::lemma_pow1(10);
            }
            assert(pow(10, (i + 1) as nat) <= pow(10, 38)) by {
                lemma_pow_increases(10, (i + 1) as nat, 38);
            }
            assert(pow(10, 38) < u128::MAX) by {
                reveal_with_fuel(pow, 39);
            }
        }
        r = r * 10;
        i = i + 1;
    }
    r
}

/// A smaller most-significant-digit position means a smaller magnitude.
proof fn lemma_msd_lt(a: Number, b: Number, da: int, db: int, m: int)
    requires
        a.mant >= 1,
        b.mant >= 1,
        1 <= da,
        1 <= db,
        pow(10, (da - 1) as nat) <= a.mant < pow(10, da as nat),
        pow(10, (db - 1) as nat) <= b.mant < pow(10, db as nat),
        da + a.exp < db + b.exp,
        m <= a.exp,
        m <= b.exp,
    ensures
        a.mant * pow(10, (a.exp - m) as nat) < b.mant * pow(10, (b.exp - m) as nat),
{
    let pa = pow(10, (a.exp - m) as nat);
    let pb = pow(10, (b.exp - m) as nat);
    lemma_pow_positive(10, (a.exp - m) as nat);
    lemma_pow_positive(10, (b.exp - m) as nat);
    // a.mant * pa < 10^(da + a.exp - m)
    assert(a.mant * pa < pow(10, da as nat) * pa) by {
        lemma_mul_strict_inequality(a.mant as int, pow(10, da as nat), pa);
    }
    assert(pow(10, da as nat) * pa == pow(10, (da + a.exp - m) as nat)) by {
        lemma_pow_adds(10, da as nat, (a.exp - m) as nat);
    }
    // 10^(da + a.exp - m) <= 10^(db - 1 + b.exp - m)
    assert(pow(10, (da + a.exp - m) as nat) <= pow(10, (db - 1 + b.exp - m) as nat)) by {
        lemma_pow_increases(10, (da + a.exp - m) as nat, (db - 1 + b.exp - m) as nat);
    }
    // 10^(db - 1 + b.exp - m) <= b.mant * pb
    assert(pow(10, (db - 1 + b.exp - m) as nat) == pow(10, (db - 1) as nat) * pb) by {
        lemma_pow_adds(10, (db - 1) as nat, (b.exp - m) as nat);
    }
    assert(pow(10, (db - 1) as nat) * pb <= b.mant * pb) by {
        lemma_mul_inequality(pow(10, (db - 1) as nat), b.mant as int, pb);
    }
}

/// Compare the magnitudes of two positive numbers.
#[verifier::rlimit(100)]
fn cmp_mag(a: &Number, b: &Number) -> (r: Ord3)
    requires
        num_wf(*a),
        num_wf(*b),
        a.mant >= 1,
        b.mant >= 1,
    ensures
        ({
            let m = min_exp(*a, *b);
            let ma = a.mant * pow(10, (a.exp - m) as nat);
            let mb = b.mant * pow(10, (b.exp - m) as nat);
            match r {
                Ord3::Lt => ma < mb,
                Ord3::Eq => ma == mb,
                Ord3::Gt => ma > mb,
            }
        }),
{
    let ghost m = min_exp(*a, *b);
    let da = ndigits_u64(a.mant);
    let db = ndigits_u64(b.mant);
    let oa: i64 = (da as i64) + a.exp;
    let ob: i64 = (db as i64) + b.exp;
    if oa < ob {
        proof {
            lemma_msd_lt(*a, *b, da as int, db as int, m);
        }
        Ord3::Lt
    } else if oa > ob {
        proof {
            lemma_msd_lt(*b, *a, db as int, da as int, m);
        }
        Ord3::Gt
    } else {
        // Equal leading-digit position: the exponents differ by less than
        // twenty, so both fit a common 128-bit scale.
        if a.exp >= b.exp {
            let d = (a.exp - b.exp) as usize;
            proof {
                assert(da + a.exp == db + b.exp);
                assert(d as int == db - da);
                assert(d <= 19);
            }
            let p = pow10_u128(d);
            proof {
                let pd = pow(10, d as nat);
                lemma_pow_positive(10, d as nat);
                assert(a.mant * pd == a.mant * pow(10, (a.exp - m) as nat)) by {
                    assert(m == b.exp);
                }
                assert(b.mant as int == b.mant * pow(10, (b.exp - m) as nat)) by {
                    vstd::arithmetic::power::lemma_pow0(10);
                }
                assert(pow(10, 19) < (u128::MAX as int) / (u64::MAX as int + 1)) by {
                    reveal_with_fuel(pow, 20);
                }
                assert(pd <= pow(10, 19)) by {
                    lemma_pow_increases(10, d as nat, 19);
                }
                assert(a.mant as int * pd < u128::MAX) by (nonlinear_arith)
                    requires
                        0 <= a.mant as int <= u64::MAX,
                        0 < pd,
                        pd <= pow(10, 19),
                        pow(10, 19) < (u128::MAX as int) / (u64::MAX as int + 1),
                ;
            }
            let x = (a.mant as u128) * p;
            let y = b.mant as u128;
            if x < y {
                Ord3::Lt
            } else if x == y {
                Ord3::Eq
            } else {
                Ord3::Gt
            }
        } else {
            let d = (b.exp - a.exp) as usize;
            proof {
                assert(da + a.exp == db + b.exp);
                assert(d as int == da - db);
                assert(d <= 19);
            }
            let p = pow10_u128(d);
            proof {
                let pd = pow(10, d as nat);
                lemma_pow_positive(10, d as nat);
                assert(b.mant * pd == b.mant * pow(10, (b.exp - m) as nat)) by {
                    assert(m == a.exp);
                }
                assert(a.mant as int == a.mant * pow(10, (a.exp - m) as nat)) by {
                    vstd::arithmetic::power::lemma_pow0(10);
                }
                assert(pow(10, 19) < (u128::MAX as int) / (u64::MAX as int + 1)) by {
                    reveal_with_fuel(pow, 20);
                }
                assert(pd <= pow(10, 19)) by {
                    lemma_pow_increases(10, d as nat, 19);
                }
                assert(b.mant as int * pd < u128::MAX) by (nonlinear_arith)
                    requires
                        0 <= b.mant as int <= u64::MAX,
                        0 < pd,
                        pd <= pow(10, 19),
                        pow(10, 19) < (u128::MAX as int) / (u64::MAX as int + 1),
                ;
            }
            let x = a.mant as u128;
            let y = (b.mant as u128) * p;
            if x < y {
                Ord3::Lt
            } else if x == y {
                Ord3::Eq
            } else {
                Ord3::Gt
            }
        }
    }
}

/// Compare two numbers exactly, as rationals.
pub fn num_cmp(a: &Number, b: &Number) -> (r: Ord3)
    requires
        num_wf(*a),
        num_wf(*b),
    ensures
        r == Ord3::Lt <==> num_lt(*a, *b),
        r == Ord3::Gt <==> num_lt(*b, *a),
        r == Ord3::Eq <==> num_eq_val(*a, *b),
{
    let ghost m = min_exp(*a, *b);
    proof {
        lemma_pow_positive(10, (a.exp - m) as nat);
        lemma_pow_positive(10, (b.exp - m) as nat);
        assert(a.mant as int * pow(10, (a.exp - m) as nat) >= 0) by (nonlinear_arith)
            requires
                a.mant as int >= 0,
                pow(10, (a.exp - m) as nat) > 0,
        ;
        assert(b.mant as int * pow(10, (b.exp - m) as nat) >= 0) by (nonlinear_arith)
            requires
                b.mant as int >= 0,
                pow(10, (b.exp - m) as nat) > 0,
        ;
        assert(a.mant as int >= 1 ==> a.mant as int * pow(10, (a.exp - m) as nat) >= 1)
            by (nonlinear_arith)
            requires
                pow(10, (a.exp - m) as nat) >= 1,
        ;
        assert(b.mant as int >= 1 ==> b.mant as int * pow(10, (b.exp - m) as nat) >= 1)
            by (nonlinear_arith)
            requires
                pow(10, (b.exp - m) as nat) >= 1,
        ;
        assert(a.mant as int == 0 ==> a.mant as int * pow(10, (a.exp - m) as nat) == 0)
            by (nonlinear_arith)
        ;
        assert(b.mant as int == 0 ==> b.mant as int * pow(10, (b.exp - m) as nat) == 0)
            by (nonlinear_arith)
        ;
    }
    if a.mant == 0 && b.mant == 0 {
        Ord3::Eq
    } else if a.mant == 0 {
        if b.neg {
            Ord3::Gt
        } else {
            Ord3::Lt
        }
    } else if b.mant == 0 {
        if a.neg {
            Ord3::Lt
        } else {
            Ord3::Gt
        }
    } else if a.neg && !b.neg {
        Ord3::Lt
    } else if !a.neg && b.neg {
        Ord3::Gt
    } else if !a.neg {
        cmp_mag(a, b)
    } else {
        match cmp_mag(a, b) {
            Ord3::Lt => Ord3::Gt,
            Ord3::Eq => Ord3::Eq,
            Ord3::Gt => Ord3::Lt,
        }
    }
}

/// Trailing zeros moved from the mantissa into the exponent.
pub open spec fn strip_zeros(m: int, e: int) -> (int, int)
    decreases m when m >= 0
{
    if m > 0 && m % 10 == 0 {
        strip_zeros(m / 10, e + 1)
    } else {
        (m, e)
    }
}

/// The canonical number with the given sign, mantissa digits and exponent,
/// if the mantissa fits.
pub open spec fn make_number_spec(neg: bool, digits: Seq<char>, exp: int) -> Option<Number> {
    if digits_val(digits) > u64::MAX {
        None
    } else if digits_val(digits) == 0 {
        Some(Number { neg: false, mant: 0, exp: 0 })
    } else {
        let p = strip_zeros(digits_val(digits), exp);
        Some(Number { neg: neg, mant: p.0 as u64, exp: p.1 as i64 })
    }
}

/// The decimal literal grammar: an optional sign, digits with an optional
/// fraction, and an optional decimal exponent. Mantissas that do not fit a
/// `u64` and exponents outside a generous range are not represented.
pub open spec fn parse_number_spec(s: Seq<char>) -> Option<Number> {
    if s.len() == 0 {
        None
    } else {
        let i0: int = if s[0] == '+' || s[0] == '-' {
            1
        } else {
            0
        };
        let neg = s[0] == '-';
        let j1 = run_end(s, i0, |c: char| is_digit(c));
        let has_dot = j1 < s.len() && s[j1] == '.';
        let f0 = if has_dot {
            j1 + 1
        } else {
            j1
        };
        let j2 = if has_dot {
            run_end(s, f0, |c: char| is_digit(c))
        } else {
            j1
        };
        let idigits = s.subrange(i0, j1);
        let fdigits = s.subrange(f0, j2);
        if idigits.len() == 0 && fdigits.len() == 0 {
            None
        } else if fdigits.len() > 100000 {
            None
        } else if j2 == s.len() {
            make_number_spec(neg, idigits + fdigits, -fdigits.len())
        } else if s[j2] == 'e' || s[j2] == 'E' {
            let e0 = j2 + 1;
            let es: int = if e0 < s.len() && (s[e0] == '+' || s[e0] == '-') {
                e0 + 1
            } else {
                e0
            };
            let eneg = e0 < s.len() && s[e0] == '-';
            let j3 = run_end(s, es, |c: char| is_digit(c));
            let edigits = s.subrange(es, j3);
            if edigits.len() == 0 || j3 != s.len() {
                None
            } else if digits_val(edigits) > 100000 {
                None
            } else {
                make_number_spec(
                    neg,
                    idigits + fdigits,
                    (if eneg {
                        -digits_val(edigits)
                    } else {
                        digits_val(edigits)
                    }) - fdigits.len(),
                )
            }
        } else {
            None
        }
    }
}

/// Scan the run of digits beginning at `from`.
fn digit_run(s: &Vec<char>, from: usize) -> (r: usize)
    requires
        from <= s@.len(),
    ensures
        r as int == run_end(s@, from as int, |c: char| is_digit(c)),
        from <= r <= s@.len(),
{
    let n = s.len();
    let mut j: usize = from;
    while j < n && '0' <= s[j] && s[j] <= '9'
        invariant
            from <= j <= n == s@.len(),
            forall|k: int| from <= k < j ==> is_digit(s@[k]),
        decreases n - j,
    {
        j = j + 1;
    }
    proof {
        lemma_run_end_is(s@, from as int, j as int, |c: char| is_digit(c));
    }
    j
}

/// Parse a decimal literal, as `parse_number_spec` says.
#[verifier::rlimit(100)]
pub fn parse_number(v: &Vec<char>) -> (r: Option<Number>)
    ensures
        r == parse_number_spec(v@),
        r matches Some(n) ==> num_wf(n),
{
    let n = v.len();
    if n == 0 {
        return None;
    }
    let signed = v[0] == '+' || v[0] == '-';
    let i0: usize = if signed {
        1
    } else {
        0
    };
    let neg = v[0] == '-';
    let j1 = digit_run(v, i0);
    let has_dot = j1 < n && v[j1] == '.';
    let f0: usize = if has_dot {
        j1 + 1
    } else {
        j1
    };
    let j2: usize = if has_dot {
        digit_run(v, f0)
    } else {
        j1
    };
    let ilen = j1 - i0;
    let flen = j2 - f0;
    if ilen == 0 && flen == 0 {
        return None;
    }
    if flen > 100000 {
        return None;
    }
    let mut digits: Vec<char> = crate::text::copy_range(v, i0, j1);
    let frac = crate::text::copy_range(v, f0, j2);
    let mut fi: usize = 0;
    while fi < frac.len()
        invariant
            0 <= fi <= frac@.len(),
            digits@ == v@.subrange(i0 as int, j1 as int) + frac@.subrange(0, fi as int),
        decreases frac@.len() - fi,
    {
        digits.push(frac[fi]);
        fi = fi + 1;
        proof {
            assert(digits@ =~= v@.subrange(i0 as int, j1 as int) + frac@.subrange(0, fi as int));
        }
    }
    proof {
        assert(frac@.subrange(0, frac@.len() as int) =~= frac@);
        assert(digits@ == v@.subrange(i0 as int, j1 as int) + v@.subrange(f0 as int, j2 as int));
        lemma_run_end(v@, i0 as int, |c: char| is_digit(c));
        lemma_run_end(v@, f0 as int, |c: char| is_digit(c));
        assert(all_digits(digits@)) by {
            assert(forall|k: int|
                0 <= k < j1 - i0 ==> #[trigger] digits@[k] == v@[i0 + k] && is_digit(v@[i0 + k]));
            assert(forall|k: int|
                j1 - i0 <= k < digits@.len() ==> #[trigger] digits@[k] == v@[f0 + (k - (j1 - i0))]
                    && is_digit(v@[f0 + (k - (j1 - i0))]));
        }
        assert(digits@.len() > 0);
    }
    if j2 == n {
        let e: i64 = -(flen as i64);
        make_number(neg, &digits, e)
    } else if v[j2] == 'e' || v[j2] == 'E' {
        let e0 = j2 + 1;
        let esigned = e0 < n && (v[e0] == '+' || v[e0] == '-');
        let es: usize = if esigned {
            e0 + 1
        } else {
            e0
        };
        let eneg = e0 < n && v[e0] == '-';
        let j3 = digit_run(v, es);
        let edigits = crate::text::copy_range(v, es, j3);
        if j3 == es || j3 != n {
            proof {
                if v@.subrange(es as int, j3 as int).len() == 0 {
                } else {
                    assert(j3 != n);
                }
            }
            return None;
        }
        match parse_u64(&edigits) {
            Some(ev) => {
                if ev > 100000 {
                    return None;
                }
                let e: i64 = (if eneg {
                    -(ev as i64)
                } else {
                    ev as i64
                }) - (flen as i64);
                make_number(neg, &digits, e)
            },
            None => {
                proof {
                    // The run is all digits and non-empty, so only an
                    // oversized value can fail the parse.
                    lemma_run_end(v@, es as int, |c: char| is_digit(c));
                    assert(all_digits(v@.subrange(es as int, j3 as int))) by {
                        assert(forall|k: int|
                            0 <= k < j3 - es ==> #[trigger] v@.subrange(es as int, j3 as int)[k]
                                == v@[es + k]);
                    }
                    crate::text::lemma_digits_val_nonneg(v@.subrange(es as int, j3 as int));
                }
                return None;
            },
        }
    } else {
        None
    }
}

/// Build the canonical number out of mantissa digits and an exponent, as
/// `make_number_spec` says.
fn make_number(neg: bool, digits: &Vec<char>, exp: i64) -> (r: Option<Number>)
    requires
        digits@.len() > 0,
        crate::text::all_digits(digits@),
        -200001 <= exp <= 100000,
    ensures
        r == make_number_spec(neg, digits@, exp as int),
        r matches Some(n) ==> num_wf(n),
{
    match parse_u64(digits) {
        Some(m0) => {
            if m0 == 0 {
                return Some(Number { neg: false, mant: 0, exp: 0 });
            }
            let mut mant: u64 = m0;
            let mut e: i64 = exp;
            while mant % 10 == 0 && mant > 0
                invariant
                    mant >= 1,
                    m0 <= u64::MAX,
                    -200001 <= exp <= 100000,
                    exp <= e,
                    e - exp <= 20,
                    strip_zeros(m0 as int, exp as int) == strip_zeros(mant as int, e as int),
                    lemma_strip_pre(m0 as int, exp as int, mant as int, e as int),
                decreases mant,
            {
                proof {
                    lemma_strip_pre_step(m0 as int, exp as int, mant as int, e as int);
                    // Each stripped zero divides the mantissa by ten, so at
                    // most twenty can ever be stripped from a 64-bit value.
                    if e + 1 - exp > 20 {
                        lemma_strip_factor(m0 as int, exp as int, (mant / 10) as int, e + 1);
                        let k = ((e + 1) - exp) as nat;
                        assert(pow(10, k) >= pow(10, 21)) by {
                            lemma_pow_increases(10, 21, k);
                        }
                        assert(pow(10, 21) > u64::MAX) by {
                            reveal_with_fuel(pow, 22);
                        }
                        assert((mant / 10) as int * pow(10, k) >= pow(10, k))
                            by (nonlinear_arith)
                            requires
                                (mant / 10) as int >= 1,
                                pow(10, k) > 0,
                        ;
                        assert(false);
                    }
                }
                mant = mant / 10;
                e = e + 1;
            }
            proof {
                assert(strip_zeros(mant as int, e as int) == (mant as int, e as int));
            }
            Some(Number { neg, mant, exp: e })
        },
        None => {
            proof {
                crate::text::lemma_digits_val_nonneg(digits@);
            }
            None
        },
    }
}

/// The canonical number a `u64` denotes.
pub open spec fn num_of_u64(x: u64) -> Number {
    if x == 0 {
        Number { neg: false, mant: 0, exp: 0 }
    } else {
        let p = strip_zeros(x as int, 0);
        Number { neg: false, mant: p.0 as u64, exp: p.1 as i64 }
    }
}

/// The canonical number of a `u64` value.
pub fn number_from_u64(x: u64) -> (r: Number)
    ensures
        r == num_of_u64(x),
        num_wf(r),
{
    if x == 0 {
        return Number { neg: false, mant: 0, exp: 0 };
    }
    let mut mant: u64 = x;
    let mut e: i64 = 0;
    while mant % 10 == 0 && mant > 0
        invariant
            mant >= 1,
            x <= u64::MAX,
            0 <= e,
            e <= 20,
            strip_zeros(x as int, 0) == strip_zeros(mant as int, e as int),
            lemma_strip_pre(x as int, 0, mant as int, e as int),
        decreases mant,
    {
        proof {
            lemma_strip_pre_step(x as int, 0, mant as int, e as int);
            if e + 1 > 20 {
                lemma_strip_factor(x as int, 0, (mant / 10) as int, e + 1);
                let k = (e + 1) as nat;
                assert(pow(10, k) >= pow(10, 21)) by {
                    lemma_pow_increases(10, 21, k);
                }
                assert(pow(10, 21) > u64::MAX) by {
                    reveal_with_fuel(pow, 22);
                }
                assert((mant / 10) as int * pow(10, k) >= pow(10, k)) by (nonlinear_arith)
                    requires
                        (mant / 10) as int >= 1,
                        pow(10, k) > 0,
                ;
                assert(false);
            }
        }
        mant = mant / 10;
        e = e + 1;
    }
    proof {
        assert(strip_zeros(mant as int, e as int) == (mant as int, e as int));
    }
    Number { neg: false, mant, exp: e }
}

/// `k` zero characters.
pub open spec fn zeros(k: int) -> Seq<char>
    decreases k,
{
    if k <= 0 {
        Seq::empty()
    } else {
        zeros(k - 1).push('0')
    }
}

/// The decimal text of a number: the mantissa's digits with the exponent
/// applied, either as appended zeros or as a decimal point.
pub open spec fn num_text(n: Number) -> Seq<char> {
    let digits = crate::text::dec_of(n.mant as int);
    let sign: Seq<char> = if n.neg {
        seq!['-']
    } else {
        Seq::empty()
    };
    if n.exp >= 0 {
        sign + digits + zeros(n.exp as int)
    } else {
        let f = -(n.exp as int);
        if digits.len() > f {
            sign + digits.subrange(0, digits.len() - f) + seq!['.'] + digits.subrange(
                digits.len() - f,
                digits.len() as int,
            )
        } else {
            sign + "0."@ + zeros(f - digits.len()) + digits
        }
    }
}

/// Append `k` zero characters.
fn push_zeros(out: &mut Vec<char>, k: u64)
    ensures
        final(out)@ == old(out)@ + zeros(k as int),
{
    let ghost base = old(out)@;
    let mut i: u64 = 0;
    proof {
        assert(out@ =~= base + zeros(0));
    }
    while i < k
        invariant
            0 <= i <= k,
            out@ == base + zeros(i as int),
        decreases k - i,
    {
        out.push('0');
        i = i + 1;
        proof {
            assert(out@ =~= base + zeros(i as int));
        }
    }
}

/// Render a number, as `num_text` says.
pub fn num_string(n: &Number) -> (r: String)
    requires
        num_wf(*n),
    ensures
        r@ == num_text(*n),
{
    let mut out: Vec<char> = Vec::new();
    if n.neg {
        out.push('-');
    }
    let ghost sign = out@;
    let digits = crate::text::u64_dec(n.mant);
    if n.exp >= 0 {
        let mut body = crate::http::types::append_chars(out, &digits);
        push_zeros(&mut body, n.exp as u64);
        proof {
            assert(body@ =~= num_text(*n));
        }
        crate::text::chars_string(&body)
    } else {
        let f_i64: i64 = -n.exp;
        let f = f_i64 as usize;
        if digits.len() > f {
            let head = crate::text::copy_range(&digits, 0, digits.len() - f);
            let tail = crate::text::copy_range(&digits, digits.len() - f, digits.len());
            let mut body = crate::http::types::append_chars(out, &head);
            body.push('.');
            let body2 = crate::http::types::append_chars(body, &tail);
            proof {
                assert(body2@ =~= num_text(*n));
            }
            crate::text::chars_string(&body2)
        } else {
            let zpad = crate::text::str_chars("0.");
            let mut body = crate::http::types::append_chars(out, &zpad);
            push_zeros(&mut body, (f - digits.len()) as u64);
            let body2 = crate::http::types::append_chars(body, &digits);
            proof {
                assert(body2@ =~= num_text(*n));
            }
            crate::text::chars_string(&body2)
        }
    }
}

/// The path from `(m0, exp)` to `(mant, e)` by stripping zeros.
pub open spec fn lemma_strip_pre(m0: int, exp: int, mant: int, e: int) -> bool
    decreases m0 when m0 >= 0
{
    if m0 == mant && exp == e {
        true
    } else if m0 > 0 && m0 % 10 == 0 && exp <= e {
        lemma_strip_pre(m0 / 10, exp + 1, mant, e)
    } else {
        false
    }
}

proof fn lemma_strip_pre_step(m0: int, exp: int, mant: int, e: int)
    requires
        m0 >= 0,
        lemma_strip_pre(m0, exp, mant, e),
        mant > 0,
        mant % 10 == 0,
        exp <= e,
    ensures
        lemma_strip_pre(m0, exp, mant / 10, e + 1),
    decreases m0,
{
    if m0 == mant && exp == e {
        assert(lemma_strip_pre(m0 / 10, exp + 1, mant / 10, e + 1));
    } else {
        lemma_strip_pre_exp(m0 / 10, exp + 1, mant, e);
        lemma_strip_pre_step(m0 / 10, exp + 1, mant, e);
    }
}

proof fn lemma_strip_pre_exp(m0: int, exp: int, mant: int, e: int)
    requires
        m0 >= 0,
        lemma_strip_pre(m0, exp, mant, e),
    ensures
        exp <= e,
    decreases m0,
{
    if m0 == mant && exp == e {
    } else {
        lemma_strip_pre_exp(m0 / 10, exp + 1, mant, e);
    }
}

proof fn lemma_strip_factor(m0: int, exp: int, mant: int, e: int)
    requires
        m0 >= 0,
        lemma_strip_pre(m0, exp, mant, e),
    ensures
        e >= exp,
        m0 == mant * pow(10, (e - exp) as nat),
    decreases m0,
{
    if m0 == mant && exp == e {
        assert(pow(10, 0) == 1) by {
            vstd::arithmetic::power::lemma_pow0(10);
        }
    } else {
        lemma_strip_factor(m0 / 10, exp + 1, mant, e);
        assert(pow(10, (e - exp) as nat) == 10 * pow(10, (e - exp - 1) as nat)) by {
            lemma_pow_adds(10, 1nat, (e - exp - 1) as nat);
            vstd::arithmetic::power::lemma_pow1(10);
        }
        assert(m0 == (m0 / 10) * 10) by (nonlinear_arith)
            requires
                m0 % 10 == 0,
                m0 >= 0,
        ;
        assert(m0 == mant * (10 * pow(10, (e - exp - 1) as nat))) by (nonlinear_arith)
            requires
                m0 == (m0 / 10) * 10,
                m0 / 10 == mant * pow(10, (e - exp - 1) as nat),
        ;
    }
}

} // verus!
