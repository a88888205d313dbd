use vstd::prelude::*;
use vstd::arithmetic::div_mod::lemma_fundamental_div_mod_converse_div;
use crate::json::{JsonNumber, NumberView};

verus! {

pub open spec fn pow10(n: nat) -> int
    decreases n,
{
    if n == 0 {
        1
    } else {
        10 * pow10((n - 1) as nat)
    }
}

pub(crate) proof fn lemma_pow10_pos(n: nat)
    ensures
        pow10(n) >= 1,
    decreases n,
{
    if n > 0 {
        lemma_pow10_pos((n - 1) as nat);
    }
}

proof fn lemma_pow10_mono(a: nat, b: nat)
    requires
        a <= b,
    ensures
        pow10(a) <= pow10(b),
    decreases b,
{
    lemma_pow10_pos(b);
    if a < b {
        lemma_pow10_mono(a, (b - 1) as nat);
    }
}

/// `num / den` rounded to the nearest integer, halves away from zero (as
/// `f64::round` does); `den` is positive.
pub open spec fn round_half_away(num: int, den: int) -> int {
    if num >= 0 {
        (2 * num + den) / (2 * den)
    } else {
        -((-2 * num + den) / (2 * den))
    }
}

/// A number as the exact decimal `mantissa * 10^exponent`.
pub open spec fn mantissa_of(n: NumberView) -> int {
    match n {
        NumberView::PosInt(u) => u as int,
        NumberView::NegInt(i) => i,
        NumberView::Float { mantissa, .. } => mantissa,
    }
}

pub open spec fn exponent_of(n: NumberView) -> int {
    match n {
        NumberView::Float { exponent, .. } => exponent,
        _ => 0,
    }
}

/// `a + sign * n * 10^s`, rounded to an integer half away from zero, where
/// `sign` is -1 when `negate` holds and 1 otherwise.
pub open spec fn shifted_round(a: int, negate: bool, n: NumberView, s: int) -> int {
    let m = if negate {
        -mantissa_of(n)
    } else {
        mantissa_of(n)
    };
    let j = exponent_of(n) + s;
    if j >= 0 {
        a + m * pow10(j as nat)
    } else {
        round_half_away(a * pow10((-j) as nat) + m, pow10((-j) as nat))
    }
}

pub open spec fn fits_i64(v: int) -> bool {
    i64::MIN <= v <= i64::MAX
}

/// `Some(v)` when `v` fits in an `i64`.
pub open spec fn fit(v: int) -> Option<int> {
    if fits_i64(v) {
        Some(v)
    } else {
        None
    }
}

/// The largest magnitude of a percentage held, in units of 1/100000
/// percent: 10^36 (10^31 percent).
pub open spec fn percent_bound() -> int {
    1000000000000000000000000000000000000
}

pub open spec fn in_bound(v: int) -> bool {
    -percent_bound() <= v <= percent_bound()
}

/// `Some(v)` when `|v|` is at most `percent_bound()`.
pub open spec fn bounded(v: int) -> Option<int> {
    if in_bound(v) {
        Some(v)
    } else {
        None
    }
}

/// A rounded value, or the side of the held range it lies beyond.
pub enum Rounded {
    Exact(i128),
    Above,
    Below,
}

/// `r` tells `v`: `v` itself within the bound, else its side.
pub open spec fn rounded_is(r: Rounded, v: int) -> bool {
    match r {
        Rounded::Exact(t) => t == v && in_bound(v),
        Rounded::Above => v > percent_bound(),
        Rounded::Below => v < -percent_bound(),
    }
}

fn pow10_exec(n: u32) -> (r: i128)
    requires
        n <= 36,
    ensures
        r == pow10(n as nat),
        1 <= r <= 1000000000000000000000000000000000000,
{
    let mut p: i128 = 1;
    let mut i: u32 = 0;
    proof {
        assert(pow10(36) == 1000000000000000000000000000000000000) by {
            reveal_with_fuel(pow10, 37);
        }
    }
    while i < n
        invariant
            i <= n <= 36,
            p == pow10(i as nat),
            pow10(36) == 1000000000000000000000000000000000000,
        decreases n - i,
    {
        proof {
            lemma_pow10_mono((i + 1) as nat, 36);
            assert(pow10((i + 1) as nat) == 10 * pow10(i as nat));
            assert(10 * p <= 1000000000000000000000000000000000000);
            lemma_pow10_pos(i as nat);
        }
        p = p * 10;
        i = i + 1;
    }
    proof {
        lemma_pow10_pos(n as nat);
        lemma_pow10_mono(n as nat, 36);
    }
    p
}

proof fn lemma_pow10_add(a: nat, b: nat)
    ensures
        pow10(a) * pow10(b) == pow10(a + b),
    decreases a,
{
    if a > 0 {
        lemma_pow10_add((a - 1) as nat, b);
        assert(pow10(a) * pow10(b) == 10 * (pow10((a - 1) as nat) * pow10(b))) by (nonlinear_arith)
            requires
                pow10(a) == 10 * pow10((a - 1) as nat),
        ;
    }
}

proof fn lemma_round_small(a: int, r: int, d: int)
    requires
        d > 0,
        -d < 2 * r < d,
    ensures
        round_half_away(a * d + r, d) == a,
{
    let num = a * d + r;
    if num >= 0 {
        assert(2 * num + d == a * (2 * d) + (2 * r + d)) by (nonlinear_arith)
            requires
                num == a * d + r,
        ;
        lemma_fundamental_div_mod_converse_div(2 * num + d, 2 * d, a, 2 * r + d);
    } else {
        assert(-2 * num + d == (-a) * (2 * d) + (d - 2 * r)) by (nonlinear_arith)
            requires
                num == a * d + r,
        ;
        lemma_fundamental_div_mod_converse_div(-2 * num + d, 2 * d, -a, d - 2 * r);
    }
}

/// `shifted_round(a, negate, n, s)`, or the side of the held range it lies
/// beyond.
pub(crate) fn round_shifted(a: i64, negate: bool, n: &JsonNumber, s: i64) -> (r: Rounded)
    requires
        -10000000 <= a <= 10000000,
        -100 <= s <= 100,
    ensures
        rounded_is(r, shifted_round(a as int, negate, n@, s as int)),
{
    let (m0, e): (i128, i64) = match n {
        JsonNumber::PosInt(u) => (*u as i128, 0),
        JsonNumber::NegInt(i) => (*i as i128, 0),
        JsonNumber::Float { mantissa, exponent, .. } => (*mantissa as i128, *exponent as i64),
    };
    let m: i128 = if negate { -m0 } else { m0 };
    let ghost spec_m = if negate {
        -mantissa_of(n@)
    } else {
        mantissa_of(n@)
    };
    assert(m == spec_m);
    let ghost v = shifted_round(a as int, negate, n@, s as int);
    let j: i64 = e + s;
    let total: i128;
    if j >= 0 {
        if m == 0 {
            assert(v == a as int) by {
                let p = pow10(j as nat);
                assert(spec_m * p == 0) by (nonlinear_arith)
                    requires
                        spec_m == 0,
                ;
            }
            return Rounded::Exact(a as i128);
        }
        if j > 36 {
            proof {
                lemma_pow10_mono(37, j as nat);
                assert(pow10(37) == 10000000000000000000000000000000000000) by {
                    reveal_with_fuel(pow10, 38);
                }
                let p = pow10(j as nat);
                if m > 0 {
                    assert(m * p >= p) by (nonlinear_arith)
                        requires
                            m >= 1,
                            p >= 1,
                    ;
                } else {
                    assert(m * p <= -p) by (nonlinear_arith)
                        requires
                            m <= -1,
                            p >= 1,
                    ;
                }
            }
            return if m > 0 { Rounded::Above } else { Rounded::Below };
        }
        let p = pow10_exec(j as u32);
        if j > 18 {
            let q = pow10_exec((36 - j) as u32);
            proof {
                assert(q * p == pow10(36)) by {
                    lemma_pow10_add((36 - j) as nat, j as nat);
                }
                assert(pow10(36) == 1000000000000000000000000000000000000) by {
                    reveal_with_fuel(pow10, 37);
                }
                lemma_pow10_mono(19, j as nat);
                assert(pow10(19) == 10000000000000000000) by {
                    reveal_with_fuel(pow10, 20);
                }
            }
            if m > q || m < -q {
                proof {
                    if m > 0 {
                        assert(m * p >= q * p + p) by (nonlinear_arith)
                            requires
                                m >= q + 1,
                                p >= 1,
                        ;
                    } else {
                        assert(m * p <= -(q * p) - p) by (nonlinear_arith)
                            requires
                                m <= -(q + 1),
                                p >= 1,
                        ;
                    }
                }
                return if m > 0 { Rounded::Above } else { Rounded::Below };
            }
            proof {
                assert(-1000000000000000000000000000000000000 <= m * p
                    <= 1000000000000000000000000000000000000) by (nonlinear_arith)
                    requires
                        -q <= m <= q,
                        1 <= p,
                        q * p == 1000000000000000000000000000000000000,
                ;
            }
        } else {
            proof {
                lemma_pow10_mono(j as nat, 18);
                assert(pow10(18) == 1000000000000000000) by {
                    reveal_with_fuel(pow10, 19);
                }
                assert(-20000000000000000000000000000000000000 <= m * p
                    <= 20000000000000000000000000000000000000) by (nonlinear_arith)
                    requires
                        -18446744073709551616 <= m <= 18446744073709551616,
                        1 <= p <= 1000000000000000000,
                ;
            }
        }
        total = (a as i128) + m * p;
    } else {
        let k: i64 = -j;
        if k > 30 {
            proof {
                lemma_pow10_mono(31, k as nat);
                assert(pow10(31) == 10000000000000000000000000000000) by {
                    reveal_with_fuel(pow10, 32);
                }
                lemma_round_small(a as int, m as int, pow10(k as nat));
            }
            return Rounded::Exact(a as i128);
        }
        let d = pow10_exec(k as u32);
        proof {
            lemma_pow10_mono(k as nat, 30);
            assert(pow10(30) == 1000000000000000000000000000000) by {
                reveal_with_fuel(pow10, 31);
            }
            assert(-10000000000000000000000000000000000000 <= (a as int) * d
                <= 10000000000000000000000000000000000000) by (nonlinear_arith)
                requires
                    -10000000 <= a <= 10000000,
                    1 <= d <= 1000000000000000000000000000000,
            ;
        }
        let num: i128 = (a as i128) * d + m;
        if num >= 0 {
            total = (2 * num + d) / (2 * d);
        } else {
            total = -((-2 * num + d) / (2 * d));
        }
        proof {
            assert(-30000000000000000000000000000000000000 <= total
                <= 30000000000000000000000000000000000000) by (nonlinear_arith)
                requires
                    d >= 1,
                    -10000000000000000000000000000000000000 - 18446744073709551616 <= num
                        <= 10000000000000000000000000000000000000 + 18446744073709551616,
                    total == (if num >= 0 { (2 * num + d) / (2 * d) } else { -((-2 * num + d) / (2 * d)) }),
            ;
        }
    }
    if total > 1000000000000000000000000000000000000i128 {
        Rounded::Above
    } else if total < -1000000000000000000000000000000000000i128 {
        Rounded::Below
    } else {
        Rounded::Exact(total)
    }
}

/// `n / d` rounded to the nearest integer, halves to even; `n >= 0`, `d > 0`.
pub open spec fn round_half_even(n: int, d: int) -> int {
    let q = n / d;
    let r = n % d;
    if 2 * r > d {
        q + 1
    } else if 2 * r < d {
        q
    } else if q % 2 == 0 {
        q
    } else {
        q + 1
    }
}

pub open spec fn abs(k: int) -> int {
    if k < 0 {
        -k
    } else {
        k
    }
}

/// A percentage held in units of 1/100000 percent, written with two decimal
/// places (`27.00` for 2700000), halves rounded to even, with a minus sign
/// for negative values.
pub open spec fn percent_text(k: int) -> Seq<char> {
    let h = round_half_even(abs(k), 1000);
    (if k < 0 {
        seq!['-']
    } else {
        Seq::<char>::empty()
    }) + crate::text::int_text(h / 100) + seq!['.'] + seq![
        crate::text::digit_char((h % 100) / 10),
        crate::text::digit_char(h % 10),
    ]
}

/// Appends `percent_text(k)`.
pub fn push_percent(out: &mut String, k: i128)
    ensures
        final(out)@ == old(out)@ + percent_text(k as int),
{
    let ghost start = out@;
    let a: u128 = if k < 0 {
        if k == i128::MIN {
            170141183460469231731687303715884105728u128
        } else {
            (-k) as u128
        }
    } else {
        k as u128
    };
    assert(a == abs(k as int));
    let q = a / 1000;
    let r = a % 1000;
    let h: u128 = if 2 * r > 1000 {
        q + 1
    } else if 2 * r < 1000 {
        q
    } else if q % 2 == 0 {
        q
    } else {
        q + 1
    };
    if k < 0 {
        crate::text::push_char(out, '-');
    }
    let ghost mid = out@;
    crate::text::push_nat_text(out, h / 100);
    crate::text::push_char(out, '.');
    let d1: u8 = ((h % 100) / 10) as u8;
    let d2: u8 = (h % 10) as u8;
    crate::text::push_char(out, (d1 + 48) as char);
    crate::text::push_char(out, (d2 + 48) as char);
    assert(out@ =~= start + percent_text(k as int));
}

} // verus!
