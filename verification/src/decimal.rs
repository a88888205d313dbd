use vstd::prelude::*;
use crate::numeric::pow10;
use crate::text::{all_digits, chars_of, digits_value, is_digit};

verus! {

/// The first position at or after `i` holding `a` or `b`, or the length of
/// `s` when there is none.
pub open spec fn first_of(s: Seq<char>, a: char, b: char, i: int) -> int
    decreases s.len() - i,
{
    if i < 0 || i >= s.len() {
        s.len() as int
    } else if s[i] == a || s[i] == b {
        i
    } else {
        first_of(s, a, b, i + 1)
    }
}

/// The signed value of an exponent text: an optional `+` or `-`, then at
/// least one digit.
pub open spec fn exponent_value(x: Seq<char>) -> Option<int> {
    let neg = x.len() > 0 && x[0] == '-';
    let plus = x.len() > 0 && x[0] == '+';
    let d = if neg || plus {
        x.subrange(1, x.len() as int)
    } else {
        x
    };
    if d.len() > 0 && all_digits(d) {
        Some(
            if neg {
                -digits_value(d)
            } else {
                digits_value(d) as int
            },
        )
    } else {
        None
    }
}

/// A decimal number text read as a sign, a digit value and a power of ten:
/// an optional `-`, at least one digit, optionally a `.` and at least one
/// digit, optionally `e` or `E` and an exponent. The text stands for
/// `(-1 if negative) * value * 10^exponent`.
pub open spec fn decimal_parts(t: Seq<char>) -> Option<(bool, nat, int)> {
    let neg = t.len() > 0 && t[0] == '-';
    let body = if neg {
        t.subrange(1, t.len() as int)
    } else {
        t
    };
    let ep = first_of(body, 'e', 'E', 0);
    let mant = body.subrange(0, ep);
    let dp = first_of(mant, '.', '.', 0);
    let ip = mant.subrange(0, dp);
    let has_dot = dp < mant.len();
    let fp = if has_dot {
        mant.subrange(dp + 1, mant.len() as int)
    } else {
        Seq::empty()
    };
    let ev = if ep < body.len() {
        exponent_value(body.subrange(ep + 1, body.len() as int))
    } else {
        Some(0int)
    };
    if ip.len() == 0 || !all_digits(ip) || (has_dot && fp.len() == 0) || !all_digits(fp)
        || ev is None {
        None
    } else {
        Some((neg, digits_value(ip + fp), ev.unwrap() - fp.len()))
    }
}

/// `v * 10^e` with the trailing zeros of `v` moved into the exponent.
pub open spec fn strip_zeros(v: nat, e: int) -> (nat, int)
    decreases v,
{
    if v != 0 && v % 10 == 0 {
        strip_zeros(v / 10, e + 1)
    } else {
        (v, e)
    }
}

/// The exact decimal `mantissa * 10^exponent` that a number text spells
/// out, the mantissa without trailing zeros, when the text is a decimal
/// number and both parts fit (`i64` and `i32`).
pub open spec fn decimal_value(t: Seq<char>) -> Option<(int, int)> {
    match decimal_parts(t) {
        None => None,
        Some((neg, v, e)) => {
            let (w, f) = strip_zeros(v, e);
            let m = if neg {
                -w
            } else {
                w as int
            };
            if i64::MIN <= m <= i64::MAX && i32::MIN <= f <= i32::MAX {
                Some((m, f))
            } else {
                None
            }
        },
    }
}

/// Moving trailing zeros into the exponent keeps the number: the value is
/// the stripped value times ten to the exponent gained.
pub proof fn strip_zeros_keeps_value(v: nat, e: int)
    ensures
        strip_zeros(v, e).1 >= e,
        v == strip_zeros(v, e).0 * pow10((strip_zeros(v, e).1 - e) as nat),
        strip_zeros(v, e).0 == 0 || strip_zeros(v, e).0 % 10 != 0,
    decreases v,
{
    if v != 0 && v % 10 == 0 {
        strip_zeros_keeps_value(v / 10, e + 1);
        let (w, f) = strip_zeros(v / 10, e + 1);
        let k = (f - (e + 1)) as nat;
        assert(pow10((f - e) as nat) == 10 * pow10(k));
        assert(v == 10 * (v / 10));
        assert(w * (10 * pow10(k)) == 10 * (w * pow10(k))) by (nonlinear_arith);
    }
}

proof fn lemma_strip_times(w: nat, z: nat, e: int)
    requires
        w % 10 != 0,
    ensures
        strip_zeros((w * pow10(z)) as nat, e) == (w, e + z),
    decreases z,
{
    if z == 0 {
        assert(w * pow10(0) == w);
    } else {
        lemma_strip_times(w, (z - 1) as nat, e + 1);
        let p = pow10((z - 1) as nat);
        crate::numeric::lemma_pow10_pos((z - 1) as nat);
        assert(w * pow10(z) == 10 * (w * p)) by (nonlinear_arith)
            requires
                pow10(z) == 10 * p,
        ;
        assert(w * p >= 1) by (nonlinear_arith)
            requires
                w >= 1,
                p >= 1,
        ;
        let v = w * pow10(z);
        assert(v % 10 == 0 && v / 10 == w * p) by (nonlinear_arith)
            requires
                v == 10 * (w * p),
        ;
        assert(((w * p) as nat) == w * p);
    }
}

proof fn lemma_digits_zeros(s: Seq<char>, z: nat)
    requires
        z <= s.len(),
        forall|i: int| s.len() - z <= i < s.len() ==> s[i] == '0',
    ensures
        digits_value(s) == digits_value(s.subrange(0, s.len() - z)) * pow10(z),
    decreases z,
{
    if z == 0 {
        assert(s.subrange(0, s.len() as int) =~= s);
    } else {
        let t = s.drop_last();
        lemma_digits_zeros(t, (z - 1) as nat);
        assert(t.subrange(0, t.len() - (z - 1)) =~= s.subrange(0, s.len() - z));
        let a = digits_value(s.subrange(0, s.len() - z));
        assert(digits_value(s) == digits_value(t) * 10);
        assert(a * pow10((z - 1) as nat) * 10 == a * pow10(z)) by (nonlinear_arith)
            requires
                pow10(z) == 10 * pow10((z - 1) as nat),
        ;
    }
}

proof fn lemma_first_of(s: Seq<char>, a: char, b: char, i: int, k: int)
    requires
        0 <= i <= k <= s.len(),
        forall|j: int| i <= j < k ==> s[j] != a && s[j] != b,
        k == s.len() || s[k] == a || s[k] == b,
    ensures
        first_of(s, a, b, i) == k,
    decreases k - i,
{
    if i < k {
        lemma_first_of(s, a, b, i + 1, k);
    }
}

/// The first position holding `a` or `b`, or the length.
fn find_either(s: &Vec<char>, a: char, b: char) -> (r: usize)
    ensures
        r == first_of(s@, a, b, 0),
        r <= s@.len(),
{
    let mut k: usize = 0;
    while k < s.len() && s[k] != a && s[k] != b
        invariant
            k <= s@.len(),
            forall|j: int| 0 <= j < k ==> s@[j] != a && s@[j] != b,
        decreases s@.len() - k,
    {
        k = k + 1;
    }
    proof {
        lemma_first_of(s@, a, b, 0, k as int);
    }
    k
}

/// The characters of `s` from `from` up to `to`.
fn sub_chars(s: &Vec<char>, from: usize, to: usize) -> (r: Vec<char>)
    requires
        from <= to <= s@.len(),
    ensures
        r@ == s@.subrange(from as int, to as int),
{
    let mut r: Vec<char> = Vec::new();
    let mut i: usize = from;
    while i < to
        invariant
            from <= i <= to <= s@.len(),
            r@ == s@.subrange(from as int, i as int),
        decreases to - i,
    {
        r.push(s[i]);
        assert(r@ =~= s@.subrange(from as int, i + 1));
        i = i + 1;
    }
    r
}

fn all_digits_exec(s: &Vec<char>) -> (r: bool)
    ensures
        r == all_digits(s@),
{
    let mut i: usize = 0;
    while i < s.len()
        invariant
            i <= s@.len(),
            forall|j: int| 0 <= j < i ==> is_digit(#[trigger] s@[j]),
        decreases s@.len() - i,
    {
        if !(s[i] >= '0' && s[i] <= '9') {
            assert(!is_digit(s@[i as int]));
            return false;
        }
        i = i + 1;
    }
    true
}

/// The value of a digit text, or `None` when it exceeds 10^30.
fn digits_capped(s: &Vec<char>) -> (r: Option<u128>)
    requires
        all_digits(s@),
    ensures
        match r {
            Some(v) => v == digits_value(s@) && v <= 1000000000000000000000000000000,
            None => digits_value(s@) > 1000000000000000000000000000000,
        },
{
    let mut acc: u128 = 0;
    let mut over = false;
    let mut i: usize = 0;
    while i < s.len()
        invariant
            i <= s@.len(),
            all_digits(s@),
            !over ==> acc == digits_value(s@.subrange(0, i as int)) && acc
                <= 1000000000000000000000000000000,
            over ==> digits_value(s@.subrange(0, i as int)) > 1000000000000000000000000000000,
        decreases s@.len() - i,
    {
        let ghost pre = s@.subrange(0, i as int);
        assert(s@.subrange(0, i + 1).drop_last() =~= pre);
        assert(s@.subrange(0, i + 1).last() == s@[i as int]);
        assert(is_digit(s@[i as int]));
        let d: u128 = ((s[i] as u32) - 48) as u128;
        if !over {
            let next = acc * 10 + d;
            if next > 1000000000000000000000000000000u128 {
                over = true;
            } else {
                acc = next;
            }
        }
        i = i + 1;
    }
    assert(s@.subrange(0, s@.len() as int) =~= s@);
    if over {
        None
    } else {
        Some(acc)
    }
}

/// The parts of a number text: its sign, its digits (those before and
/// after the `.`), the number of digits after the `.`, and its exponent's
/// sign and size, the size `None` when it exceeds 10^30.
fn number_parts(text: &str) -> (r: Option<(bool, Vec<char>, usize, bool, Option<u128>)>)
    ensures
        match r {
            None => decimal_parts(text@) is None,
            Some((neg, d, fl, xn, xa)) => {
                &&& decimal_parts(text@) is Some
                &&& decimal_parts(text@).unwrap().0 == neg
                &&& decimal_parts(text@).unwrap().1 == digits_value(d@)
                &&& all_digits(d@)
                &&& match xa {
                    Some(a) => a <= 1000000000000000000000000000000 && decimal_parts(
                        text@,
                    ).unwrap().2 == (if xn {
                        -(a as int)
                    } else {
                        a as int
                    }) - fl,
                    None => decimal_parts(text@).unwrap().2 > 1000000000000000000000000000000
                        - fl || decimal_parts(text@).unwrap().2 < -1000000000000000000000000000000,
                }
            },
        },
{
    let t = chars_of(text);
    let neg = t.len() > 0 && t[0] == '-';
    let body = if neg {
        sub_chars(&t, 1, t.len())
    } else {
        sub_chars(&t, 0, t.len())
    };
    assert(t@.subrange(0, t@.len() as int) =~= t@);
    let ep = find_either(&body, 'e', 'E');
    let mant = sub_chars(&body, 0, ep);
    let dp = find_either(&mant, '.', '.');
    let ip = sub_chars(&mant, 0, dp);
    let has_dot = dp < mant.len();
    let fp = if has_dot {
        sub_chars(&mant, dp + 1, mant.len())
    } else {
        Vec::new()
    };
    assert(has_dot || fp@ =~= Seq::<char>::empty());
    let ghost ev = if ep < body@.len() {
        exponent_value(body@.subrange(ep + 1, body@.len() as int))
    } else {
        Some(0int)
    };
    let ghost parts = decimal_parts(text@);
    if ip.len() == 0 || !all_digits_exec(&ip) || (has_dot && fp.len() == 0) || !all_digits_exec(
        &fp,
    ) {
        assert(parts is None);
        return None;
    }
    let mut xn = false;
    let mut xa: Option<u128> = Some(0);
    if ep < body.len() {
        let x = sub_chars(&body, ep + 1, body.len());
        let xneg = x.len() > 0 && x[0] == '-';
        let xplus = x.len() > 0 && x[0] == '+';
        let xd = if xneg || xplus {
            sub_chars(&x, 1, x.len())
        } else {
            sub_chars(&x, 0, x.len())
        };
        assert(x@.subrange(0, x@.len() as int) =~= x@);
        if xd.len() == 0 || !all_digits_exec(&xd) {
            assert(exponent_value(x@) is None);
            assert(parts is None);
            return None;
        }
        xn = xneg;
        xa = digits_capped(&xd);
        assert(ev == Some(if xneg {
            -digits_value(xd@)
        } else {
            digits_value(xd@) as int
        }));
    }
    let mut d = sub_chars(&ip, 0, ip.len());
    let mut i: usize = 0;
    while i < fp.len()
        invariant
            i <= fp@.len(),
            d@ == ip@ + fp@.subrange(0, i as int),
        decreases fp@.len() - i,
    {
        d.push(fp[i]);
        assert(d@ =~= ip@ + fp@.subrange(0, i + 1));
        i = i + 1;
    }
    assert(ip@.subrange(0, ip@.len() as int) =~= ip@);
    assert(fp@.subrange(0, fp@.len() as int) =~= fp@);
    assert(all_digits(d@)) by {
        assert forall|j: int| 0 <= j < d@.len() implies is_digit(#[trigger] d@[j]) by {
            if j < ip@.len() {
                assert(d@[j] == ip@[j]);
            } else {
                assert(d@[j] == fp@[j - ip@.len()]);
            }
        }
    }
    assert(parts == Some((neg, digits_value(ip@ + fp@), ev.unwrap() - fp@.len())));
    Some((neg, d, fp.len(), xn, xa))
}

/// The exact decimal `mantissa * 10^exponent` that a number text spells
/// out, its mantissa without trailing zeros; `None` for a text that is no
/// decimal number, or whose parts do not fit.
pub fn decimal_of(text: &str) -> (r: Option<(i64, i32)>)
    ensures
        match r {
            Some((m, e)) => decimal_value(text@) == Some((m as int, e as int)),
            None => decimal_value(text@) is None,
        },
{
    let (neg, d, fl, xn, xa) = match number_parts(text) {
        None => {
            return None;
        },
        Some(p) => p,
    };
    let ghost se = decimal_parts(text@).unwrap().2;
    let ghost dv = digits_value(d@);
    let mut z: usize = 0;
    while z < d.len() && d[d.len() - 1 - z] == '0'
        invariant
            z <= d@.len(),
            forall|j: int| d@.len() - z <= j < d@.len() ==> d@[j] == '0',
        decreases d@.len() - z,
    {
        z = z + 1;
    }
    let sig = sub_chars(&d, 0, d.len() - z);
    proof {
        lemma_digits_zeros(d@, z as nat);
        assert(all_digits(sig@)) by {
            assert forall|j: int| 0 <= j < sig@.len() implies is_digit(#[trigger] sig@[j]) by {
                assert(sig@[j] == d@[j]);
            }
        }
    }
    let w: u128;
    let gained: usize;
    if z == d.len() {
        proof {
            assert(sig@ =~= Seq::<char>::empty());
            assert(digits_value(sig@) == 0);
            let p = pow10(z as nat);
            assert(0 * p == 0) by (nonlinear_arith);
            assert(dv == 0);
        }
        w = 0;
        gained = 0;
    } else {
        proof {
            let k = (sig@.len() - 1) as int;
            assert(sig@[k] == d@[k]);
            assert(is_digit(sig@[k]));
            let last = ((sig@.last() as u32) - 48) as nat;
            assert(1 <= last <= 9);
            assert(digits_value(sig@) == digits_value(sig@.drop_last()) * 10 + last);
            assert((digits_value(sig@.drop_last()) * 10 + last) % 10 == last) by (nonlinear_arith)
                requires
                    1 <= last <= 9,
            ;
            lemma_strip_times(digits_value(sig@), z as nat, se);
        }
        match digits_capped(&sig) {
            Some(v) => {
                w = v;
                gained = z;
            },
            None => {
                return None;
            },
        }
    }
    assert(strip_zeros(dv, se) == (w as nat, se + gained));
    let e: i128;
    match xa {
        Some(a) => {
            e = (if xn {
                -(a as i128)
            } else {
                a as i128
            }) - (fl as i128) + (gained as i128);
        },
        None => {
            assert(decimal_value(text@) is None);
            return None;
        },
    }
    assert(e == se + gained);
    let fits_m = if neg {
        w <= 9223372036854775808u128
    } else {
        w <= 9223372036854775807u128
    };
    if !fits_m || e < -2147483648i128 || e > 2147483647i128 {
        assert(decimal_value(text@) is None);
        return None;
    }
    let m: i64 = if neg {
        if w == 9223372036854775808u128 {
            i64::MIN
        } else {
            -(w as i64)
        }
    } else {
        w as i64
    };
    assert(decimal_value(text@) == Some((m as int, e as int)));
    Some((m, e as i32))
}

} // verus!
