use vstd::prelude::*;

verus! {

/// Appends one character to a string (std's `String::push`).
#[verifier::external_body]
pub(crate) fn push_char(s: &mut String, c: char)
    ensures
        final(s)@ == old(s)@.push(c),
{
    s.push(c);
}

/// An owned copy of a string slice.
pub fn owned(s: &str) -> (r: String)
    ensures
        r@ == s@,
{
    String::from_str(s)
}

/// The characters of a string slice, in order.
pub fn chars_of(s: &str) -> (out: Vec<char>)
    ensures
        out@ == s@,
{
    let mut out: Vec<char> = Vec::new();
    for c in it: s.chars()
        invariant
            out@ == it.seq().take(it.index() as int),
    {
        out.push(c);
    }
    out
}

/// A string holding the given characters.
pub fn string_from_chars(cs: &[char]) -> (out: String)
    ensures
        out@ == cs@,
{
    let mut out = String::new();
    let mut i: usize = 0;
    while i < cs.len()
        invariant
            i <= cs@.len(),
            out@ == cs@.take(i as int),
        decreases cs@.len() - i,
    {
        push_char(&mut out, cs[i]);
        assert(cs@.take(i as int).push(cs@[i as int]) =~= cs@.take(i + 1));
        i = i + 1;
    }
    assert(cs@.take(cs@.len() as int) =~= cs@);
    out
}

pub open spec fn is_upper_ascii(c: char) -> bool {
    'A' <= c && c <= 'Z'
}

/// ASCII lower-casing of one character; other characters are kept.
pub open spec fn lower_char(c: char) -> char {
    if is_upper_ascii(c) {
        ((c as u32) + 32) as char
    } else {
        c
    }
}

/// ASCII lower-casing of a text, character by character.
pub open spec fn ascii_lower(s: Seq<char>) -> Seq<char> {
    s.map_values(|c: char| lower_char(c))
}

pub fn lower_char_exec(c: char) -> (r: char)
    ensures
        r == lower_char(c),
{
    if c >= 'A' && c <= 'Z' {
        let b: u8 = (c as u8) + 32;
        b as char
    } else {
        c
    }
}

/// `str::to_ascii_lowercase`.
pub fn to_ascii_lowercase(s: &str) -> (out: String)
    ensures
        out@ == ascii_lower(s@),
{
    let cs = chars_of(s);
    let mut out = String::new();
    let mut i: usize = 0;
    while i < cs.len()
        invariant
            i <= cs@.len(),
            cs@ == s@,
            out@ == ascii_lower(s@.take(i as int)),
        decreases cs@.len() - i,
    {
        let c = lower_char_exec(cs[i]);
        push_char(&mut out, c);
        assert(ascii_lower(s@.take(i + 1)) =~= ascii_lower(s@.take(i as int)).push(c));
        i = i + 1;
    }
    assert(s@.take(cs@.len() as int) =~= s@);
    out
}


/// `p` occurs in `s` starting at position `i`.
pub open spec fn occurs_at(s: Seq<char>, p: Seq<char>, i: int) -> bool {
    0 <= i && i + p.len() <= s.len() && s.subrange(i, i + p.len()) == p
}

/// `p` occurs somewhere in `s` (the empty text occurs everywhere).
pub open spec fn contains_text(s: Seq<char>, p: Seq<char>) -> bool {
    exists|i: int| occurs_at(s, p, i)
}

/// `p` occurs in `s` at `i`, and nowhere before `i`.
pub open spec fn first_occurrence(s: Seq<char>, p: Seq<char>, i: int) -> bool {
    &&& occurs_at(s, p, i)
    &&& forall|j: int| 0 <= j < i ==> !occurs_at(s, p, j)
}

fn matches_at(s: &Vec<char>, p: &Vec<char>, i: usize) -> (r: bool)
    requires
        i + p@.len() <= s@.len(),
    ensures
        r == occurs_at(s@, p@, i as int),
{
    let mut k: usize = 0;
    while k < p.len()
        invariant
            k <= p@.len(),
            i + p@.len() <= s@.len(),
            forall|m: int| 0 <= m < k ==> s@[i + m] == p@[m],
        decreases p@.len() - k,
    {
        assert(i + k < s.len());
        if s[i + k] != p[k] {
            assert(s@.subrange(i as int, i + p@.len())[k as int] != p@[k as int]);
            return false;
        }
        k = k + 1;
    }
    assert(s@.subrange(i as int, i + p@.len()) =~= p@);
    true
}

/// The first position at or after `from` where `p` occurs in `s`.
pub fn find_from(s: &Vec<char>, p: &Vec<char>, from: usize) -> (r: Option<usize>)
    ensures
        match r {
            Some(i) => from <= i && occurs_at(s@, p@, i as int) && forall|j: int|
                from <= j < i ==> !occurs_at(s@, p@, j),
            None => forall|j: int| from <= j ==> !occurs_at(s@, p@, j),
        },
{
    if p.len() > s.len() {
        return None;
    }
    let last = s.len() - p.len();
    let mut i: usize = from;
    while i <= last
        invariant
            last == s@.len() - p@.len(),
            from <= i,
            forall|j: int| from <= j < i ==> !occurs_at(s@, p@, j),
        decreases last + 1 - i,
    {
        if matches_at(s, p, i) {
            return Some(i);
        }
        if i == last {
            return None;
        }
        i = i + 1;
    }
    None
}

/// `str::contains` with a text pattern.
pub fn text_contains(s: &str, p: &str) -> (r: bool)
    ensures
        r == contains_text(s@, p@),
{
    let sv = chars_of(s);
    let pv = chars_of(p);
    match find_from(&sv, &pv, 0) {
        Some(i) => true,
        None => {
            assert forall|j: int| !occurs_at(s@, p@, j) by {
                if j < 0 {
                }
            }
            false
        },
    }
}

/// `char::is_whitespace`: the characters with Unicode's White_Space property.
pub open spec fn is_white(c: char) -> bool {
    ||| '\t' <= c && c <= '\r'
    ||| c == ' '
    ||| c == '\u{85}'
    ||| c == '\u{a0}'
    ||| c == '\u{1680}'
    ||| '\u{2000}' <= c && c <= '\u{200a}'
    ||| c == '\u{2028}'
    ||| c == '\u{2029}'
    ||| c == '\u{202f}'
    ||| c == '\u{205f}'
    ||| c == '\u{3000}'
}

pub fn is_white_exec(c: char) -> (r: bool)
    ensures
        r == is_white(c),
{
    (c >= '\t' && c <= '\r') || c == ' ' || c == '\u{85}' || c == '\u{a0}' || c == '\u{1680}'
        || (c >= '\u{2000}' && c <= '\u{200a}') || c == '\u{2028}' || c == '\u{2029}' || c
        == '\u{202f}' || c == '\u{205f}' || c == '\u{3000}'
}

/// Number of leading white-space characters.
pub open spec fn lead_white(s: Seq<char>) -> nat
    decreases s.len(),
{
    if s.len() > 0 && is_white(s[0]) {
        1 + lead_white(s.subrange(1, s.len() as int))
    } else {
        0
    }
}

/// Number of trailing white-space characters.
pub open spec fn trail_white(s: Seq<char>) -> nat
    decreases s.len(),
{
    if s.len() > 0 && is_white(s.last()) {
        1 + trail_white(s.subrange(0, s.len() - 1))
    } else {
        0
    }
}

/// `str::trim`: the text without leading and trailing white space.
pub open spec fn trim(s: Seq<char>) -> Seq<char> {
    let t = s.subrange(lead_white(s) as int, s.len() as int);
    t.subrange(0, t.len() - trail_white(t))
}

proof fn lemma_lead_white(s: Seq<char>, i: int)
    requires
        0 <= i <= s.len(),
        forall|j: int| 0 <= j < i ==> is_white(s[j]),
    ensures
        lead_white(s) == i + lead_white(s.subrange(i, s.len() as int)),
    decreases i,
{
    if i > 0 {
        let t = s.subrange(1, s.len() as int);
        assert forall|j: int| 0 <= j < i - 1 implies is_white(t[j]) by {
            assert(t[j] == s[j + 1]);
        }
        lemma_lead_white(t, i - 1);
        assert(t.subrange(i - 1, t.len() as int) =~= s.subrange(i, s.len() as int));
    } else {
        assert(s.subrange(0, s.len() as int) =~= s);
    }
}

proof fn lemma_trail_white(s: Seq<char>, i: int)
    requires
        0 <= i <= s.len(),
        forall|j: int| i <= j < s.len() ==> is_white(s[j]),
    ensures
        trail_white(s) == (s.len() - i) + trail_white(s.subrange(0, i)),
    decreases s.len() - i,
{
    if i < s.len() {
        let t = s.subrange(0, s.len() - 1);
        assert forall|j: int| i <= j < t.len() implies is_white(t[j]) by {
            assert(t[j] == s[j]);
        }
        lemma_trail_white(t, i);
        assert(t.subrange(0, i) =~= s.subrange(0, i));
    } else {
        assert(s.subrange(0, s.len() as int) =~= s);
    }
}

/// `str::trim` on a sequence of characters.
pub fn trim_chars(s: &[char]) -> (out: Vec<char>)
    ensures
        out@ == trim(s@),
{
    let mut a: usize = 0;
    while a < s.len() && is_white_exec(s[a])
        invariant
            a <= s@.len(),
            forall|j: int| 0 <= j < a ==> is_white(s@[j]),
        decreases s@.len() - a,
    {
        a = a + 1;
    }
    proof {
        lemma_lead_white(s@, a as int);
        let rest = s@.subrange(a as int, s@.len() as int);
        if rest.len() > 0 {
            assert(rest[0] == s@[a as int]);
        }
    }
    let mut b: usize = s.len();
    while b > a && is_white_exec(s[b - 1])
        invariant
            a <= b <= s@.len(),
            forall|j: int| b <= j < s@.len() ==> is_white(s@[j]),
        decreases b,
    {
        b = b - 1;
    }
    let ghost t = s@.subrange(a as int, s@.len() as int);
    proof {
        assert(lead_white(s@) == a);
        let k = b - a;
        assert forall|j: int| k <= j < t.len() implies is_white(t[j]) by {
            assert(t[j] == s@[a + j]);
        }
        lemma_trail_white(t, k as int);
        let u = t.subrange(0, k as int);
        if u.len() > 0 {
            assert(u.last() == s@[b - 1]);
        }
        assert(trail_white(t) == t.len() - k);
    }
    let mut out: Vec<char> = Vec::new();
    let mut i: usize = a;
    while i < b
        invariant
            a <= i <= b <= s@.len(),
            out@ == s@.subrange(a as int, i as int),
        decreases b - i,
    {
        out.push(s[i]);
        assert(s@.subrange(a as int, i as int).push(s@[i as int]) =~= s@.subrange(a as int, i + 1));
        i = i + 1;
    }
    assert(out@ =~= trim(s@));
    out
}

/// `str::split(sep)`: the pieces between separators, the empty ones
/// included.
pub open spec fn split_on(s: Seq<char>, sep: char) -> Seq<Seq<char>>
    decreases s.len(),
{
    if s.len() == 0 {
        seq![Seq::<char>::empty()]
    } else {
        let r = split_on(s.drop_last(), sep);
        if s.last() == sep {
            r.push(Seq::<char>::empty())
        } else {
            r.update(r.len() - 1, r.last().push(s.last()))
        }
    }
}

proof fn lemma_split_nonempty(s: Seq<char>, sep: char)
    ensures
        split_on(s, sep).len() >= 1,
    decreases s.len(),
{
    if s.len() > 0 {
        lemma_split_nonempty(s.drop_last(), sep);
    }
}

/// The pieces of `s` between occurrences of `sep`.
pub fn split_exec(s: &[char], sep: char) -> (out: Vec<Vec<char>>)
    ensures
        out@.len() == split_on(s@, sep).len(),
        forall|k: int| 0 <= k < out@.len() ==> #[trigger] out@[k]@ == split_on(s@, sep)[k],
{
    let mut done: Vec<Vec<char>> = Vec::new();
    let mut cur: Vec<char> = Vec::new();
    let mut i: usize = 0;
    while i < s.len()
        invariant
            i <= s@.len(),
            done@.len() + 1 == split_on(s@.take(i as int), sep).len(),
            forall|k: int| 0 <= k < done@.len() ==> #[trigger] done@[k]@ == split_on(s@.take(i as int), sep)[k],
            cur@ == split_on(s@.take(i as int), sep).last(),
        decreases s@.len() - i,
    {
        proof {
            lemma_split_nonempty(s@.take(i as int), sep);
            assert(s@.take(i + 1).drop_last() =~= s@.take(i as int));
        }
        if s[i] == sep {
            let piece = cur;
            done.push(piece);
            cur = Vec::new();
        } else {
            cur.push(s[i]);
        }
        i = i + 1;
    }
    assert(s@.take(s@.len() as int) =~= s@);
    proof {
        lemma_split_nonempty(s@, sep);
    }
    done.push(cur);
    done
}

/// The digit character for `d` in `0..10`.
pub open spec fn digit_char(d: int) -> char {
    ((d + 48) as u32) as char
}

/// Decimal digits of a natural number, without leading zeros.
pub open spec fn nat_text(n: nat) -> Seq<char>
    decreases n,
{
    if n < 10 {
        seq![digit_char(n as int)]
    } else {
        nat_text(n / 10).push(digit_char((n % 10) as int))
    }
}

/// Decimal text of an integer, as `Display` writes it.
pub open spec fn int_text(n: int) -> Seq<char> {
    if n < 0 {
        seq!['-'] + nat_text((-n) as nat)
    } else {
        nat_text(n as nat)
    }
}

fn push_digit(out: &mut String, d: u128)
    requires
        d < 10,
    ensures
        final(out)@ == old(out)@.push(digit_char(d as int)),
{
    let b: u8 = (d as u8) + 48;
    push_char(out, b as char);
}

/// Appends the decimal digits of `n`.
pub fn push_nat_text(out: &mut String, n: u128)
    ensures
        final(out)@ == old(out)@ + nat_text(n as nat),
    decreases n,
{
    if n >= 10 {
        push_nat_text(out, n / 10);
    }
    push_digit(out, n % 10);
    proof {
        if n < 10 {
            assert(old(out)@ + nat_text(n as nat) =~= old(out)@.push(digit_char(n as int)));
        } else {
            assert(old(out)@ + nat_text((n / 10) as nat) + seq![digit_char((n % 10) as int)]
                =~= old(out)@ + nat_text(n as nat));
        }
    }
}

/// Decimal text of an unsigned integer (`to_string`).
pub fn u64_text(n: u64) -> (out: String)
    ensures
        out@ == int_text(n as int),
{
    let mut out = String::new();
    push_nat_text(&mut out, n as u128);
    assert(out@ =~= int_text(n as int));
    out
}

/// Decimal text of a 128-bit signed integer (`to_string`).
pub fn i128_text(n: i128) -> (out: String)
    ensures
        out@ == int_text(n as int),
{
    let mut out = String::new();
    if n < 0 {
        push_char(&mut out, '-');
        let m: u128 = if n == i128::MIN {
            170141183460469231731687303715884105728u128
        } else {
            (-n) as u128
        };
        push_nat_text(&mut out, m);
    } else {
        push_nat_text(&mut out, n as u128);
    }
    assert(out@ =~= int_text(n as int));
    out
}

/// Decimal text of a signed integer (`to_string`).
pub fn i64_text(n: i64) -> (out: String)
    ensures
        out@ == int_text(n as int),
{
    let mut out = String::new();
    if n < 0 {
        push_char(&mut out, '-');
        let m: u64 = if n == i64::MIN {
            9223372036854775808u64
        } else {
            (-n) as u64
        };
        push_nat_text(&mut out, m as u128);
    } else {
        push_nat_text(&mut out, n as u128);
    }
    assert(out@ =~= int_text(n as int));
    out
}

pub open spec fn is_digit(c: char) -> bool {
    '0' <= c && c <= '9'
}

pub open spec fn all_digits(s: Seq<char>) -> bool {
    forall|i: int| 0 <= i < s.len() ==> is_digit(#[trigger] s[i])
}

/// The value of a text of decimal digits.
pub open spec fn digits_value(s: Seq<char>) -> nat
    decreases s.len(),
{
    if s.len() == 0 {
        0
    } else {
        digits_value(s.drop_last()) * 10 + ((s.last() as u32) - 48) as nat
    }
}

/// What `str::parse` gives for an integer type with range `min..=max`: an
/// optional `+` (or `-` where the type is signed), then at least one digit, and
/// a value within the range.
pub open spec fn parse_int(s: Seq<char>, signed: bool, min: int, max: int) -> Option<int> {
    let neg = signed && s.len() > 0 && s[0] == '-';
    let plus = s.len() > 0 && s[0] == '+';
    let body = if neg || plus {
        s.subrange(1, s.len() as int)
    } else {
        s
    };
    if body.len() == 0 || !all_digits(body) {
        None
    } else {
        let v: int = if neg {
            -digits_value(body)
        } else {
            digits_value(body) as int
        };
        if min <= v <= max {
            Some(v)
        } else {
            None
        }
    }
}

/// Value of a digit text, or `None` when it is at least 2^64.
fn digits_u64(s: &Vec<char>, from: usize) -> (r: Option<u64>)
    requires
        from <= s@.len(),
        all_digits(s@.subrange(from as int, s@.len() as int)),
    ensures
        match r {
            Some(v) => v == digits_value(s@.subrange(from as int, s@.len() as int)),
            None => digits_value(s@.subrange(from as int, s@.len() as int)) > u64::MAX,
        },
{
    let mut acc: u64 = 0;
    let mut over = false;
    let mut i: usize = from;
    while i < s.len()
        invariant
            from <= i <= s@.len(),
            all_digits(s@.subrange(from as int, s@.len() as int)),
            !over ==> acc == digits_value(s@.subrange(from as int, i as int)),
            over ==> digits_value(s@.subrange(from as int, i as int)) > u64::MAX,
        decreases s@.len() - i,
    {
        let ghost pre = s@.subrange(from as int, i as int);
        let ghost nxt = s@.subrange(from as int, i + 1);
        assert(nxt.drop_last() =~= pre);
        assert(s@.subrange(from as int, s@.len() as int)[i - from] == s@[i as int]);
        let d: u64 = ((s[i] as u32) - 48) as u64;
        if !over {
            if acc > (u64::MAX - d) / 10 {
                over = true;
            } else {
                acc = acc * 10 + d;
            }
        }
        i = i + 1;
    }
    if over {
        None
    } else {
        Some(acc)
    }
}

/// `str::parse::<i64>`.
#[verifier::loop_isolation(false)]
pub fn parse_i64(text: &str) -> (r: Option<i64>)
    ensures
        r matches Some(v) ==> parse_int(text@, true, i64::MIN as int, i64::MAX as int) == Some(v as int),
        r is None ==> parse_int(text@, true, i64::MIN as int, i64::MAX as int) is None,
{
    let s = chars_of(text);
    let signed = s.len() > 0 && (s[0] == '-' || s[0] == '+');
    let neg = s.len() > 0 && s[0] == '-';
    let from: usize = if signed { 1 } else { 0 };
    let ghost body = s@.subrange(from as int, s@.len() as int);
    proof {
        if !signed {
            assert(body =~= s@);
        }
    }
    if from >= s.len() {
        assert(body.len() == 0);
        return None;
    }
    let mut k: usize = from;
    while k < s.len()
        invariant
            from <= k <= s@.len(),
            body == s@.subrange(from as int, s@.len() as int),
            forall|j: int| 0 <= j < k - from ==> is_digit(#[trigger] body[j]),
        decreases s@.len() - k,
    {
        if !(s[k] >= '0' && s[k] <= '9') {
            assert(!is_digit(body[k - from]));
            return None;
        }
        k = k + 1;
    }
    match digits_u64(&s, from) {
        None => None,
        Some(v) => {
            if neg {
                if v <= 9223372036854775807u64 {
                    Some(-(v as i64))
                } else if v == 9223372036854775808u64 {
                    Some(i64::MIN)
                } else {
                    None
                }
            } else {
                if v <= 9223372036854775807u64 {
                    Some(v as i64)
                } else {
                    None
                }
            }
        },
    }
}

/// `str::parse::<u64>`.
#[verifier::loop_isolation(false)]
pub fn parse_u64(text: &str) -> (r: Option<u64>)
    ensures
        r matches Some(v) ==> parse_int(text@, false, 0, u64::MAX as int) == Some(v as int),
        r is None ==> parse_int(text@, false, 0, u64::MAX as int) is None,
{
    let s = chars_of(text);
    let signed = s.len() > 0 && s[0] == '+';
    let from: usize = if signed { 1 } else { 0 };
    let ghost body = s@.subrange(from as int, s@.len() as int);
    proof {
        if !signed {
            assert(body =~= s@);
        }
    }
    if from >= s.len() {
        assert(body.len() == 0);
        return None;
    }
    let mut k: usize = from;
    while k < s.len()
        invariant
            from <= k <= s@.len(),
            body == s@.subrange(from as int, s@.len() as int),
            forall|j: int| 0 <= j < k - from ==> is_digit(#[trigger] body[j]),
        decreases s@.len() - k,
    {
        if !(s[k] >= '0' && s[k] <= '9') {
            assert(!is_digit(body[k - from]));
            return None;
        }
        k = k + 1;
    }
    match digits_u64(&s, from) {
        None => None,
        Some(v) => {
            Some(v)
        },
    }
}


/// Equality of two string slices, character by character.
pub fn str_eq(a: &str, b: &str) -> (r: bool)
    ensures
        r == (a@ == b@),
{
    let x = chars_of(a);
    let y = chars_of(b);
    if x.len() != y.len() {
        assert(a@.len() != b@.len());
        return false;
    }
    let mut i: usize = 0;
    while i < x.len()
        invariant
            x@.len() == y@.len(),
            x@ == a@,
            y@ == b@,
            i <= x@.len(),
            forall|j: int| 0 <= j < i ==> x@[j] == y@[j],
        decreases x@.len() - i,
    {
        if x[i] != y[i] {
            assert(a@[i as int] != b@[i as int]);
            return false;
        }
        i = i + 1;
    }
    assert(x@ =~= y@);
    true
}


/// ASCII lower-casing of a character sequence.
pub fn lower_chars(s: &[char]) -> (out: Vec<char>)
    ensures
        out@ == ascii_lower(s@),
{
    let mut out: Vec<char> = Vec::new();
    let mut i: usize = 0;
    while i < s.len()
        invariant
            i <= s@.len(),
            out@ == ascii_lower(s@.take(i as int)),
        decreases s@.len() - i,
    {
        let c = lower_char_exec(s[i]);
        out.push(c);
        assert(ascii_lower(s@.take(i + 1)) =~= ascii_lower(s@.take(i as int)).push(c));
        i = i + 1;
    }
    assert(s@.take(s@.len() as int) =~= s@);
    out
}


proof fn lemma_nat_text_digits(n: nat)
    ensures
        nat_text(n).len() >= 1,
        all_digits(nat_text(n)),
        digits_value(nat_text(n)) == n,
    decreases n,
{
    if n >= 10 {
        lemma_nat_text_digits(n / 10);
        let t = nat_text(n / 10);
        let c = digit_char((n % 10) as int);
        assert(nat_text(n) == t.push(c));
        assert(t.push(c).drop_last() =~= t);
        assert((c as u32) == (n % 10) + 48);
        assert(t.push(c).last() == c);
        assert(digits_value(t.push(c)) == digits_value(t) * 10 + ((c as u32) - 48) as nat);
        assert(n == (n / 10) * 10 + n % 10);
        assert forall|i: int| 0 <= i < t.push(c).len() implies is_digit(#[trigger] t.push(c)[i]) by {
            if i < t.len() {
                assert(t.push(c)[i] == t[i]);
            }
        }
    } else {
        let c = digit_char(n as int);
        assert((c as u32) == n + 48);
        assert(nat_text(n) =~= seq![c]);
        assert(seq![c].drop_last() =~= Seq::<char>::empty());
        assert(seq![c].last() == c);
        assert(digits_value(seq![c]) == digits_value(Seq::<char>::empty()) * 10 + ((c as u32) - 48) as nat);
    }
}

/// Reading back a written integer: `parse::<i64>` of the decimal text of an
/// `i64` gives that integer.
pub proof fn parse_reads_int_text(n: int)
    requires
        i64::MIN <= n <= i64::MAX,
    ensures
        parse_int(int_text(n), true, i64::MIN as int, i64::MAX as int) == Some(n),
{
    if n < 0 {
        let m = (-n) as nat;
        lemma_nat_text_digits(m);
        let s = int_text(n);
        assert(s[0] == '-');
        assert(s.subrange(1, s.len() as int) =~= nat_text(m));
    } else {
        lemma_nat_text_digits(n as nat);
        let s = int_text(n);
        assert(is_digit(s[0]));
    }
}

/// Reading back a written unsigned integer: `parse::<u64>` of the decimal
/// text of a `u64` gives that integer.
pub proof fn parse_reads_nat_text(n: int)
    requires
        0 <= n <= u64::MAX,
    ensures
        parse_int(int_text(n), false, 0, u64::MAX as int) == Some(n),
{
    lemma_nat_text_digits(n as nat);
    let s = int_text(n);
    assert(is_digit(s[0]));
}

}
