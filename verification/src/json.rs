use vstd::prelude::*;
use crate::text::push_char;

verus! {

/// A JSON number, as a JSON parser hands it over: a non-negative integer, a
/// negative integer, or a number with a fraction or exponent. The latter is
/// held as the exact decimal `mantissa * 10^exponent`, together with the
/// text that a JSON writer prints for it.
#[derive(Debug, Clone)]
pub enum JsonNumber {
    PosInt(u64),
    NegInt(i64),
    Float { mantissa: i64, exponent: i32, text: String },
}

/// A JSON document. Objects keep their members in order, keys distinct.
#[derive(Debug)]
pub enum JsonValue {
    Null,
    Bool(bool),
    Number(JsonNumber),
    String(String),
    Array(Vec<JsonValue>),
    Object(Vec<(String, JsonValue)>),
}

/// The mathematical content of a JSON number.
pub enum NumberView {
    PosInt(nat),
    NegInt(int),
    Float { mantissa: int, exponent: int, text: Seq<char> },
}

/// The mathematical content of a JSON document.
pub enum JsonView {
    Null,
    Bool(bool),
    Number(NumberView),
    String(Seq<char>),
    Array(Seq<JsonView>),
    Object(Seq<(Seq<char>, JsonView)>),
}

impl View for JsonNumber {
    type V = NumberView;

    open spec fn view(&self) -> NumberView {
        match self {
            JsonNumber::PosInt(u) => NumberView::PosInt(*u as nat),
            JsonNumber::NegInt(i) => NumberView::NegInt(*i as int),
            JsonNumber::Float { mantissa, exponent, text } => NumberView::Float {
                mantissa: *mantissa as int,
                exponent: *exponent as int,
                text: text@,
            },
        }
    }
}

pub open spec fn view_items(s: Seq<JsonValue>) -> Seq<JsonView>
    decreases s,
{
    if s.len() == 0 {
        Seq::empty()
    } else {
        view_items(s.subrange(0, s.len() - 1)).push(view_json(s[s.len() - 1]))
    }
}

pub open spec fn view_members(s: Seq<(String, JsonValue)>) -> Seq<(Seq<char>, JsonView)>
    decreases s,
{
    if s.len() == 0 {
        Seq::empty()
    } else {
        view_members(s.subrange(0, s.len() - 1)).push(
            (s[s.len() - 1].0@, view_json(s[s.len() - 1].1)),
        )
    }
}

pub open spec fn view_json(v: JsonValue) -> JsonView
    decreases v,
{
    match v {
        JsonValue::Null => JsonView::Null,
        JsonValue::Bool(b) => JsonView::Bool(b),
        JsonValue::Number(n) => JsonView::Number(n@),
        JsonValue::String(s) => JsonView::String(s@),
        JsonValue::Array(items) => JsonView::Array(view_items(items@)),
        JsonValue::Object(members) => JsonView::Object(view_members(members@)),
    }
}


impl View for JsonValue {
    type V = JsonView;

    open spec fn view(&self) -> JsonView {
        view_json(*self)
    }
}

pub proof fn lemma_view_items(s: Seq<JsonValue>)
    ensures
        view_items(s).len() == s.len(),
        forall|i: int| 0 <= i < s.len() ==> #[trigger] view_items(s)[i] == view_json(s[i]),
    decreases s.len(),
{
    if s.len() > 0 {
        lemma_view_items(s.subrange(0, s.len() - 1));
    }
}

pub proof fn lemma_view_members(s: Seq<(String, JsonValue)>)
    ensures
        view_members(s).len() == s.len(),
        forall|i: int|
            0 <= i < s.len() ==> #[trigger] view_members(s)[i] == (s[i].0@, view_json(s[i].1)),
    decreases s.len(),
{
    if s.len() > 0 {
        lemma_view_members(s.subrange(0, s.len() - 1));
    }
}

/// The value of the first member named `key`, for an object.
pub open spec fn member(ms: Seq<(Seq<char>, JsonView)>, key: Seq<char>) -> Option<JsonView>
    decreases ms.len(),
{
    if ms.len() == 0 {
        None
    } else if ms[0].0 == key {
        Some(ms[0].1)
    } else {
        member(ms.subrange(1, ms.len() as int), key)
    }
}

/// `Value::get` with a key: the member of an object, `None` otherwise.
pub open spec fn get(v: JsonView, key: Seq<char>) -> Option<JsonView> {
    match v {
        JsonView::Object(ms) => member(ms, key),
        _ => None,
    }
}

/// `get(key).and_then(Value::as_str)`.
pub open spec fn get_str(v: JsonView, key: Seq<char>) -> Option<Seq<char>> {
    match get(v, key) {
        Some(JsonView::String(s)) => Some(s),
        _ => None,
    }
}

/// `Value::as_i64`.
pub open spec fn as_i64(v: JsonView) -> Option<int> {
    match v {
        JsonView::Number(NumberView::PosInt(u)) => if u <= i64::MAX {
            Some(u as int)
        } else {
            None
        },
        JsonView::Number(NumberView::NegInt(i)) => Some(i),
        _ => None,
    }
}

/// `get(key).and_then(Value::as_i64)`.
pub open spec fn get_i64(v: JsonView, key: Seq<char>) -> Option<int> {
    match get(v, key) {
        Some(x) => as_i64(x),
        None => None,
    }
}

/// `get(key).and_then(Value::as_bool)`.
pub open spec fn get_bool(v: JsonView, key: Seq<char>) -> Option<bool> {
    match get(v, key) {
        Some(JsonView::Bool(b)) => Some(b),
        _ => None,
    }
}

/// `get(key).and_then(Value::as_array)`.
pub open spec fn get_array(v: JsonView, key: Seq<char>) -> Option<Seq<JsonView>> {
    match get(v, key) {
        Some(JsonView::Array(items)) => Some(items),
        _ => None,
    }
}

impl Clone for JsonValue {
    fn clone(&self) -> (r: Self)
        ensures
            r@ == self@,
    {
        json_clone(self)
    }
}

/// A copy of a JSON document.
#[verifier::loop_isolation(false)]
pub fn json_clone(v: &JsonValue) -> (r: JsonValue)
    ensures
        r@ == v@,
    decreases v,
{
    match v {
        JsonValue::Null => JsonValue::Null,
        JsonValue::Bool(b) => JsonValue::Bool(*b),
        JsonValue::Number(n) => JsonValue::Number(number_clone(n)),
        JsonValue::String(s) => JsonValue::String(s.clone()),
        JsonValue::Array(items) => {
            let mut out: Vec<JsonValue> = Vec::new();
            let mut i: usize = 0;
            while i < items.len()
                invariant
                    i <= items@.len(),
                    view_items(out@) == view_items(items@.subrange(0, i as int)),
                decreases items@.len() - i,
            {
                assert(decreases_to!(*v => items@));
                assert(decreases_to!(items@ => items@[i as int]));
                let c = json_clone(&items[i]);
                let ghost before = out@;
                out.push(c);
                assert(out@.subrange(0, out@.len() - 1) =~= before);
                assert(items@.subrange(0, i + 1).subrange(0, i as int) =~= items@.subrange(
                    0,
                    i as int,
                ));
                i = i + 1;
            }
            assert(items@.subrange(0, items@.len() as int) =~= items@);
            JsonValue::Array(out)
        },
        JsonValue::Object(members) => {
            let mut out: Vec<(String, JsonValue)> = Vec::new();
            let mut i: usize = 0;
            while i < members.len()
                invariant
                    i <= members@.len(),
                    view_members(out@) == view_members(members@.subrange(0, i as int)),
                decreases members@.len() - i,
            {
                assert(decreases_to!(*v => members@));
                assert(decreases_to!(members@ => members@[i as int]));
                assert(decreases_to!(members@[i as int] => members@[i as int].1));
                let c = json_clone(&members[i].1);
                let k = members[i].0.clone();
                let ghost before = out@;
                out.push((k, c));
                assert(out@.subrange(0, out@.len() - 1) =~= before);
                assert(members@.subrange(0, i + 1).subrange(0, i as int) =~= members@.subrange(
                    0,
                    i as int,
                ));
                i = i + 1;
            }
            assert(members@.subrange(0, members@.len() as int) =~= members@);
            JsonValue::Object(out)
        },
    }
}

/// A copy of a JSON number.
pub fn number_clone(n: &JsonNumber) -> (r: JsonNumber)
    ensures
        r@ == n@,
{
    match n {
        JsonNumber::PosInt(u) => JsonNumber::PosInt(*u),
        JsonNumber::NegInt(i) => JsonNumber::NegInt(*i),
        JsonNumber::Float { mantissa, exponent, text } => JsonNumber::Float {
            mantissa: *mantissa,
            exponent: *exponent,
            text: text.clone(),
        },
    }
}

/// `Value::get` with a key.
pub fn json_get<'a>(v: &'a JsonValue, key: &str) -> (r: Option<&'a JsonValue>)
    ensures
        match r {
            Some(x) => get(v@, key@) == Some(x@),
            None => get(v@, key@) is None,
        },
{
    match v {
        JsonValue::Object(members) => {
            proof {
                lemma_view_members(members@);
            }
            let ghost ms = view_members(members@);
            assert(v@ == JsonView::Object(ms));
            assert(ms.subrange(0, ms.len() as int) =~= ms);
            let mut i: usize = 0;
            while i < members.len()
                invariant
                    i <= members@.len(),
                    ms == view_members(members@),
                    ms.len() == members@.len(),
                    forall|j: int|
                        0 <= j < members@.len() ==> #[trigger] ms[j] == (
                            members@[j].0@,
                            view_json(members@[j].1),
                        ),
                    member(ms, key@) == member(ms.subrange(i as int, ms.len() as int), key@),
                    v@ == JsonView::Object(ms),
                decreases members@.len() - i,
            {
                let ghost rest = ms.subrange(i as int, ms.len() as int);
                assert(rest[0] == ms[i as int]);
                if crate::text::str_eq(members[i].0.as_str(), key) {
                    return Some(&members[i].1);
                }
                assert(rest.subrange(1, rest.len() as int) =~= ms.subrange(
                    i + 1,
                    ms.len() as int,
                ));
                i = i + 1;
            }
            None
        },
        _ => None,
    }
}

/// `get(key).and_then(Value::as_str)`, copied out.
pub fn json_get_str(v: &JsonValue, key: &str) -> (r: Option<String>)
    ensures
        match r {
            Some(s) => get_str(v@, key@) == Some(s@),
            None => get_str(v@, key@) is None,
        },
{
    match json_get(v, key) {
        Some(JsonValue::String(s)) => Some(s.clone()),
        _ => None,
    }
}

/// `Value::as_i64`.
pub fn json_as_i64(v: &JsonValue) -> (r: Option<i64>)
    ensures
        match r {
            Some(i) => as_i64(v@) == Some(i as int),
            None => as_i64(v@) is None,
        },
{
    match v {
        JsonValue::Number(JsonNumber::PosInt(u)) => {
            if *u <= 9223372036854775807u64 {
                Some(*u as i64)
            } else {
                None
            }
        },
        JsonValue::Number(JsonNumber::NegInt(i)) => Some(*i),
        _ => None,
    }
}

/// `get(key).and_then(Value::as_i64)`.
pub fn json_get_i64(v: &JsonValue, key: &str) -> (r: Option<i64>)
    ensures
        match r {
            Some(i) => get_i64(v@, key@) == Some(i as int),
            None => get_i64(v@, key@) is None,
        },
{
    match json_get(v, key) {
        Some(x) => json_as_i64(x),
        None => None,
    }
}

/// `get(key).and_then(Value::as_bool)`.
pub fn json_get_bool(v: &JsonValue, key: &str) -> (r: Option<bool>)
    ensures
        r == get_bool(v@, key@),
{
    match json_get(v, key) {
        Some(JsonValue::Bool(b)) => Some(*b),
        _ => None,
    }
}


/// Lower-case hexadecimal digit for `d` in `0..16`.
pub open spec fn hex_digit(d: int) -> char {
    if d < 10 {
        ((d + 48) as u32) as char
    } else {
        ((d + 87) as u32) as char
    }
}

/// How a JSON writer writes one character inside a string literal: quote,
/// backslash and control characters are escaped, all others kept.
pub open spec fn escape_char(c: char) -> Seq<char> {
    if c == '"' {
        seq!['\\', '"']
    } else if c == '\\' {
        seq!['\\', '\\']
    } else if c == '\u{8}' {
        seq!['\\', 'b']
    } else if c == '\t' {
        seq!['\\', 't']
    } else if c == '\n' {
        seq!['\\', 'n']
    } else if c == '\u{c}' {
        seq!['\\', 'f']
    } else if c == '\r' {
        seq!['\\', 'r']
    } else if (c as u32) < 32 {
        seq!['\\', 'u', '0', '0', hex_digit(((c as u32) / 16) as int), hex_digit(((c as u32) % 16) as int)]
    } else {
        seq![c]
    }
}

/// The escaped body of a string literal.
pub open spec fn escape_text(s: Seq<char>) -> Seq<char>
    decreases s.len(),
{
    if s.len() == 0 {
        Seq::empty()
    } else {
        escape_text(s.drop_last()) + escape_char(s.last())
    }
}

/// A JSON string literal.
pub open spec fn quoted(s: Seq<char>) -> Seq<char> {
    seq!['"'] + escape_text(s) + seq!['"']
}

/// How a JSON writer writes a number.
pub open spec fn number_text(n: NumberView) -> Seq<char> {
    match n {
        NumberView::PosInt(u) => crate::text::int_text(u as int),
        NumberView::NegInt(i) => crate::text::int_text(i),
        NumberView::Float { text, .. } => text,
    }
}

/// The compact JSON text of a document (no white space, members in order).
pub open spec fn json_text(v: JsonView) -> Seq<char>
    decreases v,
{
    match v {
        JsonView::Null => seq!['n', 'u', 'l', 'l'],
        JsonView::Bool(b) => if b {
            seq!['t', 'r', 'u', 'e']
        } else {
            seq!['f', 'a', 'l', 's', 'e']
        },
        JsonView::Number(n) => number_text(n),
        JsonView::String(s) => quoted(s),
        JsonView::Array(items) => seq!['['] + items_text(items) + seq![']'],
        JsonView::Object(ms) => seq!['{'] + members_text(ms) + seq!['}'],
    }
}

/// Comma-separated texts of array items.
pub open spec fn items_text(s: Seq<JsonView>) -> Seq<char>
    decreases s,
{
    if s.len() == 0 {
        Seq::empty()
    } else if s.len() == 1 {
        json_text(s[0])
    } else {
        items_text(s.subrange(0, s.len() - 1)) + seq![','] + json_text(s[s.len() - 1])
    }
}

/// Comma-separated `"key":value` texts of object members.
pub open spec fn members_text(s: Seq<(Seq<char>, JsonView)>) -> Seq<char>
    decreases s,
{
    if s.len() == 0 {
        Seq::empty()
    } else if s.len() == 1 {
        quoted(s[0].0) + seq![':'] + json_text(s[0].1)
    } else {
        members_text(s.subrange(0, s.len() - 1)) + seq![','] + quoted(s[s.len() - 1].0) + seq![
            ':',
        ] + json_text(s[s.len() - 1].1)
    }
}

fn push_escaped_char(out: &mut String, c: char)
    ensures
        final(out)@ == old(out)@ + escape_char(c),
{
    if c == '"' || c == '\\' {
        push_char(out, '\\');
        push_char(out, c);
    } else if c == '\u{8}' {
        push_char(out, '\\');
        push_char(out, 'b');
    } else if c == '\t' {
        push_char(out, '\\');
        push_char(out, 't');
    } else if c == '\n' {
        push_char(out, '\\');
        push_char(out, 'n');
    } else if c == '\u{c}' {
        push_char(out, '\\');
        push_char(out, 'f');
    } else if c == '\r' {
        push_char(out, '\\');
        push_char(out, 'r');
    } else if (c as u32) < 32 {
        let code: u32 = c as u32;
        push_char(out, '\\');
        push_char(out, 'u');
        push_char(out, '0');
        push_char(out, '0');
        let hi: u8 = (code / 16) as u8;
        let lo: u8 = (code % 16) as u8;
        push_char(out, (hi + 48) as char);
        let lo_c: char = if lo < 10 {
            (lo + 48) as char
        } else {
            (lo + 87) as char
        };
        push_char(out, lo_c);
    } else {
        push_char(out, c);
    }
    assert(final(out)@ =~= old(out)@ + escape_char(c));
}

/// Appends a JSON string literal.
pub fn push_quoted(out: &mut String, s: &str)
    ensures
        final(out)@ == old(out)@ + quoted(s@),
{
    let cs = crate::text::chars_of(s);
    let ghost start = out@;
    crate::text::push_char(out, '"');
    let mut i: usize = 0;
    while i < cs.len()
        invariant
            i <= cs@.len(),
            cs@ == s@,
            out@ == start + seq!['"'] + escape_text(s@.take(i as int)),
        decreases cs@.len() - i,
    {
        push_escaped_char(out, cs[i]);
        assert(s@.take(i + 1).drop_last() =~= s@.take(i as int));
        assert(out@ =~= start + seq!['"'] + escape_text(s@.take(i + 1)));
        i = i + 1;
    }
    crate::text::push_char(out, '"');
    assert(s@.take(cs@.len() as int) =~= s@);
    assert(out@ =~= start + quoted(s@));
}

fn push_text(out: &mut String, t: &str)
    ensures
        final(out)@ == old(out)@ + t@,
{
    let cs = crate::text::chars_of(t);
    let ghost start = out@;
    let mut i: usize = 0;
    while i < cs.len()
        invariant
            i <= cs@.len(),
            cs@ == t@,
            out@ == start + t@.take(i as int),
        decreases cs@.len() - i,
    {
        crate::text::push_char(out, cs[i]);
        assert(start + t@.take(i + 1) =~= (start + t@.take(i as int)).push(cs@[i as int]));
        i = i + 1;
    }
    assert(t@.take(cs@.len() as int) =~= t@);
}

/// Appends the compact JSON text of `v`.
pub fn write_json(out: &mut String, v: &JsonValue)
    ensures
        final(out)@ == old(out)@ + json_text(v@),
    decreases v,
{
    let ghost start = out@;
    match v {
        JsonValue::Null => {
            push_char(out, 'n');
            push_char(out, 'u');
            push_char(out, 'l');
            push_char(out, 'l');
            assert(out@ =~= start + json_text(v@));
        },
        JsonValue::Bool(b) => {
            if *b {
                push_char(out, 't');
                push_char(out, 'r');
                push_char(out, 'u');
                push_char(out, 'e');
            } else {
                push_char(out, 'f');
                push_char(out, 'a');
                push_char(out, 'l');
                push_char(out, 's');
                push_char(out, 'e');
            }
            assert(out@ =~= start + json_text(v@));
        },
        JsonValue::Number(JsonNumber::PosInt(u)) => {
            crate::text::push_nat_text(out, *u as u128);
        },
        JsonValue::Number(JsonNumber::NegInt(i)) => {
            let t = crate::text::i64_text(*i);
            push_text(out, t.as_str());
        },
        JsonValue::Number(JsonNumber::Float { text, .. }) => {
            push_text(out, text.as_str());
        },
        JsonValue::String(s) => {
            push_quoted(out, s.as_str());
        },
        JsonValue::Array(items) => {
            assert(decreases_to!(*v => *items));
            push_char(out, '[');
            write_items(out, items);
            push_char(out, ']');
            assert(out@ =~= start + json_text(v@));
        },
        JsonValue::Object(members) => {
            assert(decreases_to!(*v => *members));
            push_char(out, '{');
            write_members(out, members);
            push_char(out, '}');
            assert(out@ =~= start + json_text(v@));
        },
    }
}

fn write_items(out: &mut String, items: &Vec<JsonValue>)
    ensures
        final(out)@ == old(out)@ + items_text(view_items(items@)),
    decreases items,
{
    proof {
        lemma_view_items(items@);
    }
    let ghost vs = view_items(items@);
    let ghost start = out@;
    let mut i: usize = 0;
    while i < items.len()
        invariant
            i <= items@.len(),
            vs == view_items(items@),
            vs.len() == items@.len(),
            forall|j: int| 0 <= j < items@.len() ==> #[trigger] vs[j] == view_json(items@[j]),
            out@ == start + items_text(vs.subrange(0, i as int)),
        decreases items@.len() - i,
    {
        assert(decreases_to!(*items => items@));
        assert(decreases_to!(items@ => items@[i as int]));
        if i > 0 {
            push_char(out, ',');
        }
        write_json(out, &items[i]);
        assert(vs.subrange(0, i + 1).subrange(0, i as int) =~= vs.subrange(0, i as int));
        assert(vs.subrange(0, i + 1)[i as int] == items@[i as int]@);
        assert(out@ =~= start + items_text(vs.subrange(0, i + 1)));
        i = i + 1;
    }
    assert(vs.subrange(0, vs.len() as int) =~= vs);
}

fn write_members(out: &mut String, members: &Vec<(String, JsonValue)>)
    ensures
        final(out)@ == old(out)@ + members_text(view_members(members@)),
    decreases members,
{
    proof {
        lemma_view_members(members@);
    }
    let ghost ms = view_members(members@);
    let ghost start = out@;
    let mut i: usize = 0;
    while i < members.len()
        invariant
            i <= members@.len(),
            ms == view_members(members@),
            ms.len() == members@.len(),
            forall|j: int|
                0 <= j < members@.len() ==> #[trigger] ms[j] == (
                    members@[j].0@,
                    view_json(members@[j].1),
                ),
            out@ == start + members_text(ms.subrange(0, i as int)),
        decreases members@.len() - i,
    {
        assert(decreases_to!(*members => members@));
        assert(decreases_to!(members@ => members@[i as int]));
        assert(decreases_to!(members@[i as int] => members@[i as int].1));
        if i > 0 {
            push_char(out, ',');
        }
        push_quoted(out, members[i].0.as_str());
        push_char(out, ':');
        write_json(out, &members[i].1);
        assert(ms.subrange(0, i + 1).subrange(0, i as int) =~= ms.subrange(0, i as int));
        assert(ms.subrange(0, i + 1)[i as int] == ms[i as int]);
        assert(out@ =~= start + members_text(ms.subrange(0, i + 1)));
        i = i + 1;
    }
    assert(ms.subrange(0, ms.len() as int) =~= ms);
}

/// The compact JSON text of `v` (`serde_json::to_string`, `Display`).
pub fn compact_json(v: &JsonValue) -> (r: String)
    ensures
        r@ == json_text(v@),
{
    let mut out = String::new();
    write_json(&mut out, v);
    assert(out@ =~= json_text(v@));
    out
}


/// A member name whose value is never shown in an error message: one that
/// holds `token`, `secret` or `authorization`, in any ASCII case.
pub open spec fn sensitive_key(k: Seq<char>) -> bool {
    let l = crate::text::ascii_lower(k);
    ||| crate::text::contains_text(l, seq!['t', 'o', 'k', 'e', 'n'])
    ||| crate::text::contains_text(l, seq!['s', 'e', 'c', 'r', 'e', 't'])
    ||| crate::text::contains_text(
        l,
        seq!['a', 'u', 't', 'h', 'o', 'r', 'i', 'z', 'a', 't', 'i', 'o', 'n'],
    )
}

/// The text that stands in for a hidden value.
pub open spec fn redacted_marker() -> Seq<char> {
    seq!['<', 'r', 'e', 'd', 'a', 'c', 't', 'e', 'd', '>']
}

/// A document with the value of every sensitive member, at any depth,
/// replaced by the string `<redacted>`.
pub open spec fn redact(v: JsonView) -> JsonView
    decreases v,
{
    match v {
        JsonView::Object(ms) => JsonView::Object(redact_members(ms)),
        JsonView::Array(items) => JsonView::Array(redact_items(items)),
        _ => v,
    }
}

pub open spec fn redact_items(s: Seq<JsonView>) -> Seq<JsonView>
    decreases s,
{
    if s.len() == 0 {
        Seq::empty()
    } else {
        redact_items(s.subrange(0, s.len() - 1)).push(redact(s[s.len() - 1]))
    }
}

pub open spec fn redact_members(s: Seq<(Seq<char>, JsonView)>) -> Seq<(Seq<char>, JsonView)>
    decreases s,
{
    if s.len() == 0 {
        Seq::empty()
    } else {
        redact_members(s.subrange(0, s.len() - 1)).push(
            (
                s[s.len() - 1].0,
                if sensitive_key(s[s.len() - 1].0) {
                    JsonView::String(redacted_marker())
                } else {
                    redact(s[s.len() - 1].1)
                },
            ),
        )
    }
}

/// No sensitive member, at any depth, holds anything but `<redacted>`.
pub open spec fn shows_no_secret(v: JsonView) -> bool
    decreases v,
{
    match v {
        JsonView::Object(ms) => forall|i: int|
            0 <= i < ms.len() ==> if sensitive_key(#[trigger] ms[i].0) {
                ms[i].1 == JsonView::String(redacted_marker())
            } else {
                shows_no_secret(ms[i].1)
            },
        JsonView::Array(items) => forall|i: int|
            0 <= i < items.len() ==> shows_no_secret(#[trigger] items[i]),
        _ => true,
    }
}

proof fn lemma_redact_items(s: Seq<JsonView>)
    ensures
        redact_items(s).len() == s.len(),
        forall|i: int| 0 <= i < s.len() ==> #[trigger] redact_items(s)[i] == redact(s[i]),
    decreases s.len(),
{
    if s.len() > 0 {
        lemma_redact_items(s.subrange(0, s.len() - 1));
    }
}

proof fn lemma_redact_members(s: Seq<(Seq<char>, JsonView)>)
    ensures
        redact_members(s).len() == s.len(),
        forall|i: int|
            0 <= i < s.len() ==> #[trigger] redact_members(s)[i] == (
                s[i].0,
                if sensitive_key(s[i].0) {
                    JsonView::String(redacted_marker())
                } else {
                    redact(s[i].1)
                },
            ),
    decreases s.len(),
{
    if s.len() > 0 {
        lemma_redact_members(s.subrange(0, s.len() - 1));
    }
}

/// Redaction leaves no secret visible: after `redact`, every sensitive
/// member at any depth holds only `<redacted>`.
pub proof fn redact_hides_secrets(v: JsonView)
    ensures
        shows_no_secret(redact(v)),
    decreases v,
{
    match v {
        JsonView::Object(ms) => {
            lemma_redact_members(ms);
            let r = redact_members(ms);
            assert forall|i: int| 0 <= i < r.len() implies if sensitive_key(#[trigger] r[i].0) {
                r[i].1 == JsonView::String(redacted_marker())
            } else {
                shows_no_secret(r[i].1)
            } by {
                if !sensitive_key(ms[i].0) {
                    redact_hides_secrets(ms[i].1);
                }
            }
        },
        JsonView::Array(items) => {
            lemma_redact_items(items);
            let r = redact_items(items);
            assert forall|i: int| 0 <= i < r.len() implies shows_no_secret(#[trigger] r[i]) by {
                redact_hides_secrets(items[i]);
            }
        },
        _ => {},
    }
}

/// Redacting twice hides nothing more than redacting once.
pub proof fn redact_idempotent(v: JsonView)
    ensures
        redact(redact(v)) == redact(v),
    decreases v,
{
    match v {
        JsonView::Object(ms) => {
            lemma_redact_members(ms);
            let r = redact_members(ms);
            lemma_redact_members(r);
            let rr = redact_members(r);
            assert forall|i: int| 0 <= i < r.len() implies #[trigger] rr[i] == r[i] by {
                if !sensitive_key(ms[i].0) {
                    redact_idempotent(ms[i].1);
                }
            }
            assert(rr =~= r);
        },
        JsonView::Array(items) => {
            lemma_redact_items(items);
            let r = redact_items(items);
            lemma_redact_items(r);
            let rr = redact_items(r);
            assert forall|i: int| 0 <= i < r.len() implies #[trigger] rr[i] == r[i] by {
                redact_idempotent(items[i]);
            }
            assert(rr =~= r);
        },
        _ => {},
    }
}

/// Whether a member name is sensitive.
pub fn is_sensitive_key(k: &str) -> (r: bool)
    ensures
        r == sensitive_key(k@),
{
    let l = crate::text::to_ascii_lowercase(k);
    let a = crate::text::text_contains(l.as_str(), "token");
    let b = crate::text::text_contains(l.as_str(), "secret");
    let c = crate::text::text_contains(l.as_str(), "authorization");
    proof {
        reveal_strlit("token");
        reveal_strlit("secret");
        reveal_strlit("authorization");
        assert("token"@ =~= seq!['t', 'o', 'k', 'e', 'n']);
        assert("secret"@ =~= seq!['s', 'e', 'c', 'r', 'e', 't']);
        assert("authorization"@ =~= seq![
            'a',
            'u',
            't',
            'h',
            'o',
            'r',
            'i',
            'z',
            'a',
            't',
            'i',
            'o',
            'n',
        ]);
    }
    a || b || c
}

/// The `<redacted>` marker as a string.
fn redacted_string() -> (r: String)
    ensures
        r@ == redacted_marker(),
{
    let mut s = String::new();
    push_char(&mut s, '<');
    push_char(&mut s, 'r');
    push_char(&mut s, 'e');
    push_char(&mut s, 'd');
    push_char(&mut s, 'a');
    push_char(&mut s, 'c');
    push_char(&mut s, 't');
    push_char(&mut s, 'e');
    push_char(&mut s, 'd');
    push_char(&mut s, '>');
    assert(s@ =~= redacted_marker());
    s
}

/// A copy of `v` with every sensitive member's value replaced by
/// `<redacted>`.
pub fn redact_json(v: &JsonValue) -> (r: JsonValue)
    ensures
        r@ == redact(v@),
    decreases v,
{
    match v {
        JsonValue::Object(members) => {
            assert(decreases_to!(*v => *members));
            JsonValue::Object(redact_members_exec(members))
        },
        JsonValue::Array(items) => {
            assert(decreases_to!(*v => *items));
            JsonValue::Array(redact_items_exec(items))
        },
        _ => json_clone(v),
    }
}

fn redact_members_exec(members: &Vec<(String, JsonValue)>) -> (out: Vec<(String, JsonValue)>)
    ensures
        view_members(out@) == redact_members(view_members(members@)),
    decreases members,
{
    proof {
        lemma_view_members(members@);
    }
    let ghost ms = view_members(members@);
    let mut out: Vec<(String, JsonValue)> = Vec::new();
    let mut i: usize = 0;
    while i < members.len()
        invariant
            i <= members@.len(),
            ms == view_members(members@),
            ms.len() == members@.len(),
            forall|j: int|
                0 <= j < members@.len() ==> #[trigger] ms[j] == (
                    members@[j].0@,
                    view_json(members@[j].1),
                ),
            view_members(out@) == redact_members(ms.subrange(0, i as int)),
        decreases members@.len() - i,
    {
        assert(decreases_to!(*members => members@));
        assert(decreases_to!(members@ => members@[i as int]));
        assert(decreases_to!(members@[i as int] => members@[i as int].1));
        let k = members[i].0.clone();
        let value = if is_sensitive_key(members[i].0.as_str()) {
            JsonValue::String(redacted_string())
        } else {
            redact_json(&members[i].1)
        };
        let ghost before = out@;
        let ghost entry = (k@, value@);
        assert(entry == (ms[i as int].0, if sensitive_key(ms[i as int].0) {
            JsonView::String(redacted_marker())
        } else {
            redact(ms[i as int].1)
        }));
        out.push((k, value));
        assert(out@.subrange(0, out@.len() - 1) =~= before);
        assert(view_members(out@) == view_members(before).push(entry));
        assert(ms.subrange(0, i + 1).subrange(0, i as int) =~= ms.subrange(0, i as int));
        assert(ms.subrange(0, i + 1)[i as int] == ms[i as int]);
        i = i + 1;
    }
    assert(ms.subrange(0, ms.len() as int) =~= ms);
    out
}

fn redact_items_exec(items: &Vec<JsonValue>) -> (out: Vec<JsonValue>)
    ensures
        view_items(out@) == redact_items(view_items(items@)),
    decreases items,
{
    proof {
        lemma_view_items(items@);
    }
    let ghost vs = view_items(items@);
    let mut out: Vec<JsonValue> = Vec::new();
    let mut i: usize = 0;
    while i < items.len()
        invariant
            i <= items@.len(),
            vs == view_items(items@),
            vs.len() == items@.len(),
            forall|j: int| 0 <= j < items@.len() ==> #[trigger] vs[j] == view_json(items@[j]),
            view_items(out@) == redact_items(vs.subrange(0, i as int)),
        decreases items@.len() - i,
    {
        assert(decreases_to!(*items => items@));
        assert(decreases_to!(items@ => items@[i as int]));
        let value = redact_json(&items[i]);
        let ghost before = out@;
        out.push(value);
        assert(out@.subrange(0, out@.len() - 1) =~= before);
        assert(vs.subrange(0, i + 1).subrange(0, i as int) =~= vs.subrange(0, i as int));
        assert(vs.subrange(0, i + 1)[i as int] == vs[i as int]);
        i = i + 1;
    }
    assert(vs.subrange(0, vs.len() as int) =~= vs);
    out
}

/// The compact text of `value` with its sensitive members hidden, for error
/// messages.
pub fn redact_json_for_error(value: &JsonValue) -> (r: String)
    ensures
        r@ == json_text(redact(value@)),
{
    let red = redact_json(value);
    compact_json(&red)
}

}
