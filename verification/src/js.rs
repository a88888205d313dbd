use vstd::prelude::*;
use crate::text::{chars_of, occurs_at, string_from_chars};

verus! {

/// The first position at or after `i` where `p` occurs in `s`.
pub open spec fn find_at(s: Seq<char>, p: Seq<char>, i: int) -> Option<int>
    decreases s.len() + 1 - i,
{
    if i < 0 || i + p.len() > s.len() {
        None
    } else if occurs_at(s, p, i) {
        Some(i)
    } else {
        find_at(s, p, i + 1)
    }
}

/// The body of a double-quoted JavaScript string starting at `i` (just
/// after the opening quote): characters up to the first unescaped `"`, a
/// backslash taking the next character literally; `None` when no closing
/// quote follows.
pub open spec fn js_string_body(s: Seq<char>, i: int, escaped: bool) -> Option<Seq<char>>
    decreases s.len() - i,
{
    if i < 0 || i >= s.len() {
        None
    } else {
        let c = s[i];
        if escaped {
            match js_string_body(s, i + 1, false) {
                Some(t) => Some(seq![c] + t),
                None => None,
            }
        } else if c == '\\' {
            js_string_body(s, i + 1, true)
        } else if c == '"' {
            Some(Seq::empty())
        } else {
            match js_string_body(s, i + 1, false) {
                Some(t) => Some(seq![c] + t),
                None => None,
            }
        }
    }
}

/// The string assigned to `name` in JavaScript source: after the first
/// occurrence of `name`, the first `=`, then the first `"` after it, the
/// string literal that starts there.
pub open spec fn js_assignment(content: Seq<char>, name: Seq<char>) -> Option<Seq<char>> {
    match find_at(content, name, 0) {
        None => None,
        Some(start) => match find_at(content, seq!['='], start) {
            None => None,
            Some(eq) => match find_at(content, seq!['"'], eq + 1) {
                None => None,
                Some(q) => js_string_body(content, q + 1, false),
            },
        },
    }
}

proof fn lemma_find_at(s: Seq<char>, p: Seq<char>, from: int, r: Option<int>)
    requires
        0 <= from,
        match r {
            Some(i) => from <= i && occurs_at(s, p, i) && forall|j: int|
                from <= j < i ==> !occurs_at(s, p, j),
            None => forall|j: int| from <= j ==> !occurs_at(s, p, j),
        },
    ensures
        find_at(s, p, from) == r,
    decreases s.len() + 1 - from,
{
    if from + p.len() > s.len() {
        if let Some(i) = r {
            assert(occurs_at(s, p, i));
        }
    } else if occurs_at(s, p, from) {
        if let Some(i) = r {
            if i > from {
                assert(!occurs_at(s, p, from));
            }
        }
    } else {
        match r {
            Some(i) => {
                assert(i != from);
                lemma_find_at(s, p, from + 1, r);
            },
            None => {
                lemma_find_at(s, p, from + 1, r);
            },
        }
    }
}

fn find_char_from(s: &Vec<char>, c: char, from: usize) -> (r: Option<usize>)
    ensures
        match r {
            Some(i) => find_at(s@, seq![c], from as int) == Some(i as int) && i < s@.len(),
            None => find_at(s@, seq![c], from as int) is None,
        },
{
    let p: Vec<char> = vec![c];
    assert(p@ =~= seq![c]);
    let r = crate::text::find_from(s, &p, from);
    proof {
        match r {
            Some(i) => lemma_find_at(s@, seq![c], from as int, Some(i as int)),
            None => lemma_find_at(s@, seq![c], from as int, None),
        }
    }
    r
}

pub open spec fn prefixed(p: Seq<char>, o: Option<Seq<char>>) -> Option<Seq<char>> {
    match o {
        Some(t) => Some(p + t),
        None => None,
    }
}

fn string_body(s: &Vec<char>, start: usize) -> (r: Option<String>)
    ensures
        match r {
            Some(t) => js_string_body(s@, start as int, false) == Some(t@),
            None => js_string_body(s@, start as int, false) is None,
        },
{
    let mut out: Vec<char> = Vec::new();
    let mut escaped = false;
    let mut i: usize = start;
    assert(out@ + Seq::<char>::empty() =~= Seq::<char>::empty());
    while i < s.len()
        invariant
            start <= i,
            js_string_body(s@, start as int, false) == prefixed(
                out@,
                js_string_body(s@, i as int, escaped),
            ),
        decreases s@.len() - i,
    {
        let c = s[i];
        if escaped {
            out.push(c);
            escaped = false;
            proof {
                let ghost before = out@.drop_last();
                match js_string_body(s@, i + 1, false) {
                    Some(t) => assert(before + (seq![c] + t) =~= out@ + t),
                    None => {},
                }
            }
        } else if c == '\\' {
            escaped = true;
        } else if c == '"' {
            proof {
                assert(out@ + Seq::<char>::empty() =~= out@);
            }
            return Some(string_from_chars(out.as_slice()));
        } else {
            out.push(c);
            proof {
                let ghost before = out@.drop_last();
                match js_string_body(s@, i + 1, false) {
                    Some(t) => assert(before + (seq![c] + t) =~= out@ + t),
                    None => {},
                }
            }
        }
        i = i + 1;
    }
    None
}

/// The string assigned to `name` in JavaScript source (`name = "..."`),
/// if there is one.
pub fn extract_js_string_assignment(content: &str, name: &str) -> (r: Option<String>)
    ensures
        match r {
            Some(t) => js_assignment(content@, name@) == Some(t@),
            None => js_assignment(content@, name@) is None,
        },
{
    let s = chars_of(content);
    let n = chars_of(name);
    let start = match crate::text::find_from(&s, &n, 0) {
        Some(i) => i,
        None => {
            proof {
                lemma_find_at(s@, n@, 0, None);
            }
            return None;
        },
    };
    proof {
        lemma_find_at(s@, n@, 0, Some(start as int));
    }
    let eq = match find_char_from(&s, '=', start) {
        Some(i) => i,
        None => return None,
    };
    assert(eq < s.len());
    let q = match find_char_from(&s, '"', eq + 1) {
        Some(i) => i,
        None => return None,
    };
    assert(q < s.len());
    string_body(&s, q + 1)
}

/// How a string is written inside a double-quoted JavaScript literal here:
/// quotes and backslashes get a backslash before them.
pub open spec fn js_escape(v: Seq<char>) -> Seq<char>
    decreases v.len(),
{
    if v.len() == 0 {
        Seq::empty()
    } else if v[0] == '"' || v[0] == '\\' {
        seq!['\\', v[0]] + js_escape(v.subrange(1, v.len() as int))
    } else {
        seq![v[0]] + js_escape(v.subrange(1, v.len() as int))
    }
}

proof fn lemma_body_of_escaped(pre: Seq<char>, v: Seq<char>, post: Seq<char>)
    ensures
        js_string_body(pre + js_escape(v) + seq!['"'] + post, pre.len() as int, false) == Some(v),
    decreases v.len(),
{
    let s = pre + js_escape(v) + seq!['"'] + post;
    if v.len() == 0 {
        assert(s[pre.len() as int] == '"');
        assert(v =~= Seq::<char>::empty());
    } else {
        let rest = v.subrange(1, v.len() as int);
        if v[0] == '"' || v[0] == '\\' {
            let pre2 = pre + seq!['\\', v[0]];
            assert(s =~= pre2 + js_escape(rest) + seq!['"'] + post);
            lemma_body_of_escaped(pre2, rest, post);
            assert(s[pre.len() as int] == '\\');
            assert(s[pre.len() as int + 1] == v[0]);
            assert(js_string_body(s, pre2.len() as int, false) == Some(rest));
            assert(js_string_body(s, pre.len() as int + 1, true) == Some(seq![v[0]] + rest));
            assert(seq![v[0]] + rest =~= v);
        } else {
            let pre2 = pre + seq![v[0]];
            assert(s =~= pre2 + js_escape(rest) + seq!['"'] + post);
            lemma_body_of_escaped(pre2, rest, post);
            assert(s[pre.len() as int] == v[0]);
            assert(js_string_body(s, pre2.len() as int, false) == Some(rest));
            assert(seq![v[0]] + rest =~= v);
        }
    }
}

/// Reading back what was written: in `name="<escaped v>"` followed by any
/// text, the string assigned to `name` is `v`, for a name without `=`.
pub proof fn js_assignment_reads_written(name: Seq<char>, v: Seq<char>, rest: Seq<char>)
    requires
        forall|k: int| 0 <= k < name.len() ==> name[k] != '=',
    ensures
        js_assignment(name + seq!['=', '"'] + js_escape(v) + seq!['"'] + rest, name) == Some(v),
{
    let content = name + seq!['=', '"'] + js_escape(v) + seq!['"'] + rest;
    assert(content.subrange(0, name.len() as int) =~= name);
    lemma_find_at(content, name, 0, Some(0));
    let eqp = name.len() as int;
    assert(content[eqp] == '=');
    assert(occurs_at(content, seq!['='], eqp)) by {
        assert(content.subrange(eqp, eqp + 1) =~= seq!['=']);
    }
    assert forall|j: int| 0 <= j < eqp implies !occurs_at(content, seq!['='], j) by {
        if occurs_at(content, seq!['='], j) {
            assert(content.subrange(j, j + 1)[0] == content[j]);
            assert(content[j] == name[j]);
        }
    }
    lemma_find_at(content, seq!['='], 0, Some(eqp));
    assert(occurs_at(content, seq!['"'], eqp + 1)) by {
        assert(content.subrange(eqp + 1, eqp + 2) =~= seq!['"']);
    }
    lemma_find_at(content, seq!['"'], eqp + 1, Some(eqp + 1));
    let pre = name + seq!['=', '"'];
    assert(content =~= pre + js_escape(v) + seq!['"'] + rest);
    lemma_body_of_escaped(pre, v, rest);
}

} // verus!
