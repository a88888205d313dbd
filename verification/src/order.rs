use vstd::prelude::*;
use vstd::seq_lib::to_multiset_build;
use crate::model::{limit_views, LimitView, ModelLimit};

verus! {

/// Lexicographic order of texts by character code (the order of `String`).
pub open spec fn text_lt(a: Seq<char>, b: Seq<char>) -> bool
    decreases a.len(),
{
    if b.len() == 0 {
        false
    } else if a.len() == 0 {
        true
    } else if (a[0] as u32) != (b[0] as u32) {
        (a[0] as u32) < (b[0] as u32)
    } else {
        text_lt(a.subrange(1, a.len() as int), b.subrange(1, b.len() as int))
    }
}

/// `text_lt` is asymmetric.
pub proof fn lemma_text_lt_asym(a: Seq<char>, b: Seq<char>)
    ensures
        text_lt(a, b) ==> !text_lt(b, a),
    decreases a.len(),
{
    if a.len() > 0 && b.len() > 0 && (a[0] as u32) == (b[0] as u32) {
        lemma_text_lt_asym(a.subrange(1, a.len() as int), b.subrange(1, b.len() as int));
    }
}

/// For any middle text `b`, `c < a` implies `c < b` or `b < a`.
pub proof fn lemma_text_lt_split(c: Seq<char>, b: Seq<char>, a: Seq<char>)
    ensures
        text_lt(c, a) ==> text_lt(c, b) || text_lt(b, a),
    decreases c.len(),
{
    if text_lt(c, a) && !text_lt(c, b) {
        assert(a.len() > 0);
        if b.len() == 0 {
            assert(text_lt(b, a));
        } else {
            assert(c.len() > 0);
            if (c[0] as u32) != (b[0] as u32) {
                assert((c[0] as u32) > (b[0] as u32));
                assert((b[0] as u32) < (a[0] as u32));
                assert(text_lt(b, a));
            } else if (c[0] as u32) != (a[0] as u32) {
                assert((c[0] as u32) < (a[0] as u32));
                assert(text_lt(b, a));
            } else {
                let c1 = c.subrange(1, c.len() as int);
                let b1 = b.subrange(1, b.len() as int);
                let a1 = a.subrange(1, a.len() as int);
                assert(text_lt(c, a) == text_lt(c1, a1));
                assert(text_lt(c, b) == text_lt(c1, b1));
                lemma_text_lt_split(c1, b1, a1);
                assert(text_lt(b, a) == text_lt(b1, a1));
            }
        }
    }
}

/// `x` put into `s` after every element whose id does not exceed its own,
/// scanning from the end: for a sorted `s`, its sorted position, after equal
/// ids (a stable insertion).
pub open spec fn insert_by_id(s: Seq<LimitView>, x: LimitView) -> Seq<LimitView>
    decreases s.len(),
{
    if s.len() == 0 {
        seq![x]
    } else if text_lt(x.id, s.last().id) {
        insert_by_id(s.drop_last(), x).push(s.last())
    } else {
        s.push(x)
    }
}

/// The limits ordered by id; limits with equal ids keep their order.
pub open spec fn sort_by_id(s: Seq<LimitView>) -> Seq<LimitView>
    decreases s.len(),
{
    if s.len() == 0 {
        Seq::empty()
    } else {
        insert_by_id(sort_by_id(s.drop_last()), s.last())
    }
}

/// Ordered by id: no id is smaller than an id before it.
pub open spec fn sorted_by_id(s: Seq<LimitView>) -> bool {
    forall|i: int, j: int| 0 <= i < j < s.len() ==> !text_lt(#[trigger] s[j].id, #[trigger] s[i].id)
}

proof fn lemma_insert_multiset(s: Seq<LimitView>, x: LimitView)
    ensures
        insert_by_id(s, x).to_multiset() =~= s.to_multiset().insert(x),
        insert_by_id(s, x).len() == s.len() + 1,
    decreases s.len(),
{
    broadcast use vstd::multiset::group_multiset_axioms;

    if s.len() == 0 {
        to_multiset_build(s, x);
        assert(insert_by_id(s, x) =~= s.push(x));
    } else if text_lt(x.id, s.last().id) {
        let t = s.drop_last();
        let last = s.last();
        lemma_insert_multiset(t, x);
        let r = insert_by_id(t, x);
        assert(insert_by_id(s, x) == r.push(last));
        to_multiset_build(r, last);
        to_multiset_build(t, last);
        assert(t.push(last) =~= s);
        assert(r.push(last).to_multiset() =~= t.to_multiset().insert(x).insert(last));
        assert(s.to_multiset() =~= t.to_multiset().insert(last));
        assert(t.to_multiset().insert(x).insert(last) =~= t.to_multiset().insert(last).insert(x));
    } else {
        to_multiset_build(s, x);
    }
}

proof fn lemma_insert_sorted(s: Seq<LimitView>, x: LimitView)
    requires
        sorted_by_id(s),
    ensures
        sorted_by_id(insert_by_id(s, x)),
        forall|k: int|
            0 <= k < insert_by_id(s, x).len() ==> #[trigger] insert_by_id(s, x)[k] == x
                || s.contains(insert_by_id(s, x)[k]),
    decreases s.len(),
{
    if s.len() == 0 {
    } else if text_lt(x.id, s.last().id) {
        let t = s.drop_last();
        assert(sorted_by_id(t)) by {
            assert forall|i: int, j: int| 0 <= i < j < t.len() implies !text_lt(
                #[trigger] t[j].id,
                #[trigger] t[i].id,
            ) by {
                assert(t[i] == s[i] && t[j] == s[j]);
            }
        }
        lemma_insert_sorted(t, x);
        let r = insert_by_id(t, x);
        let last = s.last();
        assert forall|k: int| 0 <= k < r.len() implies !text_lt(last.id, #[trigger] r[k].id) by {
            if r[k] == x {
                lemma_text_lt_asym(x.id, last.id);
            } else {
                let m = choose|m: int| 0 <= m < t.len() && t[m] == r[k];
                assert(s[m] == t[m]);
                assert(!text_lt(s[s.len() - 1].id, s[m].id));
            }
        }
        let rr = r.push(last);
        assert forall|k: int| 0 <= k < rr.len() implies #[trigger] rr[k] == x || s.contains(rr[k]) by {
            if k < r.len() {
                if rr[k] != x {
                    let m = choose|m: int| 0 <= m < t.len() && t[m] == r[k];
                    assert(s[m] == t[m]);
                }
            } else {
                assert(s[s.len() - 1] == last);
            }
        }
    } else {
        let r = s.push(x);
        assert forall|i: int, j: int| 0 <= i < j < r.len() implies !text_lt(
            #[trigger] r[j].id,
            #[trigger] r[i].id,
        ) by {
            if j == s.len() {
                if i < s.len() - 1 {
                    assert(!text_lt(s[s.len() - 1].id, s[i].id));
                    lemma_text_lt_split(x.id, s[s.len() - 1].id, s[i].id);
                }
            } else {
                assert(r[i] == s[i] && r[j] == s[j]);
            }
        }
        assert forall|k: int| 0 <= k < r.len() implies #[trigger] r[k] == x || s.contains(r[k]) by {
            if k < s.len() {
                assert(r[k] == s[k]);
            }
        }
    }
}

/// Sorting by id gives a sequence ordered by id.
pub proof fn sort_by_id_sorted(s: Seq<LimitView>)
    ensures
        sorted_by_id(sort_by_id(s)),
    decreases s.len(),
{
    if s.len() > 0 {
        sort_by_id_sorted(s.drop_last());
        lemma_insert_sorted(sort_by_id(s.drop_last()), s.last());
    }
}

/// Sorting by id neither drops nor adds a limit.
pub proof fn sort_by_id_permutes(s: Seq<LimitView>)
    ensures
        sort_by_id(s).to_multiset() =~= s.to_multiset(),
        sort_by_id(s).len() == s.len(),
    decreases s.len(),
{
    broadcast use vstd::multiset::group_multiset_axioms;
    if s.len() > 0 {
        let t = s.drop_last();
        sort_by_id_permutes(t);
        lemma_insert_multiset(sort_by_id(t), s.last());
        to_multiset_build(t, s.last());
        assert(t.push(s.last()) =~= s);
        assert(sort_by_id(s) == insert_by_id(sort_by_id(t), s.last()));
        assert(sort_by_id(s).to_multiset() =~= sort_by_id(t).to_multiset().insert(s.last()));
        assert(s.to_multiset() =~= t.to_multiset().insert(s.last()));
    } else {
        assert(s =~= Seq::<LimitView>::empty());
    }
}

/// `a < b` in the order of `text_lt`.
pub fn str_lt(a: &str, b: &str) -> (r: bool)
    ensures
        r == text_lt(a@, b@),
{
    let x = crate::text::chars_of(a);
    let y = crate::text::chars_of(b);
    assert(a@.subrange(0, a@.len() as int) =~= a@);
    assert(b@.subrange(0, b@.len() as int) =~= b@);
    let mut i: usize = 0;
    while i < x.len() && i < y.len() && (x[i] as u32) == (y[i] as u32)
        invariant
            x@ == a@,
            y@ == b@,
            i <= x@.len(),
            i <= y@.len(),
            text_lt(a@, b@) == text_lt(
                a@.subrange(i as int, a@.len() as int),
                b@.subrange(i as int, b@.len() as int),
            ),
        decreases x@.len() - i,
    {
        let ghost sa = a@.subrange(i as int, a@.len() as int);
        let ghost sb = b@.subrange(i as int, b@.len() as int);
        assert(sa[0] == x@[i as int] && sb[0] == y@[i as int]);
        assert(sa.subrange(1, sa.len() as int) =~= a@.subrange(i + 1, a@.len() as int));
        assert(sb.subrange(1, sb.len() as int) =~= b@.subrange(i + 1, b@.len() as int));
        i = i + 1;
    }
    let ghost sa = a@.subrange(i as int, a@.len() as int);
    let ghost sb = b@.subrange(i as int, b@.len() as int);
    if i == y.len() {
        false
    } else if i == x.len() {
        true
    } else {
        assert(sa[0] == x@[i as int] && sb[0] == y@[i as int]);
        (x[i] as u32) < (y[i] as u32)
    }
}

/// The limits ordered by id, stably (`sort_by(|a, b| a.id.cmp(&b.id))`).
pub fn sort_limits_by_id(limits: Vec<ModelLimit>) -> (r: Vec<ModelLimit>)
    ensures
        limit_views(r@) == sort_by_id(limit_views(limits@)),
{
    let mut rest = limits;
    let ghost ls = limit_views(rest@);
    let ghost n = rest@.len();
    assert(n == rest.len());
    let mut out: Vec<ModelLimit> = Vec::new();
    let mut i: usize = 0;
    while rest.len() > 0
        invariant
            i + rest@.len() == n,
            n <= usize::MAX,
            ls.len() == n,
            limit_views(rest@) == ls.skip(i as int),
            limit_views(out@) == sort_by_id(ls.take(i as int)),
        decreases rest@.len(),
    {
        let ghost pre = rest@;
        let x = rest.remove(0);
        assert(limit_views(pre)[0] == x@);
        assert(limit_views(rest@) =~= limit_views(pre).subrange(1, pre.len() as int));
        assert(ls.skip(i as int).subrange(1, pre.len() as int) =~= ls.skip(i + 1));
        assert(ls.take(i + 1).drop_last() =~= ls.take(i as int));
        assert(ls.take(i + 1).last() == x@);
        let ghost sv = limit_views(out@);
        let mut j: usize = out.len();
        assert(sv.take(j as int) =~= sv);
        assert(sv.skip(j as int) =~= Seq::<LimitView>::empty());
        assert(insert_by_id(sv, x@) =~= insert_by_id(sv.take(j as int), x@) + sv.skip(j as int));
        while j > 0 && str_lt(x.id.as_str(), out[j - 1].id.as_str())
            invariant
                j <= out@.len(),
                sv == limit_views(out@),
                insert_by_id(sv, x@) == insert_by_id(sv.take(j as int), x@) + sv.skip(j as int),
            decreases j,
        {
            let ghost t = sv.take(j as int);
            assert(t.last() == out@[j - 1]@);
            assert(t.drop_last() =~= sv.take(j - 1));
            assert(insert_by_id(t, x@) == insert_by_id(sv.take(j - 1), x@).push(t.last()));
            assert(sv.skip(j - 1) =~= seq![t.last()] + sv.skip(j as int));
            assert(insert_by_id(sv.take(j - 1), x@).push(t.last()) + sv.skip(j as int)
                =~= insert_by_id(sv.take(j - 1), x@) + sv.skip(j - 1));
            j = j - 1;
        }
        proof {
            let t = sv.take(j as int);
            if j > 0 {
                assert(t.last() == out@[j - 1]@);
            }
            assert(insert_by_id(t, x@) =~= t.push(x@));
        }
        let ghost before = out@;
        out.insert(j, x);
        assert(limit_views(out@) =~= sv.take(j as int).push(ls[i as int]) + sv.skip(j as int));
        i = i + 1;
    }
    assert(ls.take(n as int) =~= ls);
    out
}

} // verus!
