use vstd::prelude::*;
use crate::model::texts;
use crate::order::{str_lt, text_lt};
use crate::provider::{provider_fallback, CliProvider};
use crate::text::{
    ascii_lower, chars_of, parse_int, parse_u64, split_exec, split_on, str_eq, string_from_chars,
    to_ascii_lowercase, trim, trim_chars,
};

verus! {

/// The number a part of a version stands for; a part that is no number
/// counts as 0.
pub open spec fn part_value(p: Seq<char>) -> int {
    match parse_int(p, false, 0, u64::MAX as int) {
        Some(v) => v,
        None => 0,
    }
}

/// The version key of a directory name: its dot-separated parts as numbers.
pub open spec fn version_key(name: Seq<char>) -> Seq<int> {
    split_on(name, '.').map_values(|p: Seq<char>| part_value(p))
}

/// The version key of a directory name (`24.12.0` gives 24, 12, 0).
pub fn semver_path_key(name: &str) -> (r: Vec<u64>)
    ensures
        r@.map_values(|x: u64| x as int) == version_key(name@),
{
    let cs = chars_of(name);
    let parts = split_exec(cs.as_slice(), '.');
    let ghost ps = split_on(name@, '.');
    let mut out: Vec<u64> = Vec::new();
    let mut i: usize = 0;
    while i < parts.len()
        invariant
            i <= parts@.len(),
            ps == split_on(name@, '.'),
            parts@.len() == ps.len(),
            forall|k: int| 0 <= k < parts@.len() ==> #[trigger] parts@[k]@ == ps[k],
            out@.map_values(|x: u64| x as int) == ps.take(i as int).map_values(
                |p: Seq<char>| part_value(p),
            ),
        decreases parts@.len() - i,
    {
        let text = string_from_chars(parts[i].as_slice());
        let v: u64 = match parse_u64(text.as_str()) {
            Some(v) => v,
            None => 0,
        };
        let ghost before = out@;
        out.push(v);
        assert(out@.map_values(|x: u64| x as int) =~= before.map_values(|x: u64| x as int).push(
            v as int,
        ));
        assert(ps.take(i + 1) =~= ps.take(i as int).push(ps[i as int]));
        assert(out@.map_values(|x: u64| x as int) =~= ps.take(i + 1).map_values(
            |p: Seq<char>| part_value(p),
        ));
        i = i + 1;
    }
    assert(ps.take(parts@.len() as int) =~= ps);
    out
}

/// Lexicographic order of version keys (the order of `Vec<u64>`).
pub open spec fn key_lt(a: Seq<int>, b: Seq<int>) -> bool
    decreases a.len(),
{
    if b.len() == 0 {
        false
    } else if a.len() == 0 {
        true
    } else if a[0] != b[0] {
        a[0] < b[0]
    } else {
        key_lt(a.subrange(1, a.len() as int), b.subrange(1, b.len() as int))
    }
}

fn key_lt_exec(a: &Vec<u64>, b: &Vec<u64>) -> (r: bool)
    ensures
        r == key_lt(a@.map_values(|x: u64| x as int), b@.map_values(|x: u64| x as int)),
{
    let ghost av = a@.map_values(|x: u64| x as int);
    let ghost bv = b@.map_values(|x: u64| x as int);
    assert(av.subrange(0, av.len() as int) =~= av);
    assert(bv.subrange(0, bv.len() as int) =~= bv);
    let mut i: usize = 0;
    while i < a.len() && i < b.len() && a[i] == b[i]
        invariant
            av == a@.map_values(|x: u64| x as int),
            bv == b@.map_values(|x: u64| x as int),
            i <= a@.len(),
            i <= b@.len(),
            key_lt(av, bv) == key_lt(
                av.subrange(i as int, av.len() as int),
                bv.subrange(i as int, bv.len() as int),
            ),
        decreases a@.len() - i,
    {
        let ghost sa = av.subrange(i as int, av.len() as int);
        let ghost sb = bv.subrange(i as int, bv.len() as int);
        assert(sa[0] == a@[i as int] && sb[0] == b@[i as int]);
        assert(sa.subrange(1, sa.len() as int) =~= av.subrange(i + 1, av.len() as int));
        assert(sb.subrange(1, sb.len() as int) =~= bv.subrange(i + 1, bv.len() as int));
        i = i + 1;
    }
    let ghost sa = av.subrange(i as int, av.len() as int);
    let ghost sb = bv.subrange(i as int, bv.len() as int);
    if i == b.len() {
        false
    } else if i == a.len() {
        true
    } else {
        assert(sa[0] == a@[i as int] && sb[0] == b@[i as int]);
        a[i] < b[i]
    }
}

/// Directory `a` comes before `b`: a higher version first, and among equal
/// versions the greater name first.
pub open spec fn dir_before(a: Seq<char>, b: Seq<char>) -> bool {
    key_lt(version_key(b), version_key(a)) || (version_key(a) == version_key(b) && text_lt(b, a))
}

/// `x` put into `s` after every element that does not come after it,
/// scanning from the end.
pub open spec fn insert_dir(s: Seq<Seq<char>>, x: Seq<char>) -> Seq<Seq<char>>
    decreases s.len(),
{
    if s.len() == 0 {
        seq![x]
    } else if dir_before(x, s.last()) {
        insert_dir(s.drop_last(), x).push(s.last())
    } else {
        s.push(x)
    }
}

/// Directory names, newest version first (ties: greater name first).
pub open spec fn sort_dirs(s: Seq<Seq<char>>) -> Seq<Seq<char>>
    decreases s.len(),
{
    if s.len() == 0 {
        Seq::empty()
    } else {
        insert_dir(sort_dirs(s.drop_last()), s.last())
    }
}

fn dir_before_exec(a: &String, b: &String) -> (r: bool)
    ensures
        r == dir_before(a@, b@),
{
    let ka = semver_path_key(a.as_str());
    let kb = semver_path_key(b.as_str());
    if key_lt_exec(&kb, &ka) {
        return true;
    }
    let same = key_lt_exec(&ka, &kb) == false && key_lt_exec(&kb, &ka) == false && ka.len()
        == kb.len() && {
        let mut eq = true;
        let mut i: usize = 0;
        while i < ka.len()
            invariant
                ka@.len() == kb@.len(),
                i <= ka@.len(),
                eq == (forall|j: int| 0 <= j < i ==> ka@[j] == kb@[j]),
            decreases ka@.len() - i,
        {
            if ka[i] != kb[i] {
                eq = false;
            }
            i = i + 1;
        }
        eq
    };
    proof {
        let va = ka@.map_values(|x: u64| x as int);
        let vb = kb@.map_values(|x: u64| x as int);
        if same {
            assert(va =~= vb);
        } else if va == vb {
            assert(ka@.len() == kb@.len());
            assert(forall|j: int| 0 <= j < ka@.len() ==> ka@[j] == kb@[j]) by {
                assert forall|j: int| 0 <= j < ka@.len() implies ka@[j] == kb@[j] by {
                    assert(va[j] == vb[j]);
                }
            }
            lemma_key_lt_irrefl(va);
        }
    }
    same && str_lt(b.as_str(), a.as_str())
}

proof fn lemma_key_lt_irrefl(a: Seq<int>)
    ensures
        !key_lt(a, a),
    decreases a.len(),
{
    if a.len() > 0 {
        lemma_key_lt_irrefl(a.subrange(1, a.len() as int));
    }
}

/// The node directories in the order they are tried: newest version first.
pub fn sorted_volta_node_dirs(names: Vec<String>) -> (r: Vec<String>)
    ensures
        texts(r@) == sort_dirs(texts(names@)),
{
    let mut rest = names;
    let ghost ls = texts(rest@);
    let ghost n = rest@.len();
    assert(n == rest.len());
    let mut out: Vec<String> = Vec::new();
    let mut i: usize = 0;
    while rest.len() > 0
        invariant
            i + rest@.len() == n,
            n <= usize::MAX,
            ls.len() == n,
            texts(rest@) == ls.skip(i as int),
            texts(out@) == sort_dirs(ls.take(i as int)),
        decreases rest@.len(),
    {
        let ghost pre = rest@;
        let x = rest.remove(0);
        assert(texts(pre)[0] == x@);
        assert(texts(rest@) =~= texts(pre).subrange(1, pre.len() as int));
        assert(ls.skip(i as int).subrange(1, pre.len() as int) =~= ls.skip(i + 1));
        assert(ls.take(i + 1).drop_last() =~= ls.take(i as int));
        assert(ls.take(i + 1).last() == x@);
        let ghost sv = texts(out@);
        let mut j: usize = out.len();
        assert(sv.take(j as int) =~= sv);
        assert(sv.skip(j as int) =~= Seq::<Seq<char>>::empty());
        assert(insert_dir(sv, x@) =~= insert_dir(sv.take(j as int), x@) + sv.skip(j as int));
        while j > 0 && dir_before_exec(&x, &out[j - 1])
            invariant
                j <= out@.len(),
                sv == texts(out@),
                insert_dir(sv, x@) == insert_dir(sv.take(j as int), x@) + sv.skip(j as int),
            decreases j,
        {
            let ghost t = sv.take(j as int);
            assert(t.last() == out@[j - 1]@);
            assert(t.drop_last() =~= sv.take(j - 1));
            assert(insert_dir(t, x@) == insert_dir(sv.take(j - 1), x@).push(t.last()));
            assert(sv.skip(j - 1) =~= seq![t.last()] + sv.skip(j as int));
            assert(insert_dir(sv.take(j - 1), x@).push(t.last()) + sv.skip(j as int)
                =~= insert_dir(sv.take(j - 1), x@) + sv.skip(j - 1));
            j = j - 1;
        }
        proof {
            let t = sv.take(j as int);
            if j > 0 {
                assert(t.last() == out@[j - 1]@);
            }
            assert(insert_dir(t, x@) =~= t.push(x@));
        }
        out.insert(j, x);
        assert(texts(out@) =~= sv.take(j as int).push(ls[i as int]) + sv.skip(j as int));
        i = i + 1;
    }
    assert(ls.take(n as int) =~= ls);
    out
}

/// The positions among the first `n` of `s` that are kept: each position
/// whose path is the same as that of no position kept before it. `same(k, i)`
/// tells whether the paths at positions `k` and `i` are the same path.
pub open spec fn kept(s: Seq<Seq<char>>, same: spec_fn(int, int) -> bool, n: nat) -> Seq<int>
    decreases n,
{
    if n == 0 {
        Seq::empty()
    } else {
        let k = kept(s, same, (n - 1) as nat);
        if exists|m: int| 0 <= m < k.len() && #[trigger] same(k[m], n - 1) {
            k
        } else {
            k.push(n - 1)
        }
    }
}

/// The paths of `s` in order, each kept unless it is the same as a path kept
/// before it.
pub open spec fn dedupe_by(s: Seq<Seq<char>>, same: spec_fn(int, int) -> bool) -> Seq<Seq<char>> {
    kept(s, same, s.len()).map_values(|k: int| s[k])
}

/// A character of a path as its key sees it: either separator as `/`, and
/// ASCII letters lower-cased.
pub open spec fn key_char(c: char) -> char {
    if c == '\\' {
        '/'
    } else {
        crate::text::lower_char(c)
    }
}

/// A text cut at each `/`.
pub open spec fn split_slash(t: Seq<char>) -> Seq<Seq<char>>
    decreases t.len(),
{
    if t.len() == 0 {
        seq![Seq::empty()]
    } else {
        let r = split_slash(t.drop_last());
        if t.last() == '/' {
            r.push(Seq::empty())
        } else {
            r.update(r.len() - 1, r.last().push(t.last()))
        }
    }
}

/// What every platform keeps of a path when it compares paths: its parts
/// between separators (`/` or `\`), without empty parts and `.` parts,
/// with ASCII letters folded to one case. Two paths that std's `Path`
/// holds equal (component by component) have the same key, on Unix and
/// on Windows alike.
pub open spec fn path_key(t: Seq<char>) -> Seq<Seq<char>> {
    split_slash(t.map_values(|c: char| key_char(c))).filter(
        |p: Seq<char>| p.len() > 0 && p != seq!['.'],
    )
}

/// `same` holds of any two positions of `s` that hold the same text, and
/// only of positions whose paths have the same key.
pub open spec fn respects_text(s: Seq<Seq<char>>, same: spec_fn(int, int) -> bool) -> bool {
    &&& forall|i: int, j: int|
        0 <= i < s.len() && 0 <= j < s.len() && s[i] == s[j] ==> #[trigger] same(i, j)
    &&& forall|i: int, j: int|
        0 <= i < s.len() && 0 <= j < s.len() && #[trigger] same(i, j) ==> path_key(s[i])
            == path_key(s[j])
}

/// `r` is `s` with repeated paths dropped, under some sameness of paths that
/// holds of equal texts and only of paths with equal keys: no two paths with
/// different keys are ever taken for one.
pub open spec fn paths_deduped(r: Seq<Seq<char>>, s: Seq<Seq<char>>) -> bool {
    exists|same: spec_fn(int, int) -> bool| respects_text(s, same) && r == #[trigger] dedupe_by(s, same)
}

/// `Path::eq` on two paths given as text, which compares their components:
/// claimed to be true of two equal texts, and to be true only of paths with
/// the same `path_key`. Which paths with equal keys are the same path
/// depends on the platform, and is left unsaid.
#[verifier::external_body]
fn same_path(a: &str, b: &str) -> (r: bool)
    ensures
        a@ == b@ ==> r,
        r ==> path_key(a@) == path_key(b@),
{
    std::path::Path::new(a) == std::path::Path::new(b)
}

proof fn lemma_kept_agree(
    s: Seq<Seq<char>>,
    f: spec_fn(int, int) -> bool,
    g: spec_fn(int, int) -> bool,
    n: nat,
)
    requires
        forall|a: int, b: int| 0 <= a < n && 0 <= b < n ==> #[trigger] f(a, b) == g(a, b),
    ensures
        kept(s, f, n) == kept(s, g, n),
        forall|m: int| 0 <= m < kept(s, f, n).len() ==> 0 <= #[trigger] kept(s, f, n)[m] < n,
    decreases n,
{
    if n > 0 {
        lemma_kept_agree(s, f, g, (n - 1) as nat);
        let k = kept(s, f, (n - 1) as nat);
        assert((exists|m: int| 0 <= m < k.len() && #[trigger] f(k[m], n - 1)) == (exists|m: int|
            0 <= m < k.len() && #[trigger] g(k[m], n - 1))) by {
            if exists|m: int| 0 <= m < k.len() && #[trigger] f(k[m], n - 1) {
                let m = choose|m: int| 0 <= m < k.len() && #[trigger] f(k[m], n - 1);
                assert(g(k[m], n - 1));
            }
            if exists|m: int| 0 <= m < k.len() && #[trigger] g(k[m], n - 1) {
                let m = choose|m: int| 0 <= m < k.len() && #[trigger] g(k[m], n - 1);
                assert(f(k[m], n - 1));
            }
        }
    }
}

/// The sameness that the decisions in `d` give, and equality of text
/// elsewhere.
spec fn decided(s: Seq<Seq<char>>, d: Map<(int, int), bool>) -> spec_fn(int, int) -> bool {
    |a: int, b: int| if d.contains_key((a, b)) { d[(a, b)] } else { s[a] == s[b] }
}

/// The paths in order, each kept unless it is the same path as one kept
/// before it.
pub fn dedupe_paths(paths: Vec<String>) -> (r: Vec<String>)
    ensures
        paths_deduped(texts(r@), texts(paths@)),
{
    let ghost ts = texts(paths@);
    let ghost mut d: Map<(int, int), bool> = Map::empty();
    let ghost mut ks: Seq<int> = Seq::empty();
    let mut out: Vec<String> = Vec::new();
    let mut i: usize = 0;
    while i < paths.len()
        invariant
            i <= paths@.len(),
            ts == texts(paths@),
            ks == kept(ts, decided(ts, d), i as nat),
            forall|m: int| 0 <= m < ks.len() ==> 0 <= #[trigger] ks[m] < i,
            out@.len() == ks.len(),
            texts(out@) == ks.map_values(|k: int| ts[k]),
            forall|p: (int, int)| #[trigger] d.contains_key(p) ==> 0 <= p.0 < paths@.len() && 0
                <= p.1 < i && (ts[p.0] == ts[p.1] ==> d[p]) && (d[p] ==> path_key(ts[p.0])
                == path_key(ts[p.1])),
        decreases paths@.len() - i,
    {
        let ghost d0 = d;
        let mut found = false;
        let mut j: usize = 0;
        while j < out.len() && !found
            invariant
                i < paths@.len(),
                ts == texts(paths@),
                j <= out@.len(),
                out@.len() == ks.len(),
                texts(out@) == ks.map_values(|k: int| ts[k]),
                forall|m: int| 0 <= m < ks.len() ==> 0 <= #[trigger] ks[m] < i,
                forall|p: (int, int)| #[trigger] d.contains_key(p) ==> 0 <= p.0 < paths@.len()
                    && 0 <= p.1 <= i && (ts[p.0] == ts[p.1] ==> d[p]) && (d[p] ==> path_key(
                    ts[p.0],
                ) == path_key(ts[p.1])),
                forall|p: (int, int)| #[trigger] d0.contains_key(p) ==> d.contains_key(p) && d[p]
                    == d0[p],
                forall|p: (int, int)| #[trigger] d.contains_key(p) && p.1 < i ==> d0.contains_key(p),
                forall|p: (int, int)| #[trigger] d0.contains_key(p) ==> p.1 < i,
                found ==> exists|m: int| 0 <= m < ks.len() && #[trigger] decided(ts, d)(ks[m], i as int),
                !found ==> forall|m: int| 0 <= m < j ==> #[trigger] d.contains_key((ks[m], i as int))
                    && !d[(ks[m], i as int)],
            decreases out@.len() - j,
        {
            let b = same_path(out[j].as_str(), paths[i].as_str());
            proof {
                assert(texts(out@)[j as int] == ts[ks[j as int]]);
                let dp = d;
                d = d.insert((ks[j as int], i as int), b);
                if b {
                    assert(decided(ts, d)(ks[j as int], i as int));
                } else {
                    assert forall|m: int| 0 <= m < j + 1 implies #[trigger] d.contains_key(
                        (ks[m], i as int),
                    ) && !d[(ks[m], i as int)] by {
                        if m < j && ks[m] != ks[j as int] {
                            assert(dp.contains_key((ks[m], i as int)));
                        }
                    }
                }
            }
            if b {
                found = true;
                j = out.len();
            } else {
                j = j + 1;
            }
        }
        proof {
            let f0 = decided(ts, d0);
            let f1 = decided(ts, d);
            assert forall|a: int, b: int| 0 <= a < i && 0 <= b < i implies #[trigger] f0(a, b) == f1(a, b) by {
                if d.contains_key((a, b)) {
                    assert(d0.contains_key((a, b)));
                }
            }
            lemma_kept_agree(ts, f0, f1, i as nat);
            if !found {
                assert forall|m: int| 0 <= m < ks.len() implies !#[trigger] f1(ks[m], i as int) by {
                    assert(d.contains_key((ks[m], i as int)));
                }
            }
        }
        if !found {
            let c = paths[i].clone();
            let ghost before = out@;
            out.push(c);
            proof {
                assert(ts[i as int] == c@);
                let ks0 = ks;
                ks = ks.push(i as int);
                assert(texts(out@) =~= texts(before).push(c@));
                assert(ks.map_values(|k: int| ts[k]) =~= ks0.map_values(|k: int| ts[k]).push(ts[i as int]));
            }
        }
        i = i + 1;
    }
    proof {
        let same = decided(ts, d);
        assert(respects_text(ts, same));
        assert(texts(out@) == dedupe_by(ts, same));
    }
    out
}

/// Deduplication keeps no path twice, every path it drops is the same as
/// one kept before it, and a path whose key no earlier path has is kept.
pub proof fn dedupe_keeps_each_path_once(s: Seq<Seq<char>>, same: spec_fn(int, int) -> bool)
    requires
        respects_text(s, same),
    ensures
        forall|a: int, b: int|
            0 <= a < b < dedupe_by(s, same).len() ==> dedupe_by(s, same)[a] != dedupe_by(s, same)[b],
        forall|i: int| 0 <= i < s.len() ==> #[trigger] covered(s, same, s.len(), i),
        forall|i: int|
            0 <= i < s.len() && (forall|k: int| 0 <= k < i ==> path_key(s[k]) != path_key(s[i]))
                ==> dedupe_by(s, same).contains(#[trigger] s[i]),
{
    lemma_kept_facts(s, same, s.len());
    let ks = kept(s, same, s.len());
    assert forall|i: int|
        0 <= i < s.len() && (forall|k: int| 0 <= k < i ==> path_key(s[k]) != path_key(s[i]))
            implies dedupe_by(s, same).contains(#[trigger] s[i]) by {
        assert(covered(s, same, s.len(), i));
        let m = choose|m: int| 0 <= m < ks.len() && #[trigger] ks[m] <= i && (ks[m] == i || same(ks[m], i));
        if ks[m] < i {
            assert(path_key(s[ks[m]]) == path_key(s[i]));
            assert(false);
        }
        assert(dedupe_by(s, same)[m] == s[i]);
    }
}

/// Position `i` is kept among the first `n`, or is the same path as a
/// position kept there.
pub open spec fn covered(s: Seq<Seq<char>>, same: spec_fn(int, int) -> bool, n: nat, i: int) -> bool {
    exists|m: int|
        0 <= m < kept(s, same, n).len() && #[trigger] kept(s, same, n)[m] <= i && (kept(
            s,
            same,
            n,
        )[m] == i || same(kept(s, same, n)[m], i))
}

proof fn lemma_kept_facts(s: Seq<Seq<char>>, same: spec_fn(int, int) -> bool, n: nat)
    requires
        respects_text(s, same),
        n <= s.len(),
    ensures
        forall|m: int| 0 <= m < kept(s, same, n).len() ==> 0 <= #[trigger] kept(s, same, n)[m] < n,
        forall|a: int, b: int|
            0 <= a < b < kept(s, same, n).len() ==> kept(s, same, n)[a] < kept(s, same, n)[b]
                && !same(kept(s, same, n)[a], kept(s, same, n)[b]),
        forall|i: int| 0 <= i < n ==> #[trigger] covered(s, same, n, i),
        forall|a: int, b: int|
            0 <= a < b < kept(s, same, n).len() ==> s[kept(s, same, n)[a]] != s[kept(
                s,
                same,
                n,
            )[b]],
    decreases n,
{
    if n > 0 {
        lemma_kept_facts(s, same, (n - 1) as nat);
        let k = kept(s, same, (n - 1) as nat);
        let kn = kept(s, same, n);
        if exists|m: int| 0 <= m < k.len() && #[trigger] same(k[m], n - 1) {
            let w = choose|m: int| 0 <= m < k.len() && #[trigger] same(k[m], n - 1);
            assert forall|i: int| 0 <= i < n implies #[trigger] covered(s, same, n, i) by {
                if i == n - 1 {
                    assert(kn[w] == k[w]);
                    assert(kn[w] <= i);
                } else {
                    assert(covered(s, same, (n - 1) as nat, i));
                    let m = choose|m: int| 0 <= m < k.len() && #[trigger] k[m] <= i && (k[m] == i || same(k[m], i));
                    assert(kn[m] == k[m]);
                }
            }
        } else {
            assert(kn == k.push(n - 1));
            assert forall|a: int, b: int| 0 <= a < b < kn.len() implies !same(kn[a], kn[b]) by {
                if b == k.len() {
                    assert(kn[a] == k[a]);
                }
            }
            assert forall|i: int| 0 <= i < n implies #[trigger] covered(s, same, n, i) by {
                if i == n - 1 {
                    assert(kn[k.len() as int] == i);
                } else {
                    assert(covered(s, same, (n - 1) as nat, i));
                    let m = choose|m: int| 0 <= m < k.len() && #[trigger] k[m] <= i && (k[m] == i || same(k[m], i));
                    assert(kn[m] == k[m]);
                }
            }
        }
        assert forall|a: int, b: int| 0 <= a < b < kn.len() implies s[kn[a]] != s[kn[b]] by {
            if s[kn[a]] == s[kn[b]] {
                assert(same(kn[a], kn[b]));
            }
        }
    }
}

/// The commands to try for a tool, before repeats are dropped: the override
/// (unless empty), those found under the home directory, then the bare
/// fallback.
pub open spec fn command_candidates(
    override_cmd: Option<Seq<char>>,
    home: Seq<Seq<char>>,
    fallback: Seq<char>,
) -> Seq<Seq<char>> {
    (match override_cmd {
        Some(o) => if o.len() > 0 {
            seq![o]
        } else {
            Seq::empty()
        },
        None => Seq::empty(),
    }) + home + seq![fallback]
}

/// The commands to try for a tool, in order.
pub fn cli_command_candidates(
    override_cmd: Option<String>,
    home_candidates: Vec<String>,
    provider: CliProvider,
    windows: bool,
) -> (r: Vec<String>)
    ensures
        paths_deduped(
            texts(r@),
            command_candidates(
                crate::model::opt_text(override_cmd),
                texts(home_candidates@),
                provider_fallback(provider, windows),
            ),
        ),
{
    let mut all: Vec<String> = Vec::new();
    let ghost o = crate::model::opt_text(override_cmd);
    match override_cmd {
        Some(v) => {
            if v.unicode_len() > 0 {
                all.push(v);
            }
        },
        None => {},
    }
    let ghost head = texts(all@);
    let mut i: usize = 0;
    while i < home_candidates.len()
        invariant
            i <= home_candidates@.len(),
            texts(all@) == head + texts(home_candidates@).take(i as int),
        decreases home_candidates@.len() - i,
    {
        let c = home_candidates[i].clone();
        let ghost before = all@;
        all.push(c);
        assert(texts(all@) =~= texts(before).push(home_candidates@[i as int]@));
        assert(texts(home_candidates@).take(i + 1) =~= texts(home_candidates@).take(i as int).push(
            home_candidates@[i as int]@,
        ));
        i = i + 1;
    }
    assert(texts(home_candidates@).take(home_candidates@.len() as int) =~= texts(home_candidates@));
    let f = String::from_str(provider.fallback_command(windows));
    let ghost before = all@;
    all.push(f);
    assert(texts(all@) =~= texts(before).push(f@));
    assert(texts(all@) =~= (match o {
        Some(v) => if v.len() > 0 {
            seq![v]
        } else {
            Seq::empty()
        },
        None => Seq::empty(),
    }) + texts(home_candidates@) + seq![provider_fallback(provider, windows)]);
    dedupe_paths(all)
}

/// The first command to try, or the bare fallback.
pub fn resolve_cli_command(candidates: &Vec<String>, provider: CliProvider, windows: bool) -> (r:
    String)
    ensures
        candidates@.len() > 0 ==> r@ == candidates@[0]@,
        candidates@.len() == 0 ==> r@ == provider_fallback(provider, windows),
{
    if candidates.len() > 0 {
        candidates[0].clone()
    } else {
        String::from_str(provider.fallback_command(windows))
    }
}

/// The packages to look into for the Gemini CLI, before repeats are
/// dropped: the configured directory (unless empty), then those in the node
/// directories.
pub open spec fn package_candidates(override_dir: Option<Seq<char>>, found: Seq<Seq<char>>) -> Seq<
    Seq<char>,
> {
    (match override_dir {
        Some(o) => if o.len() > 0 {
            seq![o]
        } else {
            Seq::empty()
        },
        None => Seq::empty(),
    }) + found
}

/// The Gemini CLI package directories to look into, in order.
pub fn gemini_package_candidates(override_dir: Option<String>, found: Vec<String>) -> (r: Vec<
    String,
>)
    ensures
        paths_deduped(
            texts(r@),
            package_candidates(crate::model::opt_text(override_dir), texts(found@)),
        ),
{
    let mut all: Vec<String> = Vec::new();
    let ghost o = crate::model::opt_text(override_dir);
    match override_dir {
        Some(v) => {
            if v.unicode_len() > 0 {
                all.push(v);
            }
        },
        None => {},
    }
    let ghost head = texts(all@);
    let mut i: usize = 0;
    while i < found.len()
        invariant
            i <= found@.len(),
            texts(all@) == head + texts(found@).take(i as int),
        decreases found@.len() - i,
    {
        let c = found[i].clone();
        let ghost before = all@;
        all.push(c);
        assert(texts(all@) =~= texts(before).push(found@[i as int]@));
        assert(texts(found@).take(i + 1) =~= texts(found@).take(i as int).push(found@[i as int]@));
        i = i + 1;
    }
    assert(texts(found@).take(found@.len() as int) =~= texts(found@));
    assert(texts(all@) =~= (match o {
        Some(v) => if v.len() > 0 {
            seq![v]
        } else {
            Seq::empty()
        },
        None => Seq::empty(),
    }) + texts(found@));
    dedupe_paths(all)
}

/// The version a tool printed: its output without surrounding white space,
/// unless nothing is left.
pub fn version_from_output(stdout: &str) -> (r: Option<String>)
    ensures
        match r {
            Some(v) => v@ == trim(stdout@) && v@.len() > 0,
            None => trim(stdout@).len() == 0,
        },
{
    let cs = chars_of(stdout);
    let t = trim_chars(cs.as_slice());
    if t.len() == 0 {
        None
    } else {
        Some(string_from_chars(t.as_slice()))
    }
}

/// Whether an extension marks a Windows command script: `cmd` or `bat`,
/// in any ASCII case.
pub open spec fn script_extension(ext: Option<Seq<char>>) -> bool {
    match ext {
        Some(e) => ascii_lower(e) == "cmd"@ || ascii_lower(e) == "bat"@,
        None => false,
    }
}

/// Whether a command whose path has the extension `extension` (as
/// `Path::extension` gives it) is a Windows command script, `.cmd` or
/// `.bat`, which has to be run through `cmd.exe`.
pub fn is_windows_command_script(extension: Option<&str>) -> (r: bool)
    ensures
        r == script_extension(crate::normalize::opt_str(extension)),
{
    match extension {
        Some(e) => {
            let l = to_ascii_lowercase(e);
            str_eq(l.as_str(), "cmd") || str_eq(l.as_str(), "bat")
        },
        None => false,
    }
}

/// The paths, below a node directory, where a tool may be installed.
pub open spec fn home_suffixes(provider: CliProvider) -> Seq<Seq<Seq<char>>> {
    match provider {
        CliProvider::Codex => seq![
            seq![
                "node_modules"@,
                "@openai"@,
                "codex"@,
                "node_modules"@,
                "@openai"@,
                "codex-win32-x64"@,
                "vendor"@,
                "x86_64-pc-windows-msvc"@,
                "bin"@,
                "codex.exe"@,
            ],
            seq!["codex.cmd"@],
        ],
        CliProvider::Gemini => seq![seq!["gemini.cmd"@]],
    }
}

fn push_str(v: &mut Vec<String>, s: &str)
    ensures
        texts(final(v)@) == texts(old(v)@).push(s@),
{
    let ghost before = v@;
    v.push(String::from_str(s));
    assert(texts(v@) =~= texts(before).push(s@));
}

/// The components to join to a node directory for each place where the
/// tool may be installed, in the order they are tried.
pub fn cli_command_suffixes(provider: CliProvider) -> (r: Vec<Vec<String>>)
    ensures
        r@.map_values(|p: Vec<String>| texts(p@)) == home_suffixes(provider),
{
    let mut out: Vec<Vec<String>> = Vec::new();
    match provider {
        CliProvider::Codex => {
            let mut native: Vec<String> = Vec::new();
            push_str(&mut native, "node_modules");
            push_str(&mut native, "@openai");
            push_str(&mut native, "codex");
            push_str(&mut native, "node_modules");
            push_str(&mut native, "@openai");
            push_str(&mut native, "codex-win32-x64");
            push_str(&mut native, "vendor");
            push_str(&mut native, "x86_64-pc-windows-msvc");
            push_str(&mut native, "bin");
            push_str(&mut native, "codex.exe");
            let mut shim: Vec<String> = Vec::new();
            push_str(&mut shim, "codex.cmd");
            let ghost a = texts(native@);
            let ghost b = texts(shim@);
            out.push(native);
            out.push(shim);
            assert(a =~= home_suffixes(provider)[0]);
            assert(b =~= home_suffixes(provider)[1]);
            assert(out@.map_values(|p: Vec<String>| texts(p@)) =~= home_suffixes(provider));
        },
        CliProvider::Gemini => {
            let mut shim: Vec<String> = Vec::new();
            push_str(&mut shim, "gemini.cmd");
            let ghost b = texts(shim@);
            out.push(shim);
            assert(b =~= home_suffixes(provider)[0]);
            assert(out@.map_values(|p: Vec<String>| texts(p@)) =~= home_suffixes(provider));
        },
    }
    out
}

/// The components to join to a node directory for the Gemini CLI package.
pub fn gemini_package_suffix() -> (r: Vec<String>)
    ensures
        texts(r@) == seq!["node_modules"@, "@google"@, "gemini-cli"@],
{
    let mut out: Vec<String> = Vec::new();
    push_str(&mut out, "node_modules");
    push_str(&mut out, "@google");
    push_str(&mut out, "gemini-cli");
    assert(texts(out@) =~= seq!["node_modules"@, "@google"@, "gemini-cli"@]);
    out
}

proof fn lemma_key_lt_asym(a: Seq<int>, b: Seq<int>)
    ensures
        key_lt(a, b) ==> !key_lt(b, a),
    decreases a.len(),
{
    if a.len() > 0 && b.len() > 0 && a[0] == b[0] {
        lemma_key_lt_asym(a.subrange(1, a.len() as int), b.subrange(1, b.len() as int));
    }
}

proof fn lemma_key_lt_split(c: Seq<int>, b: Seq<int>, a: Seq<int>)
    ensures
        key_lt(c, a) ==> key_lt(c, b) || key_lt(b, a),
    decreases c.len(),
{
    if key_lt(c, a) && !key_lt(c, b) {
        if b.len() == 0 {
            assert(key_lt(b, a));
        } else if c[0] != b[0] {
            assert(key_lt(b, a));
        } else if c[0] != a[0] {
            assert(key_lt(b, a));
        } else {
            let c1 = c.subrange(1, c.len() as int);
            let b1 = b.subrange(1, b.len() as int);
            let a1 = a.subrange(1, a.len() as int);
            lemma_key_lt_split(c1, b1, a1);
            assert(key_lt(b, a) == key_lt(b1, a1));
        }
    }
}

/// Keys that neither precede the other are equal.
proof fn lemma_key_lt_total(a: Seq<int>, b: Seq<int>)
    ensures
        !key_lt(a, b) && !key_lt(b, a) ==> a == b,
    decreases a.len(),
{
    if !key_lt(a, b) && !key_lt(b, a) {
        if a.len() == 0 || b.len() == 0 {
            assert(a.len() == 0 && b.len() == 0);
            assert(a =~= b);
        } else {
            let a1 = a.subrange(1, a.len() as int);
            let b1 = b.subrange(1, b.len() as int);
            lemma_key_lt_total(a1, b1);
            assert(a =~= seq![a[0]] + a1);
            assert(b =~= seq![b[0]] + b1);
        }
    }
}

proof fn lemma_dir_before_asym(a: Seq<char>, b: Seq<char>)
    ensures
        dir_before(a, b) ==> !dir_before(b, a),
{
    lemma_key_lt_asym(version_key(b), version_key(a));
    lemma_key_lt_asym(version_key(a), version_key(b));
    crate::order::lemma_text_lt_asym(b, a);
}

proof fn lemma_dir_before_split(c: Seq<char>, b: Seq<char>, a: Seq<char>)
    ensures
        dir_before(c, a) ==> dir_before(c, b) || dir_before(b, a),
{
    let (kc, kb, ka) = (version_key(c), version_key(b), version_key(a));
    lemma_key_lt_split(ka, kb, kc);
    lemma_key_lt_total(kb, kc);
    lemma_key_lt_total(ka, kb);
    lemma_key_lt_asym(kc, kb);
    lemma_key_lt_asym(kb, ka);
    crate::order::lemma_text_lt_split(a, b, c);
}

/// Ordered as node directories are tried: no name comes before a name
/// placed ahead of it.
pub open spec fn dirs_ordered(s: Seq<Seq<char>>) -> bool {
    forall|i: int, j: int| 0 <= i < j < s.len() ==> !dir_before(#[trigger] s[j], #[trigger] s[i])
}

proof fn lemma_insert_dir(s: Seq<Seq<char>>, x: Seq<char>)
    requires
        dirs_ordered(s),
    ensures
        dirs_ordered(insert_dir(s, x)),
        insert_dir(s, x).to_multiset() =~= s.to_multiset().insert(x),
        forall|k: int|
            0 <= k < insert_dir(s, x).len() ==> #[trigger] insert_dir(s, x)[k] == x || s.contains(
                insert_dir(s, x)[k],
            ),
    decreases s.len(),
{
    broadcast use vstd::multiset::group_multiset_axioms;

    if s.len() == 0 {
        vstd::seq_lib::to_multiset_build(s, x);
        assert(insert_dir(s, x) =~= s.push(x));
    } else if dir_before(x, s.last()) {
        let t = s.drop_last();
        let last = s.last();
        assert(dirs_ordered(t)) by {
            assert forall|i: int, j: int| 0 <= i < j < t.len() implies !dir_before(
                #[trigger] t[j],
                #[trigger] t[i],
            ) by {
                assert(t[i] == s[i] && t[j] == s[j]);
            }
        }
        lemma_insert_dir(t, x);
        let r = insert_dir(t, x);
        assert forall|k: int| 0 <= k < r.len() implies !dir_before(last, #[trigger] r[k]) by {
            if r[k] == x {
                lemma_dir_before_asym(x, last);
            } else {
                let m = choose|m: int| 0 <= m < t.len() && t[m] == r[k];
                assert(s[m] == t[m]);
                assert(!dir_before(s[s.len() - 1], s[m]));
            }
        }
        let rr = r.push(last);
        assert forall|k: int| 0 <= k < rr.len() implies #[trigger] rr[k] == x || s.contains(rr[k]) by {
            if k < r.len() {
                if rr[k] != x {
                    let m = choose|m: int| 0 <= m < t.len() && t[m] == r[k];
                    assert(s[m] == t[m]);
                }
            } else {
                assert(s[s.len() - 1] == last);
            }
        }
        vstd::seq_lib::to_multiset_build(r, last);
        vstd::seq_lib::to_multiset_build(t, last);
        assert(t.push(last) =~= s);
        assert(t.to_multiset().insert(x).insert(last) =~= t.to_multiset().insert(last).insert(x));
    } else {
        let r = s.push(x);
        assert forall|i: int, j: int| 0 <= i < j < r.len() implies !dir_before(
            #[trigger] r[j],
            #[trigger] r[i],
        ) by {
            if j == s.len() {
                if i < s.len() - 1 {
                    assert(!dir_before(s[s.len() - 1], s[i]));
                    lemma_dir_before_split(x, s[s.len() - 1], s[i]);
                }
            } else {
                assert(r[i] == s[i] && r[j] == s[j]);
            }
        }
        assert forall|k: int| 0 <= k < r.len() implies #[trigger] r[k] == x || s.contains(r[k]) by {
            if k < s.len() {
                assert(r[k] == s[k]);
            }
        }
        vstd::seq_lib::to_multiset_build(s, x);
    }
}

/// The order in which node directories are tried: newest version first,
/// and no directory gained or lost.
pub proof fn sorted_dirs_newest_first(s: Seq<Seq<char>>)
    ensures
        dirs_ordered(sort_dirs(s)),
        sort_dirs(s).to_multiset() =~= s.to_multiset(),
    decreases s.len(),
{
    broadcast use vstd::multiset::group_multiset_axioms;

    if s.len() > 0 {
        let t = s.drop_last();
        sorted_dirs_newest_first(t);
        lemma_insert_dir(sort_dirs(t), s.last());
        vstd::seq_lib::to_multiset_build(t, s.last());
        assert(t.push(s.last()) =~= s);
    } else {
        assert(s =~= Seq::<Seq<char>>::empty());
    }
}


/// The views of a list of paths, each given by its components.
pub open spec fn path_texts(v: Seq<Vec<String>>) -> Seq<Seq<Seq<char>>> {
    v.map_values(|p: Vec<String>| texts(p@))
}

/// The paths to look at for a tool's command: for each node directory in
/// turn, that directory followed by each suffix in turn.
pub open spec fn node_candidates(dirs: Seq<Seq<char>>, suffixes: Seq<Seq<Seq<char>>>) -> Seq<
    Seq<Seq<char>>,
>
    decreases dirs.len(),
{
    if dirs.len() == 0 {
        Seq::empty()
    } else {
        node_candidates(dirs.drop_last(), suffixes) + suffixes.map_values(
            |x: Seq<Seq<char>>| seq![dirs.last()] + x,
        )
    }
}

/// `dir` followed by the components of `suffix`.
fn prefixed_path(dir: &String, suffix: &Vec<String>) -> (r: Vec<String>)
    ensures
        texts(r@) == seq![dir@] + texts(suffix@),
{
    let mut r: Vec<String> = Vec::new();
    r.push(dir.clone());
    let mut i: usize = 0;
    while i < suffix.len()
        invariant
            i <= suffix@.len(),
            texts(r@) == seq![dir@] + texts(suffix@).take(i as int),
        decreases suffix@.len() - i,
    {
        let c = suffix[i].clone();
        let ghost before = r@;
        r.push(c);
        assert(texts(r@) =~= texts(before).push(c@));
        assert(texts(suffix@).take(i + 1) =~= texts(suffix@).take(i as int).push(c@));
        i = i + 1;
    }
    assert(texts(suffix@).take(suffix@.len() as int) =~= texts(suffix@));
    r
}

/// The candidate paths of a tool's command under its node directories, as
/// lists of components: directory by directory, and within each the
/// suffixes in order.
pub fn cli_candidates(node_dirs: Vec<String>, suffixes: Vec<Vec<String>>) -> (r: Vec<Vec<String>>)
    ensures
        path_texts(r@) == node_candidates(texts(node_dirs@), path_texts(suffixes@)),
{
    let ghost ds = texts(node_dirs@);
    let ghost ss = path_texts(suffixes@);
    let mut r: Vec<Vec<String>> = Vec::new();
    let mut i: usize = 0;
    while i < node_dirs.len()
        invariant
            i <= node_dirs@.len(),
            ds == texts(node_dirs@),
            ss == path_texts(suffixes@),
            path_texts(r@) == node_candidates(ds.take(i as int), ss),
        decreases node_dirs@.len() - i,
    {
        let ghost head = path_texts(r@);
        let ghost d = node_dirs@[i as int]@;
        let mut j: usize = 0;
        while j < suffixes.len()
            invariant
                i < node_dirs@.len(),
                j <= suffixes@.len(),
                ss == path_texts(suffixes@),
                d == node_dirs@[i as int]@,
                path_texts(r@) == head + ss.take(j as int).map_values(
                    |x: Seq<Seq<char>>| seq![d] + x,
                ),
            decreases suffixes@.len() - j,
        {
            let p = prefixed_path(&node_dirs[i], &suffixes[j]);
            let ghost before = r@;
            r.push(p);
            assert(path_texts(r@) =~= path_texts(before).push(texts(p@)));
            assert(ss.take(j + 1).map_values(|x: Seq<Seq<char>>| seq![d] + x) =~= ss.take(
                j as int,
            ).map_values(|x: Seq<Seq<char>>| seq![d] + x).push(seq![d] + ss[j as int]));
            j = j + 1;
        }
        assert(ss.take(ss.len() as int) =~= ss);
        assert(ds.take(i + 1).drop_last() =~= ds.take(i as int));
        assert(ds.take(i + 1).last() == d);
        i = i + 1;
    }
    assert(ds.take(ds.len() as int) =~= ds);
    r
}

} // verus!
