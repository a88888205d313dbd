use vstd::prelude::*;
use crate::model::{
    limit_views, opt_text, texts, LimitView, ModelLimit, ProviderStatus, ProviderView, Report,
    ReportFilters, ReportView,
};
use crate::provider::{codex_key, gemini_key, provider_display, provider_key, CliProvider};
use crate::text::{
    ascii_lower, chars_of, contains_text, lower_chars, split_exec, split_on,
    str_eq, string_from_chars, text_contains, to_ascii_lowercase, trim, trim_chars,
};

verus! {

/// The term a comma-separated piece stands for: trimmed and lower-cased.
pub open spec fn piece_term(p: Seq<char>) -> Seq<char> {
    ascii_lower(trim(p))
}

/// The non-empty terms of a list of pieces, in order.
pub open spec fn piece_terms(ps: Seq<Seq<char>>) -> Seq<Seq<char>>
    decreases ps.len(),
{
    if ps.len() == 0 {
        Seq::empty()
    } else {
        let t = piece_term(ps.last());
        piece_terms(ps.drop_last()) + if t.len() > 0 {
            seq![t]
        } else {
            Seq::<Seq<char>>::empty()
        }
    }
}

/// The terms of filter values: every value split at commas, each piece
/// trimmed and lower-cased, empty pieces left out, in order.
pub open spec fn filter_terms(values: Seq<Seq<char>>) -> Seq<Seq<char>>
    decreases values.len(),
{
    if values.len() == 0 {
        Seq::empty()
    } else {
        filter_terms(values.drop_last()) + piece_terms(split_on(values.last(), ','))
    }
}

/// A provider filter selects a provider when it has no term, or a term equal
/// to the provider's key or lower-cased display name.
pub open spec fn selects(terms: Seq<Seq<char>>, p: CliProvider) -> bool {
    terms.len() == 0 || exists|i: int|
        0 <= i < terms.len() && (#[trigger] terms[i] == provider_key(p) || terms[i] == ascii_lower(
            provider_display(p),
        ))
}

/// A term names one of the two providers.
pub open spec fn known_provider_term(t: Seq<char>) -> bool {
    t == codex_key() || t == gemini_key()
}

/// The terms that name no provider, in order.
pub open spec fn unknown_terms(terms: Seq<Seq<char>>) -> Seq<Seq<char>>
    decreases terms.len(),
{
    if terms.len() == 0 {
        Seq::empty()
    } else {
        unknown_terms(terms.drop_last()) + if known_provider_term(terms.last()) {
            Seq::<Seq<char>>::empty()
        } else {
            seq![terms.last()]
        }
    }
}

/// An optional name contains a term, ignoring ASCII case of the name.
pub open spec fn opt_hits(o: Option<Seq<char>>, t: Seq<char>) -> bool {
    match o {
        Some(s) => contains_text(ascii_lower(s), t),
        None => false,
    }
}

/// A term matches a limit when it occurs in its id, model or display name,
/// lower-cased.
pub open spec fn term_hits(l: LimitView, t: Seq<char>) -> bool {
    contains_text(ascii_lower(l.id), t) || opt_hits(l.model, t) || opt_hits(l.display_name, t)
}

pub open spec fn limit_matches(l: LimitView, terms: Seq<Seq<char>>) -> bool {
    exists|i: int| 0 <= i < terms.len() && term_hits(l, #[trigger] terms[i])
}

/// The limits that some term matches, in order.
pub open spec fn keep_matching(s: Seq<LimitView>, terms: Seq<Seq<char>>) -> Seq<LimitView>
    decreases s.len(),
{
    if s.len() == 0 {
        Seq::empty()
    } else {
        keep_matching(s.drop_last(), terms) + if limit_matches(s.last(), terms) {
            seq![s.last()]
        } else {
            Seq::<LimitView>::empty()
        }
    }
}

pub open spec fn filter_provider(p: ProviderView, terms: Seq<Seq<char>>) -> ProviderView {
    ProviderView { limits: keep_matching(p.limits, terms), ..p }
}

pub open spec fn filter_opt_provider(o: Option<ProviderView>, terms: Seq<Seq<char>>) -> Option<
    ProviderView,
> {
    match o {
        Some(p) => Some(filter_provider(p, terms)),
        None => None,
    }
}

/// A report after filtering: providers that the provider terms do not
/// select are gone; when there are model terms, each provider keeps only
/// the limits that they match.
pub open spec fn apply_filters(
    r: ReportView,
    provider_terms: Seq<Seq<char>>,
    model_terms: Seq<Seq<char>>,
) -> ReportView {
    let codex = if selects(provider_terms, CliProvider::Codex) {
        r.codex
    } else {
        None
    };
    let gemini = if selects(provider_terms, CliProvider::Gemini) {
        r.gemini
    } else {
        None
    };
    if model_terms.len() == 0 {
        ReportView { codex, gemini, ..r }
    } else {
        ReportView {
            codex: filter_opt_provider(codex, model_terms),
            gemini: filter_opt_provider(gemini, model_terms),
            ..r
        }
    }
}

/// A provider status other than `ok`.
pub open spec fn failed(o: Option<ProviderView>) -> bool {
    match o {
        Some(p) => p.status != seq!['o', 'k'],
        None => false,
    }
}

fn piece_terms_exec(pieces: &Vec<Vec<char>>, out: &mut Vec<String>)
    ensures
        texts(final(out)@) == texts(old(out)@) + piece_terms(
            pieces@.map_values(|p: Vec<char>| p@),
        ),
{
    let ghost ps = pieces@.map_values(|p: Vec<char>| p@);
    let ghost start = texts(out@);
    let mut i: usize = 0;
    while i < pieces.len()
        invariant
            i <= pieces@.len(),
            ps == pieces@.map_values(|p: Vec<char>| p@),
            texts(out@) == start + piece_terms(ps.take(i as int)),
        decreases pieces@.len() - i,
    {
        let trimmed = trim_chars(pieces[i].as_slice());
        let lowered = lower_chars(trimmed.as_slice());
        assert(ps.take(i + 1).drop_last() =~= ps.take(i as int));
        assert(ps.take(i + 1).last() == pieces@[i as int]@);
        if lowered.len() > 0 {
            let t = string_from_chars(lowered.as_slice());
            let ghost before = out@;
            out.push(t);
            assert(texts(out@) =~= texts(before).push(t@));
        }
        assert(texts(out@) =~= start + piece_terms(ps.take(i + 1)));
        i = i + 1;
    }
    assert(ps.take(pieces@.len() as int) =~= ps);
}

/// The filter terms of `values`: split at commas, trimmed, lower-cased,
/// empty ones left out.
pub fn normalized_filter_terms(values: &Vec<String>) -> (out: Vec<String>)
    ensures
        texts(out@) == filter_terms(texts(values@)),
{
    let ghost vs = texts(values@);
    let mut out: Vec<String> = Vec::new();
    let mut i: usize = 0;
    while i < values.len()
        invariant
            i <= values@.len(),
            vs == texts(values@),
            texts(out@) == filter_terms(vs.take(i as int)),
        decreases values@.len() - i,
    {
        let cs = chars_of(values[i].as_str());
        let pieces = split_exec(cs.as_slice(), ',');
        let ghost before = texts(out@);
        piece_terms_exec(&pieces, &mut out);
        assert(pieces@.map_values(|p: Vec<char>| p@) =~= split_on(values@[i as int]@, ','));
        assert(vs.take(i + 1).drop_last() =~= vs.take(i as int));
        assert(vs.take(i + 1).last() == values@[i as int]@);
        i = i + 1;
    }
    assert(vs.take(values@.len() as int) =~= vs);
    out
}

fn is_known_provider_term(t: &str) -> (r: bool)
    ensures
        r == known_provider_term(t@),
{
    let c = CliProvider::Codex.key();
    let g = CliProvider::Gemini.key();
    str_eq(t, c) || str_eq(t, g)
}

/// Why a provider filter was refused: the terms that name no provider.
#[derive(Debug, Clone)]
pub struct FilterError {
    pub unknown: Vec<String>,
}

/// `parts` joined with `sep` between them.
pub open spec fn join_texts(parts: Seq<Seq<char>>, sep: Seq<char>) -> Seq<char>
    decreases parts.len(),
{
    if parts.len() == 0 {
        Seq::empty()
    } else if parts.len() == 1 {
        parts[0]
    } else {
        join_texts(parts.drop_last(), sep) + sep + parts.last()
    }
}

/// Appends `parts` joined with `sep`.
pub fn push_joined(out: &mut String, parts: &Vec<String>, sep: &str)
    ensures
        final(out)@ == old(out)@ + join_texts(texts(parts@), sep@),
{
    let ghost ps = texts(parts@);
    let ghost start = out@;
    let mut i: usize = 0;
    while i < parts.len()
        invariant
            i <= parts@.len(),
            ps == texts(parts@),
            out@ == start + join_texts(ps.take(i as int), sep@),
        decreases parts@.len() - i,
    {
        if i > 0 {
            out.append(sep);
        }
        out.append(parts[i].as_str());
        assert(ps.take(i + 1).drop_last() =~= ps.take(i as int));
        assert(ps.take(i + 1).last() == parts@[i as int]@);
        if i == 0 {
            assert(ps.take(1) =~= seq![parts@[0]@]);
        }
        assert(out@ =~= start + join_texts(ps.take(i + 1), sep@));
        i = i + 1;
    }
    assert(ps.take(parts@.len() as int) =~= ps);
}

/// `unknown provider filter: <terms>. Use codex or gemini`
pub open spec fn filter_error_text(unknown: Seq<Seq<char>>) -> Seq<char> {
    "unknown provider filter: "@ + join_texts(unknown, ", "@) + ". Use codex or gemini"@
}

impl FilterError {
    /// The message shown to the user.
    pub fn message(&self) -> (r: String)
        ensures
            r@ == filter_error_text(texts(self.unknown@)),
    {
        let mut out = String::from_str("unknown provider filter: ");
        push_joined(&mut out, &self.unknown, ", ");
        out.append(". Use codex or gemini");
        out
    }
}

/// Accepts provider filters whose terms all name a provider; refuses the
/// others with the terms that name none.
pub fn validate_report_filters(filters: &ReportFilters) -> (r: Result<(), FilterError>)
    ensures
        match r {
            Ok(()) => unknown_terms(filter_terms(texts(filters.providers@))).len() == 0,
            Err(e) => texts(e.unknown@) == unknown_terms(filter_terms(texts(filters.providers@)))
                && e.unknown@.len() > 0,
        },
{
    let terms = normalized_filter_terms(&filters.providers);
    let ghost ts = texts(terms@);
    let mut unknown: Vec<String> = Vec::new();
    let mut i: usize = 0;
    while i < terms.len()
        invariant
            i <= terms@.len(),
            ts == texts(terms@),
            texts(unknown@) == unknown_terms(ts.take(i as int)),
        decreases terms@.len() - i,
    {
        assert(ts.take(i + 1).drop_last() =~= ts.take(i as int));
        assert(ts.take(i + 1).last() == terms@[i as int]@);
        if !is_known_provider_term(terms[i].as_str()) {
            let t = terms[i].clone();
            let ghost before = unknown@;
            unknown.push(t);
            assert(texts(unknown@) =~= texts(before).push(t@));
        }
        assert(texts(unknown@) =~= unknown_terms(ts.take(i + 1)));
        i = i + 1;
    }
    assert(ts.take(terms@.len() as int) =~= ts);
    if unknown.len() == 0 {
        Ok(())
    } else {
        Err(FilterError { unknown })
    }
}

fn selects_exec(terms: &Vec<String>, provider: CliProvider) -> (r: bool)
    ensures
        r == selects(texts(terms@), provider),
{
    if terms.len() == 0 {
        return true;
    }
    let key = provider.key();
    let display = to_ascii_lowercase(provider.display_name());
    let mut i: usize = 0;
    while i < terms.len()
        invariant
            i <= terms@.len(),
            key@ == provider_key(provider),
            display@ == ascii_lower(provider_display(provider)),
            forall|j: int|
                0 <= j < i ==> !(#[trigger] texts(terms@)[j] == provider_key(provider) || texts(
                    terms@,
                )[j] == ascii_lower(provider_display(provider))),
        decreases terms@.len() - i,
    {
        if str_eq(terms[i].as_str(), key) || str_eq(terms[i].as_str(), display.as_str()) {
            assert(texts(terms@)[i as int] == terms@[i as int]@);
            return true;
        }
        i = i + 1;
    }
    false
}

/// Whether the provider filter keeps `provider`.
pub fn provider_is_selected(provider: CliProvider, filters: &ReportFilters) -> (r: bool)
    ensures
        r == selects(filter_terms(texts(filters.providers@)), provider),
{
    let terms = normalized_filter_terms(&filters.providers);
    selects_exec(&terms, provider)
}

fn opt_hits_exec(o: &Option<String>, t: &str) -> (r: bool)
    ensures
        r == opt_hits(opt_text(*o), t@),
{
    match o {
        Some(s) => {
            let l = to_ascii_lowercase(s.as_str());
            text_contains(l.as_str(), t)
        },
        None => false,
    }
}

/// Whether some term occurs in the limit's id, model or display name,
/// ignoring ASCII case of those.
pub fn model_matches_terms(limit: &ModelLimit, terms: &Vec<String>) -> (r: bool)
    ensures
        r == limit_matches(limit@, texts(terms@)),
{
    let id = to_ascii_lowercase(limit.id.as_str());
    let mut i: usize = 0;
    while i < terms.len()
        invariant
            i <= terms@.len(),
            id@ == ascii_lower(limit@.id),
            forall|j: int| 0 <= j < i ==> !term_hits(limit@, #[trigger] texts(terms@)[j]),
        decreases terms@.len() - i,
    {
        let t = terms[i].as_str();
        assert(texts(terms@)[i as int] == terms@[i as int]@);
        if text_contains(id.as_str(), t) || opt_hits_exec(&limit.model, t) || opt_hits_exec(
            &limit.display_name,
            t,
        ) {
            return true;
        }
        i = i + 1;
    }
    false
}

/// Keeps only the provider's limits that some term matches, in order.
pub fn filter_provider_models(provider: &mut ProviderStatus, terms: &Vec<String>)
    ensures
        final(provider)@ == filter_provider(old(provider)@, texts(terms@)),
{
    let mut rest: Vec<ModelLimit> = Vec::new();
    std::mem::swap(&mut rest, &mut provider.limits);
    let ghost ls = limit_views(rest@);
    let ghost n = rest@.len();
    assert(n == rest.len());
    let mut i: usize = 0;
    while rest.len() > 0
        invariant
            i + rest@.len() == n,
            n <= usize::MAX,
            ls.len() == n,
            limit_views(rest@) == ls.skip(i as int),
            limit_views(provider.limits@) == keep_matching(ls.take(i as int), texts(terms@)),
            provider@ == (ProviderView { limits: limit_views(provider.limits@), ..old(provider)@ }),
        decreases rest@.len(),
    {
        let ghost pre = rest@;
        let l = rest.remove(0);
        assert(limit_views(pre)[0] == l@);
        assert(limit_views(rest@) =~= limit_views(pre).subrange(1, pre.len() as int));
        assert(ls.skip(i as int).subrange(1, pre.len() as int) =~= ls.skip(i + 1));
        assert(ls.take(i + 1).drop_last() =~= ls.take(i as int));
        assert(ls.take(i + 1).last() == l@);
        if model_matches_terms(&l, terms) {
            let ghost before = provider.limits@;
            provider.limits.push(l);
            assert(limit_views(provider.limits@) =~= limit_views(before).push(ls[i as int]));
        }
        assert(limit_views(provider.limits@) =~= keep_matching(ls.take(i + 1), texts(terms@)));
        i = i + 1;
    }
    assert(ls.take(n as int) =~= ls);
}

/// Removes the providers that the provider filter does not select and, when
/// model terms are given, the limits that no term matches.
pub fn apply_report_filters(report: &mut Report, filters: &ReportFilters)
    ensures
        final(report)@ == apply_filters(
            old(report)@,
            filter_terms(texts(filters.providers@)),
            filter_terms(texts(filters.models@)),
        ),
{
    if !provider_is_selected(CliProvider::Codex, filters) {
        report.codex = None;
    }
    if !provider_is_selected(CliProvider::Gemini, filters) {
        report.gemini = None;
    }
    let model_terms = normalized_filter_terms(&filters.models);
    if model_terms.len() == 0 {
        return;
    }
    let codex = report.codex.take();
    report.codex = match codex {
        Some(mut p) => {
            filter_provider_models(&mut p, &model_terms);
            Some(p)
        },
        None => None,
    };
    let gemini = report.gemini.take();
    report.gemini = match gemini {
        Some(mut p) => {
            filter_provider_models(&mut p, &model_terms);
            Some(p)
        },
        None => None,
    };
}

/// Whether a provider that is in the report failed; providers left out of
/// the report do not count.
pub fn report_has_error(report: &Report) -> (r: bool)
    ensures
        r == (failed(report@.codex) || failed(report@.gemini)),
{
    proof {
        reveal_strlit("ok");
        assert("ok"@ =~= seq!['o', 'k']);
    }
    let codex_failed = match &report.codex {
        Some(p) => !str_eq(p.status.as_str(), "ok"),
        None => false,
    };
    let gemini_failed = match &report.gemini {
        Some(p) => !str_eq(p.status.as_str(), "ok"),
        None => false,
    };
    codex_failed || gemini_failed
}

proof fn lemma_keep_matching_idempotent(s: Seq<LimitView>, terms: Seq<Seq<char>>)
    ensures
        keep_matching(keep_matching(s, terms), terms) == keep_matching(s, terms),
    decreases s.len(),
{
    if s.len() > 0 {
        let k = keep_matching(s.drop_last(), terms);
        lemma_keep_matching_idempotent(s.drop_last(), terms);
        if limit_matches(s.last(), terms) {
            let t = k.push(s.last());
            assert(t.drop_last() =~= k);
            assert(keep_matching(s, terms) =~= t);
        } else {
            assert(keep_matching(s, terms) =~= k);
        }
    }
}

proof fn lemma_keep_matching_sound(s: Seq<LimitView>, terms: Seq<Seq<char>>)
    ensures
        forall|i: int|
            0 <= i < keep_matching(s, terms).len() ==> limit_matches(
                #[trigger] keep_matching(s, terms)[i],
                terms,
            ),
        forall|i: int|
            0 <= i < s.len() && limit_matches(#[trigger] s[i], terms) ==> keep_matching(
                s,
                terms,
            ).contains(s[i]),
        keep_matching(s, terms).len() <= s.len(),
    decreases s.len(),
{
    if s.len() > 0 {
        lemma_keep_matching_sound(s.drop_last(), terms);
        let k = keep_matching(s.drop_last(), terms);
        assert forall|i: int| 0 <= i < s.len() && limit_matches(#[trigger] s[i], terms) implies keep_matching(
            s,
            terms,
        ).contains(s[i]) by {
            if i < s.len() - 1 {
                assert(s.drop_last()[i] == s[i]);
                let j = choose|j: int| 0 <= j < k.len() && k[j] == s[i];
                assert(keep_matching(s, terms)[j] == s[i]);
            } else {
                assert(keep_matching(s, terms)[k.len() as int] == s[i]);
            }
        }
    }
}

/// Filtering is idempotent: filtering a filtered report again with the same
/// filters changes nothing.
pub proof fn apply_filters_idempotent(
    r: ReportView,
    provider_terms: Seq<Seq<char>>,
    model_terms: Seq<Seq<char>>,
)
    ensures
        apply_filters(apply_filters(r, provider_terms, model_terms), provider_terms, model_terms)
            == apply_filters(r, provider_terms, model_terms),
{
    match r.codex {
        Some(p) => lemma_keep_matching_idempotent(p.limits, model_terms),
        None => {},
    }
    match r.gemini {
        Some(p) => lemma_keep_matching_idempotent(p.limits, model_terms),
        None => {},
    }
}

/// Without any term, filtering leaves a report as it is.
pub proof fn apply_filters_without_terms(r: ReportView)
    ensures
        apply_filters(r, Seq::empty(), Seq::empty()) == r,
{
}

/// A provider that the provider terms do not select is absent after
/// filtering, and a selected provider keeps its place.
pub proof fn apply_filters_provider_selection(
    r: ReportView,
    provider_terms: Seq<Seq<char>>,
    model_terms: Seq<Seq<char>>,
)
    ensures
        (apply_filters(r, provider_terms, model_terms).codex is Some) <==> (selects(
            provider_terms,
            CliProvider::Codex,
        ) && r.codex is Some),
        (apply_filters(r, provider_terms, model_terms).gemini is Some) <==> (selects(
            provider_terms,
            CliProvider::Gemini,
        ) && r.gemini is Some),
{
}

/// After model filtering, every limit left matches some term, every limit
/// that matches a term is still there, and none is added.
pub proof fn model_filter_keeps_exactly_matches(p: ProviderView, terms: Seq<Seq<char>>)
    ensures
        forall|i: int|
            0 <= i < filter_provider(p, terms).limits.len() ==> limit_matches(
                #[trigger] filter_provider(p, terms).limits[i],
                terms,
            ),
        forall|i: int|
            0 <= i < p.limits.len() && limit_matches(#[trigger] p.limits[i], terms)
                ==> filter_provider(p, terms).limits.contains(p.limits[i]),
        filter_provider(p, terms).limits.len() <= p.limits.len(),
{
    lemma_keep_matching_sound(p.limits, terms);
}

/// Whether a report counts as failed depends only on the providers in it.
pub proof fn error_status_ignores_absent_providers(r: ReportView)
    ensures
        r.codex is None && r.gemini is None ==> !(failed(r.codex) || failed(r.gemini)),
        r.codex is None ==> ((failed(r.codex) || failed(r.gemini)) == failed(r.gemini)),
        r.gemini is None ==> ((failed(r.codex) || failed(r.gemini)) == failed(r.codex)),
{
}

/// A report of the collected providers, filtered: what a collection run
/// hands back.
pub fn finish_report(
    generated_at: String,
    codex: Option<ProviderStatus>,
    gemini: Option<ProviderStatus>,
    filters: &ReportFilters,
) -> (r: Report)
    ensures
        r@ == apply_filters(
            ReportView {
                generated_at: generated_at@,
                codex: crate::model::opt_provider(codex),
                gemini: crate::model::opt_provider(gemini),
            },
            filter_terms(texts(filters.providers@)),
            filter_terms(texts(filters.models@)),
        ),
{
    let mut report = Report { generated_at, codex, gemini };
    apply_report_filters(&mut report, filters);
    report
}

proof fn lemma_piece_terms_nonempty(ps: Seq<Seq<char>>)
    ensures
        forall|i: int| 0 <= i < piece_terms(ps).len() ==> #[trigger] piece_terms(ps)[i].len() > 0,
    decreases ps.len(),
{
    if ps.len() > 0 {
        lemma_piece_terms_nonempty(ps.drop_last());
        let a = piece_terms(ps.drop_last());
        let t = piece_term(ps.last());
        let b = if t.len() > 0 {
            seq![t]
        } else {
            Seq::<Seq<char>>::empty()
        };
        assert forall|i: int| 0 <= i < (a + b).len() implies #[trigger] (a + b)[i].len() > 0 by {
            if i < a.len() {
                assert((a + b)[i] == a[i]);
            } else {
                assert((a + b)[i] == b[i - a.len()]);
            }
        }
    }
}

/// No filter term is empty: blank pieces between commas select nothing.
pub proof fn filter_terms_are_nonempty(values: Seq<Seq<char>>)
    ensures
        forall|i: int|
            0 <= i < filter_terms(values).len() ==> #[trigger] filter_terms(values)[i].len() > 0,
    decreases values.len(),
{
    if values.len() > 0 {
        filter_terms_are_nonempty(values.drop_last());
        let a = filter_terms(values.drop_last());
        let b = piece_terms(split_on(values.last(), ','));
        lemma_piece_terms_nonempty(split_on(values.last(), ','));
        assert forall|i: int| 0 <= i < (a + b).len() implies #[trigger] (a + b)[i].len() > 0 by {
            if i < a.len() {
                assert((a + b)[i] == a[i]);
            } else {
                assert((a + b)[i] == b[i - a.len()]);
            }
        }
    }
}


/// Any listed provider is kept, wherever it stands among the terms: when
/// some term (at any position) is a provider's key or lower-cased display
/// name, the provider stays in the report exactly when it was there; with
/// terms of which none names it, it is gone.
pub proof fn listed_providers_are_kept(
    r: ReportView,
    provider_terms: Seq<Seq<char>>,
    model_terms: Seq<Seq<char>>,
)
    ensures
        (provider_terms.contains(codex_key()) || provider_terms.contains(
            ascii_lower(provider_display(CliProvider::Codex)),
        )) ==> (apply_filters(r, provider_terms, model_terms).codex is Some <==> r.codex is Some),
        (provider_terms.contains(gemini_key()) || provider_terms.contains(
            ascii_lower(provider_display(CliProvider::Gemini)),
        )) ==> (apply_filters(r, provider_terms, model_terms).gemini is Some <==> r.gemini is Some),
        (provider_terms.len() > 0 && !provider_terms.contains(codex_key())
            && !provider_terms.contains(ascii_lower(provider_display(CliProvider::Codex))))
            ==> apply_filters(r, provider_terms, model_terms).codex is None,
        (provider_terms.len() > 0 && !provider_terms.contains(gemini_key())
            && !provider_terms.contains(ascii_lower(provider_display(CliProvider::Gemini))))
            ==> apply_filters(r, provider_terms, model_terms).gemini is None,
{
    let c = CliProvider::Codex;
    let g = CliProvider::Gemini;
    assert(provider_key(c) == codex_key());
    assert(provider_key(g) == gemini_key());
    if provider_terms.contains(codex_key()) {
        let i = choose|i: int| 0 <= i < provider_terms.len() && provider_terms[i] == codex_key();
        assert(selects(provider_terms, c));
    }
    if provider_terms.contains(ascii_lower(provider_display(c))) {
        let i = choose|i: int|
            0 <= i < provider_terms.len() && provider_terms[i] == ascii_lower(provider_display(c));
        assert(selects(provider_terms, c));
    }
    if provider_terms.contains(gemini_key()) {
        let i = choose|i: int| 0 <= i < provider_terms.len() && provider_terms[i] == gemini_key();
        assert(selects(provider_terms, g));
    }
    if provider_terms.contains(ascii_lower(provider_display(g))) {
        let i = choose|i: int|
            0 <= i < provider_terms.len() && provider_terms[i] == ascii_lower(provider_display(g));
        assert(selects(provider_terms, g));
    }
    if selects(provider_terms, c) && provider_terms.len() > 0 {
        let i = choose|i: int|
            0 <= i < provider_terms.len() && (#[trigger] provider_terms[i] == provider_key(c)
                || provider_terms[i] == ascii_lower(provider_display(c)));
        assert(provider_terms.contains(provider_terms[i]));
    }
    if selects(provider_terms, g) && provider_terms.len() > 0 {
        let i = choose|i: int|
            0 <= i < provider_terms.len() && (#[trigger] provider_terms[i] == provider_key(g)
                || provider_terms[i] == ascii_lower(provider_display(g)));
        assert(provider_terms.contains(provider_terms[i]));
    }
}

/// Which providers stay does not depend on the order of the terms.
pub proof fn provider_selection_ignores_order(
    r: ReportView,
    provider_terms: Seq<Seq<char>>,
    model_terms: Seq<Seq<char>>,
)
    ensures
        apply_filters(r, provider_terms.reverse(), model_terms) == apply_filters(
            r,
            provider_terms,
            model_terms,
        ),
{
    let t = provider_terms;
    let u = t.reverse();
    assert(u.len() == t.len());
    assert forall|p: CliProvider| selects(u, p) == selects(t, p) by {
        if t.len() > 0 {
            assert(u =~= Seq::new(t.len(), |i: int| t[t.len() - 1 - i]));
            if selects(u, p) {
                let i = choose|i: int|
                    0 <= i < u.len() && (#[trigger] u[i] == provider_key(p) || u[i] == ascii_lower(
                        provider_display(p),
                    ));
                assert(t[t.len() - 1 - i] == u[i]);
            }
            if selects(t, p) {
                let i = choose|i: int|
                    0 <= i < t.len() && (#[trigger] t[i] == provider_key(p) || t[i] == ascii_lower(
                        provider_display(p),
                    ));
                assert(u[t.len() - 1 - i] == t[i]);
            }
        }
    }
    assert(selects(u, CliProvider::Codex) == selects(t, CliProvider::Codex));
    assert(selects(u, CliProvider::Gemini) == selects(t, CliProvider::Gemini));
}

/// The test that some of `terms` matches a limit.
pub open spec fn matching(terms: Seq<Seq<char>>) -> spec_fn(LimitView) -> bool {
    |l: LimitView| limit_matches(l, terms)
}

proof fn lemma_keep_matching_is_filter(s: Seq<LimitView>, terms: Seq<Seq<char>>)
    ensures
        keep_matching(s, terms) == s.filter(matching(terms)),
    decreases s.len(),
{
    reveal_with_fuel(Seq::filter, 1);
    if s.len() == 0 {
        assert(s =~= Seq::<LimitView>::empty());
    } else {
        lemma_keep_matching_is_filter(s.drop_last(), terms);
        let k = keep_matching(s.drop_last(), terms);
        if limit_matches(s.last(), terms) {
            assert(k + seq![s.last()] =~= k.push(s.last()));
        } else {
            assert(k + Seq::<LimitView>::empty() =~= k);
        }
    }
}

/// With model terms, each provider left in the report, Codex and Gemini
/// alike, keeps exactly those of its limits that some term matches, in
/// order, and nothing else of it changes.
pub proof fn model_filter_reaches_every_provider(
    r: ReportView,
    provider_terms: Seq<Seq<char>>,
    model_terms: Seq<Seq<char>>,
)
    requires
        model_terms.len() > 0,
    ensures
        apply_filters(r, provider_terms, model_terms).codex matches Some(f) ==> (r.codex matches Some(
            o,
        ) && f == ProviderView {
            limits: o.limits.filter(matching(model_terms)),
            ..o
        }),
        apply_filters(r, provider_terms, model_terms).gemini matches Some(f) ==> (
        r.gemini matches Some(o) && f == ProviderView {
            limits: o.limits.filter(matching(model_terms)),
            ..o
        }),
{
    match r.codex {
        Some(o) => lemma_keep_matching_is_filter(o.limits, model_terms),
        None => {},
    }
    match r.gemini {
        Some(o) => lemma_keep_matching_is_filter(o.limits, model_terms),
        None => {},
    }
}

/// A model term matches a limit when it occurs in the limit's id, model or
/// display name with ASCII letters lower-cased, so such a limit survives
/// model filtering.
pub proof fn model_terms_search_id_model_and_display_name(
    p: ProviderView,
    terms: Seq<Seq<char>>,
    i: int,
    j: int,
)
    requires
        0 <= i < p.limits.len(),
        0 <= j < terms.len(),
        contains_text(ascii_lower(p.limits[i].id), terms[j]) || (p.limits[i].model matches Some(
            m,
        ) && contains_text(ascii_lower(m), terms[j])) || (p.limits[i].display_name matches Some(d)
            && contains_text(ascii_lower(d), terms[j])),
    ensures
        filter_provider(p, terms).limits.contains(p.limits[i]),
{
    assert(term_hits(p.limits[i], terms[j]));
    assert(limit_matches(p.limits[i], terms));
    lemma_keep_matching_sound(p.limits, terms);
}

} // verus!
