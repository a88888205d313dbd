use vstd::prelude::*;
use crate::json::{JsonValue, JsonView};

verus! {

/// The view of an optional string.
pub open spec fn opt_text(o: Option<String>) -> Option<Seq<char>> {
    match o {
        Some(s) => Some(s@),
        None => None,
    }
}

/// The views of a list of strings.
pub open spec fn texts(v: Seq<String>) -> Seq<Seq<char>> {
    v.map_values(|s: String| s@)
}

/// The view of an optional JSON document.
pub open spec fn opt_json(o: Option<JsonValue>) -> Option<JsonView> {
    match o {
        Some(v) => Some(v@),
        None => None,
    }
}

/// Credit information of an account or a limit.
#[derive(Debug, Clone)]
pub struct CreditsStatus {
    pub has_credits: Option<bool>,
    pub unlimited: Option<bool>,
    pub balance: Option<String>,
}

pub struct CreditsView {
    pub has_credits: Option<bool>,
    pub unlimited: Option<bool>,
    pub balance: Option<Seq<char>>,
}

impl View for CreditsStatus {
    type V = CreditsView;

    open spec fn view(&self) -> CreditsView {
        CreditsView {
            has_credits: self.has_credits,
            unlimited: self.unlimited,
            balance: opt_text(self.balance),
        }
    }
}

/// One usage window of a limit. Percentages are exact decimals with five
/// fractional digits, held as integers in units of 1/100000 percent.
#[derive(Debug, Clone)]
pub struct LimitWindowStatus {
    pub kind: String,
    pub label: Option<String>,
    pub used_percent: Option<i128>,
    pub remaining_percent: Option<i128>,
    pub remaining_amount: Option<i64>,
    pub window_minutes: Option<i64>,
    pub resets_at: Option<String>,
    pub milliseconds_until_reset: Option<i64>,
}

pub struct WindowView {
    pub kind: Seq<char>,
    pub label: Option<Seq<char>>,
    pub used_percent: Option<int>,
    pub remaining_percent: Option<int>,
    pub remaining_amount: Option<int>,
    pub window_minutes: Option<int>,
    pub resets_at: Option<Seq<char>>,
    pub milliseconds_until_reset: Option<int>,
}

pub open spec fn opt_int(o: Option<i64>) -> Option<int> {
    match o {
        Some(i) => Some(i as int),
        None => None,
    }
}

pub open spec fn opt_wide(o: Option<i128>) -> Option<int> {
    match o {
        Some(i) => Some(i as int),
        None => None,
    }
}

impl View for LimitWindowStatus {
    type V = WindowView;

    open spec fn view(&self) -> WindowView {
        WindowView {
            kind: self.kind@,
            label: opt_text(self.label),
            used_percent: opt_wide(self.used_percent),
            remaining_percent: opt_wide(self.remaining_percent),
            remaining_amount: opt_int(self.remaining_amount),
            window_minutes: opt_int(self.window_minutes),
            resets_at: opt_text(self.resets_at),
            milliseconds_until_reset: opt_int(self.milliseconds_until_reset),
        }
    }
}

/// The limits of one model (or one pool of models).
#[derive(Debug, Clone)]
pub struct ModelLimit {
    pub id: String,
    pub model: Option<String>,
    pub display_name: Option<String>,
    pub plan_type: Option<String>,
    pub windows: Vec<LimitWindowStatus>,
    pub credits: Option<CreditsStatus>,
    pub raw: Option<JsonValue>,
}

pub struct LimitView {
    pub id: Seq<char>,
    pub model: Option<Seq<char>>,
    pub display_name: Option<Seq<char>>,
    pub plan_type: Option<Seq<char>>,
    pub windows: Seq<WindowView>,
    pub credits: Option<CreditsView>,
    pub raw: Option<JsonView>,
}

pub open spec fn opt_credits(o: Option<CreditsStatus>) -> Option<CreditsView> {
    match o {
        Some(c) => Some(c@),
        None => None,
    }
}

impl View for ModelLimit {
    type V = LimitView;

    open spec fn view(&self) -> LimitView {
        LimitView {
            id: self.id@,
            model: opt_text(self.model),
            display_name: opt_text(self.display_name),
            plan_type: opt_text(self.plan_type),
            windows: self.windows@.map_values(|w: LimitWindowStatus| w@),
            credits: opt_credits(self.credits),
            raw: opt_json(self.raw),
        }
    }
}

/// What is known of one provider.
#[derive(Debug, Clone)]
pub struct ProviderStatus {
    pub name: String,
    pub status: String,
    pub cli_version: Option<String>,
    pub account: Option<String>,
    pub plan_type: Option<String>,
    pub tier: Option<String>,
    pub paid_tier: Option<String>,
    pub limits: Vec<ModelLimit>,
    pub credits: Option<CreditsStatus>,
    pub usage: Option<JsonValue>,
    pub source: Option<String>,
    pub error: Option<String>,
}

pub struct ProviderView {
    pub name: Seq<char>,
    pub status: Seq<char>,
    pub cli_version: Option<Seq<char>>,
    pub account: Option<Seq<char>>,
    pub plan_type: Option<Seq<char>>,
    pub tier: Option<Seq<char>>,
    pub paid_tier: Option<Seq<char>>,
    pub limits: Seq<LimitView>,
    pub credits: Option<CreditsView>,
    pub usage: Option<JsonView>,
    pub source: Option<Seq<char>>,
    pub error: Option<Seq<char>>,
}

pub open spec fn limit_views(s: Seq<ModelLimit>) -> Seq<LimitView> {
    s.map_values(|l: ModelLimit| l@)
}

impl View for ProviderStatus {
    type V = ProviderView;

    open spec fn view(&self) -> ProviderView {
        ProviderView {
            name: self.name@,
            status: self.status@,
            cli_version: opt_text(self.cli_version),
            account: opt_text(self.account),
            plan_type: opt_text(self.plan_type),
            tier: opt_text(self.tier),
            paid_tier: opt_text(self.paid_tier),
            limits: limit_views(self.limits@),
            credits: opt_credits(self.credits),
            usage: opt_json(self.usage),
            source: opt_text(self.source),
            error: opt_text(self.error),
        }
    }
}

/// The report that the tool prints.
#[derive(Debug, Clone)]
pub struct Report {
    pub generated_at: String,
    pub codex: Option<ProviderStatus>,
    pub gemini: Option<ProviderStatus>,
}

pub struct ReportView {
    pub generated_at: Seq<char>,
    pub codex: Option<ProviderView>,
    pub gemini: Option<ProviderView>,
}

pub open spec fn opt_provider(o: Option<ProviderStatus>) -> Option<ProviderView> {
    match o {
        Some(p) => Some(p@),
        None => None,
    }
}

impl View for Report {
    type V = ReportView;

    open spec fn view(&self) -> ReportView {
        ReportView {
            generated_at: self.generated_at@,
            codex: opt_provider(self.codex),
            gemini: opt_provider(self.gemini),
        }
    }
}

/// Which providers and models to report. Each entry may hold several
/// comma-separated terms.
#[derive(Debug, Default)]
pub struct ReportFilters {
    pub providers: Vec<String>,
    pub models: Vec<String>,
}

/// A copy of `v`, entry by entry.
fn copy_texts(v: &Vec<String>) -> (r: Vec<String>)
    ensures
        texts(r@) == texts(v@),
{
    let mut r: Vec<String> = Vec::new();
    let mut i: usize = 0;
    while i < v.len()
        invariant
            i <= v.len(),
            r@.len() == i,
            forall|j: int| 0 <= j < i ==> r@[j]@ == v@[j]@,
        decreases v.len() - i,
    {
        let s = v[i].clone();
        r.push(s);
        i = i + 1;
    }
    assert(texts(r@) =~= texts(v@));
    r
}

impl Clone for ReportFilters {
    fn clone(&self) -> (r: Self)
        ensures
            texts(r.providers@) == texts(self.providers@),
            texts(r.models@) == texts(self.models@),
    {
        ReportFilters { providers: copy_texts(&self.providers), models: copy_texts(&self.models) }
    }
}

/// How to collect a report.
#[derive(Debug)]
pub struct CollectOptions {
    pub timeout: std::time::Duration,
    pub filters: ReportFilters,
}

impl Clone for CollectOptions {
    fn clone(&self) -> (r: Self)
        ensures
            r.timeout == self.timeout,
            texts(r.filters.providers@) == texts(self.filters.providers@),
            texts(r.filters.models@) == texts(self.filters.models@),
    {
        CollectOptions { timeout: self.timeout, filters: self.filters.clone() }
    }
}

/// The duration of `secs` whole seconds.
pub uninterp spec fn secs_duration(secs: int) -> std::time::Duration;

/// `Duration::from_secs`: claimed to give the duration of `secs` whole
/// seconds, named `secs_duration(secs)`, which depends on `secs` alone. The
/// call never panics.
#[verifier::external_body]
fn duration_from_secs(secs: u64) -> (r: std::time::Duration)
    ensures
        r == secs_duration(secs as int),
{
    std::time::Duration::from_secs(secs)
}

impl Default for CollectOptions {
    /// A 30 second timeout per provider, and no filter.
    fn default() -> (r: Self)
        ensures
            r.timeout == secs_duration(30),
            r.filters.providers@.len() == 0,
            r.filters.models@.len() == 0,
    {
        CollectOptions {
            timeout: duration_from_secs(30),
            filters: ReportFilters { providers: Vec::new(), models: Vec::new() },
        }
    }
}

} // verus!
