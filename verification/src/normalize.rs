use vstd::prelude::*;
use crate::text::owned as lit;
use crate::json::{
    get, get_array, get_bool, get_i64, get_str, json_get, json_get_bool, json_get_i64,
    json_get_str, JsonNumber, JsonValue, JsonView, NumberView,
};
use crate::model::{
    opt_text, CreditsStatus, CreditsView, LimitView, LimitWindowStatus, ModelLimit, WindowView,
};
use crate::numeric::{bounded, fit, in_bound, round_shifted, shifted_round, Rounded};
use crate::text::{ascii_lower, contains_text, parse_int, str_eq, text_contains, to_ascii_lowercase};
use crate::time::{iso_from_seconds, millis_of_rfc3339, rfc3339_millis, seconds_text};

verus! {

pub open spec fn opt_str(o: Option<&str>) -> Option<Seq<char>> {
    match o {
        Some(s) => Some(s@),
        None => None,
    }
}

/// The model a Codex limit belongs to: `Spark` when its display name or id
/// mentions spark (or its id the bengalfox pool), `Total` for the id
/// `codex`, else its display name, or its id where it has none.
pub open spec fn model_name(id: Seq<char>, display_name: Option<Seq<char>>) -> Seq<char> {
    let named_spark = match display_name {
        Some(d) => contains_text(ascii_lower(d), "spark"@),
        None => false,
    };
    if named_spark || contains_text(ascii_lower(id), "spark"@) || contains_text(
        ascii_lower(id),
        "bengalfox"@,
    ) {
        "Spark"@
    } else if id == "codex"@ {
        "Total"@
    } else {
        match display_name {
            Some(d) => d,
            None => id,
        }
    }
}

/// The kind of a Codex window: `5-hour` for 300 minutes, `weekly` for 10080
/// minutes, else the given kind.
pub open spec fn window_label(kind: Seq<char>, window_minutes: Option<int>) -> Seq<char> {
    match window_minutes {
        Some(m) => if m == 300 {
            "5-hour"@
        } else if m == 10080 {
            "weekly"@
        } else {
            kind
        },
        None => kind,
    }
}

/// The label of a Codex window: a Portuguese phrase for the two known
/// kinds, prefixed with the model's display name (or model) except for the
/// total pool.
pub open spec fn usage_label(model: Seq<char>, display_name: Option<Seq<char>>, kind: Seq<char>) -> Seq<
    char,
> {
    let suffix = if kind == "5-hour"@ {
        "Limite de uso de 5 horas"@
    } else if kind == "weekly"@ {
        "Limite de uso semanal"@
    } else {
        kind
    };
    if model == "Total"@ {
        suffix
    } else {
        let prefix = match display_name {
            Some(d) => d,
            None => model,
        };
        prefix + " "@ + suffix
    }
}

/// The number that an optional value holds, if any.
pub open spec fn number_of(v: Option<JsonView>) -> Option<NumberView> {
    match v {
        Some(JsonView::Number(n)) => Some(n),
        _ => None,
    }
}

/// A used percentage as Codex reports it, rounded to five decimals.
pub open spec fn codex_used(n: Option<NumberView>) -> Option<int> {
    match n {
        Some(n) => bounded(shifted_round(0, false, n, 5)),
        None => None,
    }
}

/// What remains of 100 percent after the rounded used percentage, never
/// below zero: zero for a use of 100 percent or more, however large.
pub open spec fn codex_remaining(n: Option<NumberView>) -> Option<int> {
    match n {
        Some(n) => {
            let u = shifted_round(0, false, n, 5);
            if u >= 10000000 {
                Some(0)
            } else if in_bound(u) {
                Some(10000000 - u)
            } else {
                None
            }
        },
        None => None,
    }
}

pub open spec fn max0(v: int) -> int {
    if v > 0 {
        v
    } else {
        0
    }
}

/// Milliseconds from `now` until the epoch second `reset`, never below zero.
pub open spec fn millis_until(reset_seconds: Option<int>, now: int) -> Option<int> {
    match reset_seconds {
        Some(s) => fit(max0(s * 1000 - now)),
        None => None,
    }
}

pub open spec fn reset_text(reset_seconds: Option<int>) -> Option<Seq<char>> {
    match reset_seconds {
        Some(s) => Some(seconds_text(s)),
        None => None,
    }
}

/// One Codex usage window from its JSON description.
pub open spec fn codex_window(
    kind: Seq<char>,
    v: JsonView,
    now: int,
    model: Seq<char>,
    display_name: Option<Seq<char>>,
) -> WindowView {
    let n = number_of(get(v, "usedPercent"@));
    let resets = get_i64(v, "resetsAt"@);
    let minutes = get_i64(v, "windowDurationMins"@);
    let kind = window_label(kind, minutes);
    WindowView {
        kind: kind,
        label: Some(usage_label(model, display_name, kind)),
        used_percent: codex_used(n),
        remaining_percent: codex_remaining(n),
        remaining_amount: None,
        window_minutes: minutes,
        resets_at: reset_text(resets),
        milliseconds_until_reset: millis_until(resets, now),
    }
}

/// Credit fields of a JSON object.
pub open spec fn credits_of(v: JsonView) -> CreditsView {
    CreditsView {
        has_credits: get_bool(v, "hasCredits"@),
        unlimited: get_bool(v, "unlimited"@),
        balance: get_str(v, "balance"@),
    }
}

/// Credits of an object that reports at least one credit field.
pub open spec fn credits_opt(v: JsonView) -> Option<CreditsView> {
    match v {
        JsonView::Object(_) => {
            let c = credits_of(v);
            if c.has_credits is Some || c.unlimited is Some || c.balance is Some {
                Some(c)
            } else {
                None
            }
        },
        _ => None,
    }
}

pub open spec fn credits_at(v: JsonView, key: Seq<char>) -> Option<CreditsView> {
    match get(v, key) {
        Some(c) => credits_opt(c),
        None => None,
    }
}

/// The id of a Codex limit: its `limitId`, else `codex`.
pub open spec fn codex_id(v: JsonView) -> Seq<char> {
    match get_str(v, "limitId"@) {
        Some(s) => s,
        None => "codex"@,
    }
}

pub open spec fn codex_display(v: JsonView) -> Option<Seq<char>> {
    match get_str(v, "limitName"@) {
        Some(d) => Some(d),
        None => Some(model_name(codex_id(v), None)),
    }
}

pub open spec fn codex_window_at(
    v: JsonView,
    key: Seq<char>,
    kind: Seq<char>,
    now: int,
) -> Seq<WindowView> {
    let model = model_name(codex_id(v), get_str(v, "limitName"@));
    match get(v, key) {
        Some(w) => seq![codex_window(kind, w, now, model, codex_display(v))],
        None => Seq::empty(),
    }
}

/// A Codex rate limit from its JSON description: its primary, then its
/// secondary window, where present.
pub open spec fn codex_limit(v: JsonView, now: int) -> LimitView {
    let id = codex_id(v);
    LimitView {
        id: id,
        model: Some(model_name(id, get_str(v, "limitName"@))),
        display_name: codex_display(v),
        plan_type: get_str(v, "planType"@),
        windows: codex_window_at(v, "primary"@, "primary"@, now) + codex_window_at(
            v,
            "secondary"@,
            "secondary"@,
            now,
        ),
        credits: credits_at(v, "credits"@),
        raw: None,
    }
}

/// The amount left of a Gemini quota, as a decimal text.
pub open spec fn amount_of(v: JsonView) -> Option<int> {
    match get_str(v, "remainingAmount"@) {
        Some(t) => parse_int(t, true, i64::MIN as int, i64::MAX as int),
        None => None,
    }
}

/// Used percentage for a remaining fraction: 100 minus the fraction in
/// percent, rounded to five decimals, never below zero (zero for a fraction
/// of one or more, however large).
pub open spec fn gemini_used(f: Option<NumberView>) -> Option<int> {
    match f {
        Some(n) => {
            let u = shifted_round(10000000, true, n, 7);
            if u <= 0 {
                Some(0)
            } else {
                bounded(u)
            }
        },
        None => None,
    }
}

/// Remaining percentage for a remaining fraction, rounded to five decimals.
pub open spec fn gemini_remaining(f: Option<NumberView>) -> Option<int> {
    match f {
        Some(n) => bounded(shifted_round(0, false, n, 7)),
        None => None,
    }
}

pub open spec fn gemini_id(v: JsonView) -> Seq<char> {
    match get_str(v, "modelId"@) {
        Some(s) => s,
        None => "unknown"@,
    }
}

pub open spec fn millis_until_instant(reset: Option<int>, now: int) -> Option<int> {
    match reset {
        Some(r) => fit(max0(r - now)),
        None => None,
    }
}

pub open spec fn reset_millis(reset_time: Option<Seq<char>>) -> Option<int> {
    match reset_time {
        Some(t) => millis_of_rfc3339(t),
        None => None,
    }
}

/// A Gemini quota bucket: one `quota` window for its model.
pub open spec fn gemini_limit(v: JsonView, now: int) -> LimitView {
    let id = gemini_id(v);
    let f = number_of(get(v, "remainingFraction"@));
    let reset_time = get_str(v, "resetTime"@);
    LimitView {
        id: id,
        model: Some(id),
        display_name: None,
        plan_type: None,
        windows: seq![
            WindowView {
                kind: "quota"@,
                label: Some(id + " quota"@),
                used_percent: gemini_used(f),
                remaining_percent: gemini_remaining(f),
                remaining_amount: amount_of(v),
                window_minutes: None,
                resets_at: reset_time,
                milliseconds_until_reset: millis_until_instant(reset_millis(reset_time), now),
            },
        ],
        credits: None,
        raw: None,
    }
}

fn opt_string_ref(o: &Option<String>) -> (r: Option<&str>)
    ensures
        opt_str(r) == opt_text(*o),
{
    match o {
        Some(s) => Some(s.as_str()),
        None => None,
    }
}

/// The model name of a Codex limit.
pub fn codex_model_name(id: &str, display_name: Option<&str>) -> (r: String)
    ensures
        r@ == model_name(id@, opt_str(display_name)),
{
    let named_spark = match display_name {
        Some(d) => {
            let l = to_ascii_lowercase(d);
            text_contains(l.as_str(), "spark")
        },
        None => false,
    };
    let lid = to_ascii_lowercase(id);
    if named_spark || text_contains(lid.as_str(), "spark") || text_contains(
        lid.as_str(),
        "bengalfox",
    ) {
        lit("Spark")
    } else if str_eq(id, "codex") {
        lit("Total")
    } else {
        match display_name {
            Some(d) => lit(d),
            None => lit(id),
        }
    }
}

/// The kind of a Codex window.
pub fn codex_window_label(kind: &str, window_minutes: Option<i64>) -> (r: String)
    ensures
        r@ == window_label(kind@, crate::model::opt_int(window_minutes)),
{
    match window_minutes {
        Some(300) => lit("5-hour"),
        Some(10080) => lit("weekly"),
        _ => lit(kind),
    }
}

/// The label of a Codex window.
pub fn codex_usage_limit_label(model: &str, display_name: Option<&str>, kind: &str) -> (r: String)
    ensures
        r@ == usage_label(model@, opt_str(display_name), kind@),
{
    let suffix = if str_eq(kind, "5-hour") {
        lit("Limite de uso de 5 horas")
    } else if str_eq(kind, "weekly") {
        lit("Limite de uso semanal")
    } else {
        lit(kind)
    };
    if str_eq(model, "Total") {
        suffix
    } else {
        let mut out = match display_name {
            Some(d) => lit(d),
            None => lit(model),
        };
        out.append(" ");
        out.append(suffix.as_str());
        out
    }
}

fn number_at<'a>(v: &'a JsonValue, key: &str) -> (r: Option<&'a JsonNumber>)
    ensures
        match r {
            Some(n) => number_of(get(v@, key@)) == Some(n@),
            None => number_of(get(v@, key@)) is None,
        },
{
    match json_get(v, key) {
        Some(JsonValue::Number(n)) => Some(n),
        _ => None,
    }
}

fn remaining_exec(used: Option<&JsonNumber>) -> (r: Option<i128>)
    ensures
        crate::model::opt_wide(r) == codex_remaining(match used {
            Some(n) => Some(n@),
            None => None,
        }),
{
    match used {
        Some(n) => match round_shifted(0, false, n, 5) {
            Rounded::Exact(u) => Some(if u >= 10000000 { 0 } else { 10000000 - u }),
            Rounded::Above => Some(0),
            Rounded::Below => None,
        },
        None => None,
    }
}

fn used_exec(used: Option<&JsonNumber>) -> (r: Option<i128>)
    ensures
        crate::model::opt_wide(r) == codex_used(match used {
            Some(n) => Some(n@),
            None => None,
        }),
{
    match used {
        Some(n) => match round_shifted(0, false, n, 5) {
            Rounded::Exact(u) => Some(u),
            _ => None,
        },
        None => None,
    }
}

fn millis_until_exec(reset_seconds: Option<i64>, now: i64) -> (r: Option<i64>)
    ensures
        crate::model::opt_int(r) == millis_until(crate::model::opt_int(reset_seconds), now as int),
{
    match reset_seconds {
        Some(s) => {
            let d: i128 = (s as i128) * 1000 - (now as i128);
            let v: i128 = if d > 0 { d } else { 0 };
            if v <= 9223372036854775807i128 {
                Some(v as i64)
            } else {
                None
            }
        },
        None => None,
    }
}

/// One Codex usage window.
pub fn codex_window_from_value(
    kind: &str,
    value: &JsonValue,
    now_ms: i64,
    model: &str,
    display_name: Option<&str>,
) -> (r: LimitWindowStatus)
    ensures
        r@ == codex_window(kind@, value@, now_ms as int, model@, opt_str(display_name)),
{
    let number = number_at(value, "usedPercent");
    let used = used_exec(number);
    let resets = json_get_i64(value, "resetsAt");
    let minutes = json_get_i64(value, "windowDurationMins");
    let kind = codex_window_label(kind, minutes);
    let label = codex_usage_limit_label(model, display_name, kind.as_str());
    let resets_at = match resets {
        Some(s) => Some(iso_from_seconds(s)),
        None => None,
    };
    let remaining = remaining_exec(number);
    let until = millis_until_exec(resets, now_ms);
    let r = LimitWindowStatus {
        kind: kind,
        label: Some(label),
        used_percent: used,
        remaining_percent: remaining,
        remaining_amount: None,
        window_minutes: minutes,
        resets_at: resets_at,
        milliseconds_until_reset: until,
    };
    assert(r@.used_percent == codex_used(number_of(get(value@, "usedPercent"@))));
    r
}

/// Credit fields of a JSON value.
pub fn credits_from_value(value: &JsonValue) -> (r: CreditsStatus)
    ensures
        r@ == credits_of(value@),
{
    CreditsStatus {
        has_credits: json_get_bool(value, "hasCredits"),
        unlimited: json_get_bool(value, "unlimited"),
        balance: json_get_str(value, "balance"),
    }
}

/// Credits of an object that reports at least one credit field.
pub fn credits_from_value_opt(value: &JsonValue) -> (r: Option<CreditsStatus>)
    ensures
        crate::model::opt_credits(r) == credits_opt(value@),
{
    match value {
        JsonValue::Object(_) => {
            let credits = credits_from_value(value);
            if credits.has_credits.is_some() || credits.unlimited.is_some()
                || credits.balance.is_some() {
                Some(credits)
            } else {
                None
            }
        },
        _ => None,
    }
}

fn credits_at_exec(value: &JsonValue, key: &str) -> (r: Option<CreditsStatus>)
    ensures
        crate::model::opt_credits(r) == credits_at(value@, key@),
{
    match json_get(value, key) {
        Some(c) => credits_from_value_opt(c),
        None => None,
    }
}

fn window_at(
    value: &JsonValue,
    key: &str,
    kind: &str,
    now_ms: i64,
    model: &str,
    display_name: Option<&str>,
    windows: &mut Vec<LimitWindowStatus>,
)
    requires
        model@ == model_name(codex_id(value@), get_str(value@, "limitName"@)),
        opt_str(display_name) == codex_display(value@),
    ensures
        final(windows)@.map_values(|w: LimitWindowStatus| w@) == old(windows)@.map_values(
            |w: LimitWindowStatus| w@,
        ) + codex_window_at(value@, key@, kind@, now_ms as int),
{
    match json_get(value, key) {
        Some(w) => {
            let ghost before = windows@;
            let window = codex_window_from_value(kind, w, now_ms, model, display_name);
            windows.push(window);
            assert(windows@.map_values(|w: LimitWindowStatus| w@) =~= before.map_values(
                |w: LimitWindowStatus| w@,
            ) + codex_window_at(value@, key@, kind@, now_ms as int));
        },
        None => {
            assert(windows@.map_values(|w: LimitWindowStatus| w@) =~= windows@.map_values(
                |w: LimitWindowStatus| w@,
            ) + codex_window_at(value@, key@, kind@, now_ms as int));
        },
    }
}

/// A Codex rate limit from its JSON description.
pub fn codex_limit_from_value(value: &JsonValue, now_ms: i64) -> (r: ModelLimit)
    ensures
        r@ == codex_limit(value@, now_ms as int),
{
    let id = match json_get_str(value, "limitId") {
        Some(s) => s,
        None => lit("codex"),
    };
    let raw_display_name = json_get_str(value, "limitName");
    let model = codex_model_name(id.as_str(), opt_string_ref(&raw_display_name));
    let display_name = match raw_display_name {
        Some(d) => Some(d),
        None => Some(lit(model.as_str())),
    };
    let plan_type = json_get_str(value, "planType");
    let mut windows: Vec<LimitWindowStatus> = Vec::new();
    let dn = opt_string_ref(&display_name);
    proof {
        reveal_strlit("primary");
        reveal_strlit("secondary");
    }
    window_at(value, "primary", "primary", now_ms, model.as_str(), dn, &mut windows);
    window_at(value, "secondary", "secondary", now_ms, model.as_str(), dn, &mut windows);
    let credits = credits_at_exec(value, "credits");
    let r = ModelLimit {
        id: id,
        model: Some(model),
        display_name: display_name,
        plan_type: plan_type,
        windows: windows,
        credits: credits,
        raw: None,
    };
    assert(r@.windows =~= codex_limit(value@, now_ms as int).windows);
    r
}

/// A Codex rate limit in the report's form, as `--json` shows it.
pub fn normalize_codex_rate_limit(value: &JsonValue, now_ms: i64) -> (r: ModelLimit)
    ensures
        r@ == codex_limit(value@, now_ms as int),
{
    codex_limit_from_value(value, now_ms)
}

fn gemini_used_exec(f: Option<&JsonNumber>) -> (r: Option<i128>)
    ensures
        crate::model::opt_wide(r) == gemini_used(match f {
            Some(n) => Some(n@),
            None => None,
        }),
{
    match f {
        Some(n) => match round_shifted(10000000, true, n, 7) {
            Rounded::Exact(u) => Some(if u > 0 { u } else { 0 }),
            Rounded::Below => Some(0),
            Rounded::Above => None,
        },
        None => None,
    }
}

fn gemini_remaining_exec(f: Option<&JsonNumber>) -> (r: Option<i128>)
    ensures
        crate::model::opt_wide(r) == gemini_remaining(match f {
            Some(n) => Some(n@),
            None => None,
        }),
{
    match f {
        Some(n) => match round_shifted(0, false, n, 7) {
            Rounded::Exact(u) => Some(u),
            _ => None,
        },
        None => None,
    }
}

fn millis_until_instant_exec(reset: Option<i64>, now: i64) -> (r: Option<i64>)
    ensures
        crate::model::opt_int(r) == millis_until_instant(crate::model::opt_int(reset), now as int),
{
    match reset {
        Some(t) => {
            let d: i128 = (t as i128) - (now as i128);
            let v: i128 = if d > 0 { d } else { 0 };
            if v <= 9223372036854775807i128 {
                Some(v as i64)
            } else {
                None
            }
        },
        None => None,
    }
}

/// A Gemini quota bucket in the report's form.
pub fn gemini_limit_from_bucket(value: &JsonValue, now_ms: i64) -> (r: ModelLimit)
    ensures
        r@ == gemini_limit(value@, now_ms as int),
{
    let model_id = match json_get_str(value, "modelId") {
        Some(s) => s,
        None => lit("unknown"),
    };
    let fraction = number_at(value, "remainingFraction");
    let remaining_amount = match json_get_str(value, "remainingAmount") {
        Some(t) => crate::text::parse_i64(t.as_str()),
        None => None,
    };
    let reset_time = json_get_str(value, "resetTime");
    let reset_ms = match &reset_time {
        Some(t) => rfc3339_millis(t.as_str()),
        None => None,
    };
    let mut label = lit(model_id.as_str());
    label.append(" quota");
    let window = LimitWindowStatus {
        kind: lit("quota"),
        label: Some(label),
        used_percent: gemini_used_exec(fraction),
        remaining_percent: gemini_remaining_exec(fraction),
        remaining_amount: remaining_amount,
        window_minutes: None,
        resets_at: reset_time,
        milliseconds_until_reset: millis_until_instant_exec(reset_ms, now_ms),
    };
    let mut windows: Vec<LimitWindowStatus> = Vec::new();
    windows.push(window);
    let r = ModelLimit {
        id: lit(model_id.as_str()),
        model: Some(model_id),
        display_name: None,
        plan_type: None,
        windows: windows,
        credits: None,
        raw: None,
    };
    assert(r@.windows =~= gemini_limit(value@, now_ms as int).windows);
    r
}

/// A Gemini quota bucket in the report's form, as `--json` shows it.
pub fn normalize_gemini_quota_bucket(value: &JsonValue, now_ms: i64) -> (r: ModelLimit)
    ensures
        r@ == gemini_limit(value@, now_ms as int),
{
    gemini_limit_from_bucket(value, now_ms)
}

/// The credit amount of an entry of `availableCredits`, when it is a
/// decimal text that fits an `i64`.
pub open spec fn credit_amount(v: JsonView) -> Option<int> {
    match get_str(v, "creditAmount"@) {
        Some(t) => parse_int(t, true, i64::MIN as int, i64::MAX as int),
        None => None,
    }
}

/// The sum of the credit amounts of the entries.
pub open spec fn credit_total(s: Seq<JsonView>) -> int
    decreases s.len(),
{
    if s.len() == 0 {
        0
    } else {
        credit_total(s.drop_last()) + match credit_amount(s.last()) {
            Some(a) => a,
            None => 0,
        }
    }
}

pub open spec fn any_credit(s: Seq<JsonView>) -> bool {
    exists|i: int| 0 <= i < s.len() && (#[trigger] credit_amount(s[i])) is Some
}

/// Gemini credits: whether any entry has an amount, and their sum.
pub open spec fn gemini_credits(s: Seq<JsonView>) -> CreditsView {
    CreditsView {
        has_credits: Some(any_credit(s)),
        unlimited: None,
        balance: if any_credit(s) {
            Some(crate::text::int_text(credit_total(s)))
        } else {
            None
        },
    }
}

/// Gemini credits from the entries of `availableCredits`.
pub fn gemini_credits_from_available(credits: &Vec<JsonValue>) -> (r: CreditsStatus)
    ensures
        r@ == gemini_credits(crate::json::view_items(credits@)),
{
    proof {
        crate::json::lemma_view_items(credits@);
    }
    let ghost vs = crate::json::view_items(credits@);
    let mut total: i128 = 0;
    let mut has_any = false;
    let mut i: usize = 0;
    while i < credits.len()
        invariant
            i <= credits@.len(),
            vs == crate::json::view_items(credits@),
            vs.len() == credits@.len(),
            forall|j: int| 0 <= j < credits@.len() ==> #[trigger] vs[j] == credits@[j]@,
            total == credit_total(vs.take(i as int)),
            -(i as int) * 9223372036854775808 <= total <= (i as int) * 9223372036854775807,
            has_any == any_credit(vs.take(i as int)),
        decreases credits@.len() - i,
    {
        let ghost pre = vs.take(i as int);
        let ghost nxt = vs.take(i + 1);
        assert(nxt.drop_last() =~= pre);
        assert(nxt.last() == credits@[i as int]@);
        let amount = match json_get_str(&credits[i], "creditAmount") {
            Some(t) => crate::text::parse_i64(t.as_str()),
            None => None,
        };
        match amount {
            Some(a) => {
                total = total + (a as i128);
                has_any = true;
                assert(credit_amount(nxt[i as int]) is Some);
            },
            None => {
                assert forall|j: int| 0 <= j < nxt.len() && (#[trigger] credit_amount(nxt[j])) is Some implies 0 <= j < pre.len() && credit_amount(pre[j]) is Some by {
                    if j < i {
                        assert(nxt[j] == pre[j]);
                    }
                }
                assert forall|j: int| 0 <= j < pre.len() && (#[trigger] credit_amount(pre[j])) is Some implies 0 <= j < nxt.len() && credit_amount(nxt[j]) is Some by {
                    assert(nxt[j] == pre[j]);
                }
            },
        }
        if has_any && amount.is_some() {
            assert forall|j: int| 0 <= j < pre.len() && (#[trigger] credit_amount(pre[j])) is Some implies 0 <= j < nxt.len() && credit_amount(nxt[j]) is Some by {
                assert(nxt[j] == pre[j]);
            }
        }
        i = i + 1;
    }
    assert(vs.take(credits@.len() as int) =~= vs);
    let balance = if has_any {
        Some(crate::text::i128_text(total))
    } else {
        None
    };
    CreditsStatus { has_credits: Some(has_any), unlimited: None, balance: balance }
}

/// The usage summary kept of a Codex usage reply: its `summary`, the number
/// of daily buckets and the latest bucket, in key order.
pub open spec fn usage_summary(v: JsonView) -> JsonView {
    let daily = match get_array(v, "dailyUsageBuckets"@) {
        Some(b) => seq![("daily_bucket_count"@, JsonView::Number(NumberView::PosInt(b.len())))]
            + if b.len() > 0 {
            seq![("latest_daily_bucket"@, b.last())]
        } else {
            Seq::empty()
        },
        None => Seq::empty(),
    };
    let summary = match get(v, "summary"@) {
        Some(x) => seq![("summary"@, x)],
        None => Seq::empty(),
    };
    JsonView::Object(daily + summary)
}

/// The usage summary of a Codex usage reply.
pub fn normalize_codex_usage(value: &JsonValue) -> (r: JsonValue)
    ensures
        r@ == usage_summary(value@),
{
    let mut out: Vec<(String, JsonValue)> = Vec::new();
    let ghost mut exp: Seq<(Seq<char>, JsonView)> = Seq::empty();
    proof {
        crate::json::lemma_view_members(out@);
        assert(crate::json::view_members(out@) =~= exp);
    }
    match json_get(value, "dailyUsageBuckets") {
        Some(JsonValue::Array(buckets)) => {
            proof {
                crate::json::lemma_view_items(buckets@);
            }
            let n = buckets.len();
            assert(get_array(value@, "dailyUsageBuckets"@) == Some(crate::json::view_items(buckets@)));
            out.push((lit("daily_bucket_count"), JsonValue::Number(JsonNumber::PosInt(n as u64))));
            proof {
                exp = exp.push(("daily_bucket_count"@, JsonView::Number(NumberView::PosInt(n as nat))));
                crate::json::lemma_view_members(out@);
                assert(crate::json::view_members(out@) =~= exp);
            }
            if n > 0 {
                let last = crate::json::json_clone(&buckets[n - 1]);
                out.push((lit("latest_daily_bucket"), last));
                proof {
                    exp = exp.push(("latest_daily_bucket"@, crate::json::view_items(buckets@).last()));
                    crate::json::lemma_view_members(out@);
                    assert(crate::json::view_members(out@) =~= exp);
                }
            }
        },
        Some(other) => {
            assert(get_array(value@, "dailyUsageBuckets"@) is None);
        },
        None => {},
    }
    let ghost daily = exp;
    assert(daily == match get_array(value@, "dailyUsageBuckets"@) {
        Some(b) => seq![("daily_bucket_count"@, JsonView::Number(NumberView::PosInt(b.len())))]
            + if b.len() > 0 {
            seq![("latest_daily_bucket"@, b.last())]
        } else {
            Seq::empty()
        },
        None => Seq::<(Seq<char>, JsonView)>::empty(),
    });
    match json_get(value, "summary") {
        Some(x) => {
            let c = crate::json::json_clone(x);
            out.push((lit("summary"), c));
            proof {
                exp = exp.push(("summary"@, x@));
                crate::json::lemma_view_members(out@);
                assert(crate::json::view_members(out@) =~= exp);
                assert(exp =~= daily + seq![("summary"@, x@)]);
            }
        },
        None => {
            assert(exp =~= daily + Seq::<(Seq<char>, JsonView)>::empty());
        },
    }
    assert(JsonView::Object(exp) == usage_summary(value@));
    let r = JsonValue::Object(out);
    assert(r@ =~= usage_summary(value@));
    r
}

/// The percentages and waiting time of a Codex window: what remains is
/// never negative, is 100 percent minus what is used (or zero, past 100
/// percent) whenever the use is held, and is zero whenever the use is too
/// large to hold; the time until the reset is never negative.
pub proof fn codex_window_bounds(
    kind: Seq<char>,
    v: JsonView,
    now: int,
    model: Seq<char>,
    display_name: Option<Seq<char>>,
)
    ensures
        ({
            let w = codex_window(kind, v, now, model, display_name);
            &&& (w.remaining_percent matches Some(r) ==> r >= 0)
            &&& (w.used_percent matches Some(u) ==> w.remaining_percent == Some(max0(10000000 - u)))
            &&& (w.used_percent is None && w.remaining_percent is Some ==> w.remaining_percent
                == Some(0int))
            &&& (w.milliseconds_until_reset matches Some(m) ==> m >= 0)
        }),
{
}

/// The percentages and waiting time of a Gemini quota: one window, what is
/// used is never negative, and the time until the reset is never negative.
pub proof fn gemini_window_bounds(v: JsonView, now: int)
    ensures
        gemini_limit(v, now).windows.len() == 1,
        gemini_limit(v, now).windows[0].used_percent matches Some(u) ==> u >= 0,
        gemini_limit(v, now).windows[0].milliseconds_until_reset matches Some(m) ==> m >= 0,
{
}


/// The Spark pool is recognised by any of its names: a limit whose id
/// mentions `bengalfox` or `spark`, or whose display name mentions `spark`
/// (ASCII case ignored), belongs to the model `Spark`, whatever else it is
/// called.
pub proof fn spark_pool_is_named_spark(id: Seq<char>, display_name: Option<Seq<char>>)
    ensures
        contains_text(ascii_lower(id), "bengalfox"@) ==> model_name(id, display_name) == "Spark"@,
        contains_text(ascii_lower(id), "spark"@) ==> model_name(id, display_name) == "Spark"@,
        (display_name matches Some(d) && contains_text(ascii_lower(d), "spark"@)) ==> model_name(
            id,
            display_name,
        ) == "Spark"@,
{
}

/// A Codex rate limit of the bengalfox pool is reported as the model
/// `Spark`, and, when the reply gives it no name, shown as `Spark` too.
pub proof fn bengalfox_limits_are_spark(v: JsonView, now: int)
    ensures
        get_str(v, "limitId"@) matches Some(id) && contains_text(ascii_lower(id), "bengalfox"@)
            ==> codex_limit(v, now).model == Some("Spark"@) && (get_str(v, "limitName"@) is None
            ==> codex_limit(v, now).display_name == Some("Spark"@)),
{
}

} // verus!
