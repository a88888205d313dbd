use vstd::prelude::*;
use crate::text::owned as lit;
use crate::json::{
    get, get_array, get_str, json_get, json_get_str, lemma_view_items, lemma_view_members,
    view_items, view_members, JsonValue, JsonView,
};
use crate::model::{
    limit_views, opt_text, CreditsView, LimitView, ModelLimit, ProviderStatus, ProviderView,
};
use crate::normalize::{
    codex_limit, codex_limit_from_value, credits_at, credits_from_value_opt, gemini_credits,
    gemini_credits_from_available, gemini_limit, gemini_limit_from_bucket, normalize_codex_usage,
    usage_summary,
};
use crate::order::{sort_by_id, sort_limits_by_id};

verus! {

/// The rate-limit descriptions of a Codex reply: the members of
/// `rateLimitsByLimitId` where that is an object, else the single
/// `rateLimits`, else none.
pub open spec fn codex_entries(r: JsonView) -> Seq<JsonView> {
    match get(r, "rateLimitsByLimitId"@) {
        Some(JsonView::Object(ms)) => ms.map_values(|e: (Seq<char>, JsonView)| e.1),
        _ => match get(r, "rateLimits"@) {
            Some(v) => seq![v],
            None => Seq::empty(),
        },
    }
}

/// The account-wide part of a Codex reply.
pub open spec fn codex_main(r: JsonView) -> JsonView {
    match get(r, "rateLimits"@) {
        Some(v) => v,
        None => JsonView::Null,
    }
}

/// The limits of a Codex reply, ordered by id.
pub open spec fn codex_limits(r: JsonView, now: int) -> Seq<LimitView> {
    sort_by_id(codex_entries(r).map_values(|v: JsonView| codex_limit(v, now)))
}

/// The status of Codex built from its two replies.
pub open spec fn codex_status(
    rate_limits: JsonView,
    usage: JsonView,
    now: int,
    cli_version: Option<Seq<char>>,
    account: Option<Seq<char>>,
) -> ProviderView {
    let main = codex_main(rate_limits);
    ProviderView {
        name: "Codex"@,
        status: "ok"@,
        cli_version: cli_version,
        account: account,
        plan_type: get_str(main, "planType"@),
        tier: None,
        paid_tier: None,
        limits: codex_limits(rate_limits, now),
        credits: credits_at(main, "credits"@),
        usage: Some(usage_summary(usage)),
        source: Some("codex app-server account/rateLimits/read"@),
        error: None,
    }
}

fn codex_limits_exec(rate_limits: &JsonValue, now_ms: i64) -> (r: Vec<ModelLimit>)
    ensures
        limit_views(r@) == codex_limits(rate_limits@, now_ms as int),
{
    let mut limits: Vec<ModelLimit> = Vec::new();
    let ghost entries = codex_entries(rate_limits@);
    match json_get(rate_limits, "rateLimitsByLimitId") {
        Some(JsonValue::Object(members)) => {
            proof {
                lemma_view_members(members@);
            }
            let ghost ms = view_members(members@);
            assert(entries == ms.map_values(|e: (Seq<char>, JsonView)| e.1));
            let mut i: usize = 0;
            while i < members.len()
                invariant
                    i <= members@.len(),
                    ms == view_members(members@),
                    ms.len() == members@.len(),
                    forall|j: int|
                        0 <= j < members@.len() ==> #[trigger] ms[j] == (
                            members@[j].0@,
                            members@[j].1@,
                        ),
                    entries == ms.map_values(|e: (Seq<char>, JsonView)| e.1),
                    limit_views(limits@) == entries.take(i as int).map_values(
                        |v: JsonView| codex_limit(v, now_ms as int),
                    ),
                decreases members@.len() - i,
            {
                let l = codex_limit_from_value(&members[i].1, now_ms);
                let ghost before = limits@;
                let ghost lv = l@;
                limits.push(l);
                assert(entries[i as int] == members@[i as int].1@);
                assert(limit_views(limits@) =~= limit_views(before).push(lv));
                assert(entries.take(i + 1) =~= entries.take(i as int).push(entries[i as int]));
                assert(limit_views(limits@) =~= entries.take(i + 1).map_values(
                    |v: JsonView| codex_limit(v, now_ms as int),
                ));
                i = i + 1;
            }
            assert(entries.take(members@.len() as int) =~= entries);
        },
        _ => {
            match json_get(rate_limits, "rateLimits") {
                Some(v) => {
                    let l = codex_limit_from_value(v, now_ms);
                    limits.push(l);
                    assert(limit_views(limits@) =~= entries.map_values(
                        |v: JsonView| codex_limit(v, now_ms as int),
                    ));
                },
                None => {
                    assert(limit_views(limits@) =~= entries.map_values(
                        |v: JsonView| codex_limit(v, now_ms as int),
                    ));
                },
            }
        },
    }
    sort_limits_by_id(limits)
}

/// The status of Codex from its rate-limit and usage replies.
pub fn codex_status_from_replies(
    rate_limits: &JsonValue,
    usage: &JsonValue,
    now_ms: i64,
    cli_version: Option<String>,
    account: Option<String>,
) -> (r: ProviderStatus)
    ensures
        r@ == codex_status(
            rate_limits@,
            usage@,
            now_ms as int,
            opt_text(cli_version),
            opt_text(account),
        ),
{
    let limits = codex_limits_exec(rate_limits, now_ms);
    let (plan_type, credits) = match json_get(rate_limits, "rateLimits") {
        Some(main) => (json_get_str(main, "planType"), match json_get(main, "credits") {
            Some(c) => credits_from_value_opt(c),
            None => None,
        }),
        None => (None, None),
    };
    let usage = normalize_codex_usage(usage);
    ProviderStatus {
        name: lit("Codex"),
        status: lit("ok"),
        cli_version: cli_version,
        account: account,
        plan_type: plan_type,
        tier: None,
        paid_tier: None,
        limits: limits,
        credits: credits,
        usage: Some(usage),
        source: Some(lit("codex app-server account/rateLimits/read")),
        error: None,
    }
}

/// The quota buckets of a Gemini quota reply.
pub open spec fn gemini_buckets(q: JsonView) -> Seq<JsonView> {
    match get_array(q, "buckets"@) {
        Some(b) => b,
        None => Seq::empty(),
    }
}

/// The `name` of an object member of the reply.
pub open spec fn name_of(load: JsonView, key: Seq<char>) -> Option<Seq<char>> {
    match get(load, key) {
        Some(t) => get_str(t, "name"@),
        None => None,
    }
}

pub open spec fn gemini_credits_of(load: JsonView) -> Option<CreditsView> {
    match get(load, "paidTier"@) {
        Some(t) => match get_array(t, "availableCredits"@) {
            Some(items) => Some(gemini_credits(items)),
            None => None,
        },
        None => None,
    }
}

/// The status of Gemini built from its two replies.
pub open spec fn gemini_status(
    load: JsonView,
    quota: JsonView,
    now: int,
    cli_version: Option<Seq<char>>,
    account: Option<Seq<char>>,
) -> ProviderView {
    ProviderView {
        name: "Gemini"@,
        status: "ok"@,
        cli_version: cli_version,
        account: account,
        plan_type: None,
        tier: name_of(load, "currentTier"@),
        paid_tier: name_of(load, "paidTier"@),
        limits: sort_by_id(gemini_buckets(quota).map_values(|b: JsonView| gemini_limit(b, now))),
        credits: gemini_credits_of(load),
        usage: None,
        source: Some("Gemini Code Assist loadCodeAssist/retrieveUserQuota"@),
        error: None,
    }
}

fn name_of_exec(load: &JsonValue, key: &str) -> (r: Option<String>)
    ensures
        opt_text(r) == name_of(load@, key@),
{
    match json_get(load, key) {
        Some(t) => json_get_str(t, "name"),
        None => None,
    }
}

fn gemini_limits_exec(quota: &JsonValue, now_ms: i64) -> (r: Vec<ModelLimit>)
    ensures
        limit_views(r@) == sort_by_id(
            gemini_buckets(quota@).map_values(|b: JsonView| gemini_limit(b, now_ms as int)),
        ),
{
    let mut limits: Vec<ModelLimit> = Vec::new();
    let ghost bs = gemini_buckets(quota@);
    match json_get(quota, "buckets") {
        Some(JsonValue::Array(items)) => {
            proof {
                lemma_view_items(items@);
            }
            assert(bs == view_items(items@));
            let mut i: usize = 0;
            while i < items.len()
                invariant
                    i <= items@.len(),
                    bs == view_items(items@),
                    bs.len() == items@.len(),
                    forall|j: int| 0 <= j < items@.len() ==> #[trigger] bs[j] == items@[j]@,
                    limit_views(limits@) == bs.take(i as int).map_values(
                        |b: JsonView| gemini_limit(b, now_ms as int),
                    ),
                decreases items@.len() - i,
            {
                let l = gemini_limit_from_bucket(&items[i], now_ms);
                let ghost before = limits@;
                let ghost lv = l@;
                limits.push(l);
                assert(limit_views(limits@) =~= limit_views(before).push(lv));
                assert(bs.take(i + 1) =~= bs.take(i as int).push(bs[i as int]));
                assert(limit_views(limits@) =~= bs.take(i + 1).map_values(
                    |b: JsonView| gemini_limit(b, now_ms as int),
                ));
                i = i + 1;
            }
            assert(bs.take(items@.len() as int) =~= bs);
        },
        _ => {
            assert(limit_views(limits@) =~= bs.map_values(
                |b: JsonView| gemini_limit(b, now_ms as int),
            ));
        },
    }
    sort_limits_by_id(limits)
}

/// The status of Gemini from its `loadCodeAssist` and `retrieveUserQuota`
/// replies.
pub fn gemini_status_from_replies(
    load: &JsonValue,
    quota: &JsonValue,
    now_ms: i64,
    cli_version: Option<String>,
    account: Option<String>,
) -> (r: ProviderStatus)
    ensures
        r@ == gemini_status(load@, quota@, now_ms as int, opt_text(cli_version), opt_text(account)),
{
    let limits = gemini_limits_exec(quota, now_ms);
    let tier = name_of_exec(load, "currentTier");
    let paid_tier = name_of_exec(load, "paidTier");
    let credits = match json_get(load, "paidTier") {
        Some(t) => match json_get(t, "availableCredits") {
            Some(JsonValue::Array(items)) => Some(gemini_credits_from_available(items)),
            _ => None,
        },
        None => None,
    };
    ProviderStatus {
        name: lit("Gemini"),
        status: lit("ok"),
        cli_version: cli_version,
        account: account,
        plan_type: None,
        tier: tier,
        paid_tier: paid_tier,
        limits: limits,
        credits: credits,
        usage: None,
        source: Some(lit("Gemini Code Assist loadCodeAssist/retrieveUserQuota")),
        error: None,
    }
}

/// The status of a provider whose collection failed.
pub open spec fn error_status(
    name: Seq<char>,
    cli_version: Option<Seq<char>>,
    error: Seq<char>,
) -> ProviderView {
    ProviderView {
        name: name,
        status: "error"@,
        cli_version: cli_version,
        account: None,
        plan_type: None,
        tier: None,
        paid_tier: None,
        limits: Seq::empty(),
        credits: None,
        usage: None,
        source: None,
        error: Some(error),
    }
}

/// The status of a provider whose collection failed with `error`.
pub fn provider_error_status(name: &str, cli_version: Option<String>, error: String) -> (r:
    ProviderStatus)
    ensures
        r@ == error_status(name@, opt_text(cli_version), error@),
{
    let r = ProviderStatus {
        name: lit(name),
        status: lit("error"),
        cli_version: cli_version,
        account: None,
        plan_type: None,
        tier: None,
        paid_tier: None,
        limits: Vec::new(),
        credits: None,
        usage: None,
        source: None,
        error: Some(error),
    };
    assert(r@.limits =~= Seq::<LimitView>::empty());
    r
}


/// The account of a Codex login file: `tokens.account_id`, where that is a
/// string.
pub open spec fn codex_account_of(auth: JsonView) -> Option<Seq<char>> {
    match get(auth, "tokens"@) {
        Some(tokens) => get_str(tokens, "account_id"@),
        None => None,
    }
}

/// The account that a Codex login file names.
pub fn codex_account_id(auth: &JsonValue) -> (r: Option<String>)
    ensures
        opt_text(r) == codex_account_of(auth@),
{
    match json_get(auth, "tokens") {
        Some(tokens) => json_get_str(tokens, "account_id"),
        None => None,
    }
}

/// The active account of a Gemini accounts file: its `active` member, where
/// that is a string.
pub fn gemini_active_account(accounts: &JsonValue) -> (r: Option<String>)
    ensures
        opt_text(r) == get_str(accounts@, "active"@),
{
    json_get_str(accounts, "active")
}

} // verus!
