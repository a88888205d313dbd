use ai_limits::collect::{codex_status_from_replies, gemini_status_from_replies, provider_error_status};
use ai_limits::commands::{
    cli_command_candidates, dedupe_paths, gemini_package_candidates, is_windows_command_script,
    resolve_cli_command, semver_path_key, sorted_volta_node_dirs, version_from_output,
};
use ai_limits::js::extract_js_string_assignment;
use ai_limits::json::{compact_json, redact_json, redact_json_for_error};
use ai_limits::normalize::{
    codex_model_name, codex_usage_limit_label, codex_window_label, gemini_credits_from_available,
    normalize_codex_usage,
};
use ai_limits::protocol::{
    check_codex_reply, codex_initialize_request, codex_request, extract_result,
    fresh_access_token, gemini_load_request, gemini_project, gemini_quota_request,
    gemini_refresh_token, http_error_message, oauth_client_from_env, token_from_refresh_reply,
    CodexReply, GeminiCredentials, GeminiTokenResponse,
};
use ai_limits::render::render_credits;
use ai_limits::text::{parse_i64, parse_u64, to_ascii_lowercase};
use ai_limits::time::{iso_from_millis, iso_from_seconds};
use ai_limits::{
    apply_report_filters, finish_report, normalize_codex_rate_limit, normalize_gemini_quota_bucket,
    normalized_filter_terms, provider_is_selected, render_human_report, report_has_error,
    validate_report_filters, CliProvider, CollectOptions, CreditsStatus, JsonNumber, JsonValue,
    LimitWindowStatus, ModelLimit, ProviderStatus, Report, ReportFilters,
};

fn s(v: &str) -> JsonValue {
    JsonValue::String(v.to_string())
}

fn n(v: u64) -> JsonValue {
    JsonValue::Number(JsonNumber::PosInt(v))
}

fn obj(members: Vec<(&str, JsonValue)>) -> JsonValue {
    JsonValue::Object(members.into_iter().map(|(k, v)| (k.to_string(), v)).collect())
}

fn strings(v: &[&str]) -> Vec<String> {
    v.iter().map(|x| x.to_string()).collect()
}

fn bare_limit(id: &str) -> ModelLimit {
    ModelLimit {
        id: id.to_string(),
        model: None,
        display_name: None,
        plan_type: None,
        windows: Vec::new(),
        credits: None,
        raw: None,
    }
}

fn bare_provider(name: &str, status: &str, limits: Vec<ModelLimit>) -> ProviderStatus {
    ProviderStatus {
        name: name.to_string(),
        status: status.to_string(),
        cli_version: None,
        account: None,
        plan_type: None,
        tier: None,
        paid_tier: None,
        limits,
        credits: None,
        usage: None,
        source: None,
        error: None,
    }
}

#[test]
fn lowercases_ascii_only() {
    assert_eq!(to_ascii_lowercase("AbC-Ä"), "abc-Ä");
}

#[test]
fn parses_integers_as_std_does() {
    assert_eq!(parse_i64("+5"), Some(5));
    assert_eq!(parse_i64("-42"), Some(-42));
    assert_eq!(parse_i64("007"), Some(7));
    assert_eq!(parse_i64("-"), None);
    assert_eq!(parse_i64(""), None);
    assert_eq!(parse_i64(" 1"), None);
    assert_eq!(parse_i64("9223372036854775807"), Some(i64::MAX));
    assert_eq!(parse_i64("9223372036854775808"), None);
    assert_eq!(parse_i64("-9223372036854775808"), Some(i64::MIN));
    assert_eq!(parse_u64("18446744073709551615"), Some(u64::MAX));
    assert_eq!(parse_u64("18446744073709551616"), None);
    assert_eq!(parse_u64("-0"), None);
    assert_eq!(parse_u64("+3"), Some(3));
}

#[test]
fn normalizes_filter_terms() {
    let terms = normalized_filter_terms(&strings(&[" Codex, gemini ,,", "", "SPARK"]));
    assert_eq!(terms, strings(&["codex", "gemini", "spark"]));
}

#[test]
fn refuses_unknown_providers_by_name() {
    let err = validate_report_filters(&ReportFilters {
        providers: strings(&["codex,other", " X "]),
        models: Vec::new(),
    })
    .unwrap_err();
    assert_eq!(err.unknown, strings(&["other", "x"]));
    assert_eq!(err.message(), "unknown provider filter: other, x. Use codex or gemini");
    assert!(validate_report_filters(&ReportFilters::default()).is_ok());
}

#[test]
fn selects_providers_by_key_or_name() {
    let f = ReportFilters { providers: strings(&["GEMINI"]), models: Vec::new() };
    assert!(provider_is_selected(CliProvider::Gemini, &f));
    assert!(!provider_is_selected(CliProvider::Codex, &f));
    assert!(provider_is_selected(CliProvider::Codex, &ReportFilters::default()));
}

#[test]
fn filtering_twice_changes_nothing_more() {
    let mut report = Report {
        generated_at: "t".to_string(),
        codex: Some(bare_provider(
            "Codex",
            "ok",
            vec![bare_limit("codex"), bare_limit("codex_spark"), bare_limit("other")],
        )),
        gemini: Some(bare_provider("Gemini", "ok", vec![bare_limit("gemini-2.5-pro")])),
    };
    let filters = ReportFilters { providers: Vec::new(), models: strings(&["SPARK,pro"]) };
    apply_report_filters(&mut report, &filters);
    let once = render_human_report(&report);
    apply_report_filters(&mut report, &filters);
    assert_eq!(render_human_report(&report), once);
    assert_eq!(report.codex.as_ref().unwrap().limits.len(), 1);
    assert_eq!(report.gemini.as_ref().unwrap().limits.len(), 1);
}

#[test]
fn empty_filters_leave_the_report() {
    let report = finish_report(
        "t".to_string(),
        Some(bare_provider("Codex", "ok", vec![bare_limit("a")])),
        None,
        &ReportFilters::default(),
    );
    assert!(report.codex.is_some());
    assert!(report.gemini.is_none());
    assert_eq!(report.codex.unwrap().limits.len(), 1);
}

#[test]
fn error_status_counts_present_providers() {
    let report = Report {
        generated_at: "t".to_string(),
        codex: Some(bare_provider("Codex", "error", Vec::new())),
        gemini: None,
    };
    assert!(report_has_error(&report));
}

#[test]
fn renders_empty_report_and_percent_rounding() {
    let report = Report { generated_at: "now".to_string(), codex: None, gemini: None };
    assert_eq!(render_human_report(&report), "AI limits - now\nNo providers selected\n");

    let mut limit = bare_limit("x");
    limit.windows = vec![LimitWindowStatus {
        kind: "quota".to_string(),
        label: None,
        used_percent: Some(1_234_500),
        remaining_percent: Some(-1),
        remaining_amount: Some(7),
        window_minutes: None,
        resets_at: None,
        milliseconds_until_reset: None,
    }];
    let report = Report {
        generated_at: "now".to_string(),
        codex: None,
        gemini: Some(bare_provider("Gemini", "ok", vec![limit])),
    };
    assert_eq!(
        render_human_report(&report),
        "AI limits - now\nGemini [ok]\n  Limits:\n  - x (x)\n    quota: 12.34% usado, -0.00% restante, 7 restantes, \n"
    );
}

#[test]
fn renders_credits() {
    let none = CreditsStatus { has_credits: None, unlimited: None, balance: None };
    assert_eq!(render_credits(&none), "not reported");
    let some = CreditsStatus { has_credits: Some(true), unlimited: Some(false), balance: Some("5".to_string()) };
    assert_eq!(render_credits(&some), "has_credits=true, unlimited=false, balance=5");
}

#[test]
fn writes_compact_json_with_escapes() {
    let v = obj(vec![
        ("a", s("q\"b\\n\nt\u{1}")),
        ("b", JsonValue::Array(vec![n(1), JsonValue::Number(JsonNumber::NegInt(-2)), JsonValue::Null, JsonValue::Bool(false)])),
        ("c", JsonValue::Number(JsonNumber::Float { mantissa: 15, exponent: -1, text: "1.5".to_string() })),
    ]);
    assert_eq!(compact_json(&v), "{\"a\":\"q\\\"b\\\\n\\nt\\u0001\",\"b\":[1,-2,null,false],\"c\":1.5}");
}

#[test]
fn redacts_secrets_at_any_depth() {
    let v = obj(vec![
        ("access_token", s("abc")),
        ("inner", obj(vec![("Authorization", s("Bearer x")), ("ok", n(1))])),
        ("list", JsonValue::Array(vec![obj(vec![("client_SECRET", n(9))])])),
    ]);
    let text = redact_json_for_error(&v);
    assert_eq!(
        text,
        "{\"access_token\":\"<redacted>\",\"inner\":{\"Authorization\":\"<redacted>\",\"ok\":1},\"list\":[{\"client_SECRET\":\"<redacted>\"}]}"
    );
    let twice = redact_json(&redact_json(&v));
    assert_eq!(compact_json(&twice), text);
    assert_eq!(
        http_error_message("https://x", "401 Unauthorized", &v),
        format!("https://x returned HTTP 401 Unauthorized: {}", text)
    );
}

#[test]
fn names_codex_models_and_windows() {
    assert_eq!(codex_model_name("codex", None), "Total");
    assert_eq!(codex_model_name("codex_x", Some("My SPARK")), "Spark");
    assert_eq!(codex_model_name("other", Some("Named")), "Named");
    assert_eq!(codex_model_name("other", None), "other");
    assert_eq!(codex_window_label("primary", Some(60)), "primary");
    assert_eq!(codex_window_label("primary", None), "primary");
    assert_eq!(codex_usage_limit_label("Total", Some("x"), "weekly"), "Limite de uso semanal");
    assert_eq!(codex_usage_limit_label("Spark", None, "custom"), "Spark custom");
}

#[test]
fn codex_windows_clamp_and_tolerate_missing_fields() {
    let limit = normalize_codex_rate_limit(
        &obj(vec![
            ("primary", obj(vec![("usedPercent", JsonValue::Number(JsonNumber::Float { mantissa: 1234567, exponent: -4, text: "123.4567".to_string() })), ("resetsAt", n(1))])),
            ("secondary", JsonValue::Null),
            ("credits", obj(vec![])),
        ]),
        5000,
    );
    assert_eq!(limit.id, "codex");
    assert_eq!(limit.display_name.as_deref(), Some("Total"));
    assert_eq!(limit.windows.len(), 2);
    assert_eq!(limit.windows[0].used_percent, Some(12_345_670));
    assert_eq!(limit.windows[0].remaining_percent, Some(0));
    assert_eq!(limit.windows[0].milliseconds_until_reset, Some(0));
    assert_eq!(limit.windows[0].resets_at.as_deref(), Some("1970-01-01T00:00:01Z"));
    assert_eq!(limit.windows[1].kind, "secondary");
    assert_eq!(limit.windows[1].used_percent, None);
    assert!(limit.credits.is_none());
}

#[test]
fn gemini_buckets_round_and_clamp() {
    let limit = normalize_gemini_quota_bucket(
        &obj(vec![
            ("remainingFraction", JsonValue::Number(JsonNumber::Float { mantissa: 12345675, exponent: -8, text: "0.12345675".to_string() })),
            ("remainingAmount", s("12")),
            ("resetTime", s("not a date")),
        ]),
        0,
    );
    assert_eq!(limit.id, "unknown");
    assert_eq!(limit.windows[0].label.as_deref(), Some("unknown quota"));
    assert_eq!(limit.windows[0].remaining_percent, Some(1_234_568));
    assert_eq!(limit.windows[0].used_percent, Some(8_765_433));
    assert_eq!(limit.windows[0].remaining_amount, Some(12));
    assert_eq!(limit.windows[0].milliseconds_until_reset, None);
    let over = normalize_gemini_quota_bucket(&obj(vec![("remainingFraction", n(2))]), 0);
    assert_eq!(over.windows[0].used_percent, Some(0));
    assert_eq!(over.windows[0].remaining_percent, Some(20_000_000));
}

#[test]
fn sums_gemini_credits() {
    let c = gemini_credits_from_available(&vec![
        obj(vec![("creditAmount", s("5"))]),
        obj(vec![("creditAmount", s("x"))]),
        obj(vec![("creditAmount", s("-7"))]),
    ]);
    assert_eq!(c.has_credits, Some(true));
    assert_eq!(c.balance.as_deref(), Some("-2"));
    let none = gemini_credits_from_available(&vec![obj(vec![])]);
    assert_eq!(none.has_credits, Some(false));
    assert_eq!(none.balance, None);
}

#[test]
fn builds_codex_status_sorted_by_id() {
    let rate_limits = obj(vec![
        (
            "rateLimits",
            obj(vec![("credits", obj(vec![("balance", s("1"))])), ("planType", s("plus"))]),
        ),
        (
            "rateLimitsByLimitId",
            obj(vec![
                ("z", obj(vec![("limitId", s("zeta"))])),
                ("a", obj(vec![("limitId", s("alpha"))])),
                ("m", obj(vec![("limitId", s("alpha")), ("planType", s("second"))])),
            ]),
        ),
    ]);
    let usage = obj(vec![
        ("dailyUsageBuckets", JsonValue::Array(vec![n(1), n(2)])),
        ("summary", s("sum")),
    ]);
    let status = codex_status_from_replies(&rate_limits, &usage, 0, Some("v".to_string()), None);
    let ids: Vec<&str> = status.limits.iter().map(|l| l.id.as_str()).collect();
    assert_eq!(ids, vec!["alpha", "alpha", "zeta"]);
    assert_eq!(status.limits[1].plan_type.as_deref(), Some("second"));
    assert_eq!(status.plan_type.as_deref(), Some("plus"));
    assert_eq!(status.credits.as_ref().unwrap().balance.as_deref(), Some("1"));
    assert_eq!(
        compact_json(status.usage.as_ref().unwrap()),
        "{\"daily_bucket_count\":2,\"latest_daily_bucket\":2,\"summary\":\"sum\"}"
    );
    let single = codex_status_from_replies(&obj(vec![("rateLimits", obj(vec![]))]), &JsonValue::Null, 0, None, None);
    assert_eq!(single.limits.len(), 1);
    assert_eq!(single.limits[0].id, "codex");
    assert_eq!(compact_json(&normalize_codex_usage(&JsonValue::Null)), "{}");
}

#[test]
fn builds_gemini_status() {
    let load = obj(vec![
        ("currentTier", obj(vec![("name", s("Free"))])),
        ("paidTier", obj(vec![("availableCredits", JsonValue::Array(vec![obj(vec![("creditAmount", s("3"))])])), ("name", s("Pro"))])),
    ]);
    let quota = obj(vec![("buckets", JsonValue::Array(vec![obj(vec![("modelId", s("b"))]), obj(vec![("modelId", s("a"))])]))]);
    let status = gemini_status_from_replies(&load, &quota, 0, None, Some("me".to_string()));
    assert_eq!(status.tier.as_deref(), Some("Free"));
    assert_eq!(status.paid_tier.as_deref(), Some("Pro"));
    assert_eq!(status.limits[0].id, "a");
    assert_eq!(status.credits.as_ref().unwrap().balance.as_deref(), Some("3"));
    let failed = provider_error_status("Gemini", None, "boom".to_string());
    assert_eq!(failed.status, "error");
    assert_eq!(failed.error.as_deref(), Some("boom"));
}

#[test]
fn formats_instants_with_chrono() {
    assert_eq!(iso_from_seconds(0), "1970-01-01T00:00:00Z");
    assert_eq!(iso_from_millis(1500), "1970-01-01T00:00:01.500Z");
    assert_eq!(iso_from_seconds(i64::MAX), "9223372036854775807");
}

#[test]
fn extracts_js_string_assignments() {
    let src = "x; var OAUTH_CLIENT_ID = \"a\\\"b\\\\c\"; var OAUTH_CLIENT_SECRET=\"s\";";
    assert_eq!(extract_js_string_assignment(src, "OAUTH_CLIENT_ID").as_deref(), Some("a\"b\\c"));
    assert_eq!(extract_js_string_assignment(src, "OAUTH_CLIENT_SECRET").as_deref(), Some("s"));
    assert_eq!(extract_js_string_assignment(src, "MISSING"), None);
    assert_eq!(extract_js_string_assignment("N = \"open", "N"), None);
    assert_eq!(extract_js_string_assignment("N=\"v\"", "N").as_deref(), Some("v"));
}

#[test]
fn orders_node_directories_newest_first() {
    assert_eq!(semver_path_key("24.12.0"), vec![24, 12, 0]);
    assert_eq!(semver_path_key("v1.x"), vec![0, 0]);
    let dirs = sorted_volta_node_dirs(strings(&["9.1.0", "24.12.0", "abc", "24.2.0", "24.12.0-b"]));
    assert_eq!(dirs, strings(&["24.12.0-b", "24.12.0", "24.2.0", "9.1.0", "abc"]));
}

#[test]
fn lists_command_candidates_once() {
    assert_eq!(dedupe_paths(strings(&["a", "b", "a", "c", "b"])), strings(&["a", "b", "c"]));
    let c = cli_command_candidates(Some("codex".to_string()), strings(&["x", "codex"]), CliProvider::Codex, false);
    assert_eq!(c, strings(&["codex", "x"]));
    let c = cli_command_candidates(Some(String::new()), Vec::new(), CliProvider::Gemini, true);
    assert_eq!(c, strings(&["gemini.cmd"]));
    assert_eq!(resolve_cli_command(&c, CliProvider::Gemini, true), "gemini.cmd");
    assert_eq!(resolve_cli_command(&Vec::new(), CliProvider::Codex, false), "codex");
    assert_eq!(gemini_package_candidates(Some("p".to_string()), strings(&["p", "q"])), strings(&["p", "q"]));
    assert!(is_windows_command_script(Some("CMD")));
    assert!(is_windows_command_script(Some("bat")));
    assert!(!is_windows_command_script(Some("exe")));
    assert!(!is_windows_command_script(None));
    assert_eq!(version_from_output("  0.46.0\n").as_deref(), Some("0.46.0"));
    assert_eq!(version_from_output(" \n"), None);
}

#[test]
fn names_providers() {
    assert_eq!(CliProvider::from_name("CODEX"), CliProvider::Codex);
    assert_eq!(CliProvider::from_name("Gemini"), CliProvider::Gemini);
    assert_eq!(CliProvider::from_name("other"), CliProvider::Gemini);
    assert_eq!(CliProvider::Codex.fallback_command(true), "codex.cmd");
    assert_eq!(CliProvider::Gemini.env_override(), "AI_LIMITS_GEMINI_CMD");
    assert_eq!(CliProvider::Codex.display_name(), "Codex");
    let options = CollectOptions::default();
    assert_eq!(options.timeout.as_secs(), 30);
    assert!(options.filters.providers.is_empty());
}

#[test]
fn speaks_the_codex_protocol() {
    let failed = check_codex_reply(&obj(vec![("error", obj(vec![("code", n(1))])), ("id", n(2))]), 2);
    match failed {
        CodexReply::Failed(m) => assert_eq!(m, "codex app-server request 2 failed: {\"code\":1}"),
        _ => panic!("expected a failure"),
    }
    assert!(matches!(check_codex_reply(&obj(vec![("id", n(3))]), 2), CodexReply::Unrelated));
    assert!(matches!(check_codex_reply(&obj(vec![("id", n(2)), ("result", n(5))]), 2), CodexReply::Answer));
    let r = extract_result(obj(vec![("id", n(2)), ("result", s("x"))]));
    assert_eq!(compact_json(&r.unwrap()), "\"x\"");
    assert!(extract_result(n(1)).is_none());
    assert_eq!(compact_json(&codex_request(2, "account/rateLimits/read")), "{\"id\":2,\"method\":\"account/rateLimits/read\"}");
    assert_eq!(
        compact_json(&codex_initialize_request("0.1.0")),
        "{\"id\":1,\"method\":\"initialize\",\"params\":{\"capabilities\":{\"experimentalApi\":true,\"optOutNotificationMethods\":[\"thread/started\",\"thread/status/changed\",\"remoteControl/status/changed\"],\"requestAttestation\":false},\"clientInfo\":{\"name\":\"ai-limits\",\"title\":null,\"version\":\"0.1.0\"}}}"
    );
}

#[test]
fn speaks_the_gemini_protocol() {
    assert_eq!(
        compact_json(&gemini_load_request(&Some("p".to_string()))),
        "{\"cloudaicompanionProject\":\"p\",\"metadata\":{\"duetProject\":\"p\",\"ideType\":\"IDE_UNSPECIFIED\",\"platform\":\"PLATFORM_UNSPECIFIED\",\"pluginType\":\"GEMINI\"}}"
    );
    assert_eq!(
        compact_json(&gemini_load_request(&None)),
        "{\"metadata\":{\"ideType\":\"IDE_UNSPECIFIED\",\"platform\":\"PLATFORM_UNSPECIFIED\",\"pluginType\":\"GEMINI\"}}"
    );
    assert_eq!(compact_json(&gemini_quota_request("q")), "{\"project\":\"q\"}");
    assert_eq!(gemini_project(&obj(vec![("cloudaicompanionProject", s("a"))]), &Some("b".to_string())).unwrap(), "a");
    assert_eq!(gemini_project(&obj(vec![]), &Some("b".to_string())).unwrap(), "b");
    assert_eq!(gemini_project(&obj(vec![]), &None).unwrap_err(), "Gemini Code Assist did not return a project");
    let creds = GeminiCredentials { access_token: Some("t".to_string()), refresh_token: None, expiry_date: Some(160_000) };
    assert_eq!(fresh_access_token(&creds, 100_000), None);
    assert_eq!(fresh_access_token(&creds, 99_999).as_deref(), Some("t"));
    assert_eq!(gemini_refresh_token(&creds).unwrap_err(), "Gemini OAuth refresh token is missing");
    let reply = GeminiTokenResponse { access_token: None, error: None, error_description: Some("bad".to_string()) };
    assert_eq!(token_from_refresh_reply(false, "400 Bad Request", &reply).unwrap_err(), "Gemini OAuth refresh failed: 400 Bad Request bad");
    assert_eq!(token_from_refresh_reply(true, "200 OK", &reply).unwrap_err(), "Gemini OAuth refresh response did not include access_token");
    let ok = GeminiTokenResponse { access_token: Some("new".to_string()), error: None, error_description: None };
    assert_eq!(token_from_refresh_reply(true, "200 OK", &ok).unwrap(), "new");
    assert!(oauth_client_from_env(Some(" ".to_string()), Some("s".to_string())).is_none());
    assert_eq!(oauth_client_from_env(Some("i".to_string()), Some("s".to_string())).unwrap().client_id, "i");
}

#[test]
fn extreme_percentages_keep_what_remains() {
    let neg = JsonValue::Number(JsonNumber::NegInt(-92233720368547));
    let limit = normalize_codex_rate_limit(&obj(vec![("primary", obj(vec![("usedPercent", neg)]))]), 0);
    assert_eq!(limit.windows[0].used_percent, Some(-9_223_372_036_854_700_000));
    assert_eq!(limit.windows[0].remaining_percent, Some(9_223_372_036_864_700_000));
    let big = JsonValue::Number(JsonNumber::PosInt(u64::MAX));
    let limit = normalize_codex_rate_limit(&obj(vec![("primary", obj(vec![("usedPercent", big)]))]), 0);
    assert_eq!(limit.windows[0].used_percent, Some(u64::MAX as i128 * 100_000));
    assert_eq!(limit.windows[0].remaining_percent, Some(0));
    let huge = JsonValue::Number(JsonNumber::Float { mantissa: 1, exponent: 300, text: "1e300".to_string() });
    let limit = normalize_codex_rate_limit(&obj(vec![("primary", obj(vec![("usedPercent", huge.clone())]))]), 0);
    assert_eq!(limit.windows[0].used_percent, None);
    assert_eq!(limit.windows[0].remaining_percent, Some(0));
    let quota = normalize_gemini_quota_bucket(&obj(vec![("remainingFraction", huge)]), 0);
    assert_eq!(quota.windows[0].used_percent, Some(0));
    assert_eq!(quota.windows[0].remaining_percent, None);
}
