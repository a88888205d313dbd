use ai_limits::{
    apply_report_filters, normalize_codex_rate_limit, normalize_gemini_quota_bucket,
    render_human_report, report_has_error, validate_report_filters, JsonNumber, JsonValue,
    LimitWindowStatus, ModelLimit, ProviderStatus, Report, ReportFilters,
};

fn text(s: &str) -> JsonValue {
    JsonValue::String(s.to_string())
}

fn number(n: u64) -> JsonValue {
    JsonValue::Number(JsonNumber::PosInt(n))
}

fn object(members: Vec<(&str, JsonValue)>) -> JsonValue {
    let mut sorted: Vec<(String, JsonValue)> =
        members.into_iter().map(|(k, v)| (k.to_string(), v)).collect();
    sorted.sort_by(|a, b| a.0.cmp(&b.0));
    JsonValue::Object(sorted)
}

fn percent(value: Option<i128>) -> Option<f64> {
    value.map(|k| k as f64 / 100000.0)
}

#[test]
fn normalizes_codex_rate_limit_windows() {
    let normalized = normalize_codex_rate_limit(
        &object(vec![
            ("limitId", text("codex")),
            ("limitName", JsonValue::Null),
            ("planType", text("pro")),
            (
                "primary",
                object(vec![
                    ("usedPercent", number(27)),
                    ("windowDurationMins", number(300)),
                    ("resetsAt", number(1781506137)),
                ]),
            ),
            (
                "secondary",
                object(vec![
                    ("usedPercent", number(41)),
                    ("windowDurationMins", number(10080)),
                    ("resetsAt", number(1781956546)),
                ]),
            ),
            (
                "credits",
                object(vec![
                    ("hasCredits", JsonValue::Bool(true)),
                    ("unlimited", JsonValue::Bool(false)),
                    ("balance", text("123.4500")),
                ]),
            ),
        ]),
        1_781_506_000_000,
    );

    assert_eq!(normalized.id, "codex");
    assert_eq!(normalized.model.as_deref(), Some("Total"));
    assert_eq!(normalized.plan_type.as_deref(), Some("pro"));
    assert_eq!(percent(normalized.windows[0].remaining_percent), Some(73.0));
    assert_eq!(normalized.windows[0].kind, "5-hour");
    assert_eq!(normalized.windows[0].label.as_deref(), Some("Limite de uso de 5 horas"));
    assert_eq!(normalized.windows[1].kind, "weekly");
    assert_eq!(normalized.windows[1].label.as_deref(), Some("Limite de uso semanal"));
    assert_eq!(normalized.windows[1].window_minutes, Some(10080));
    assert_eq!(normalized.windows[0].resets_at.as_deref(), Some("2026-06-15T06:48:57Z"));
    assert_eq!(normalized.windows[0].milliseconds_until_reset, Some(137_000));
    assert_eq!(
        normalized.credits.as_ref().unwrap().balance.as_deref(),
        Some("123.4500")
    );
}

#[test]
fn normalizes_codex_spark_as_separate_model_with_own_windows() {
    let normalized = normalize_codex_rate_limit(
        &object(vec![
            ("limitId", text("codex_bengalfox")),
            ("limitName", text("GPT-5.3-Codex-Spark")),
            ("planType", text("pro")),
            (
                "primary",
                object(vec![
                    ("usedPercent", number(0)),
                    ("windowDurationMins", number(300)),
                    ("resetsAt", number(1781512315)),
                ]),
            ),
            (
                "secondary",
                object(vec![
                    ("usedPercent", number(0)),
                    ("windowDurationMins", number(10080)),
                    ("resetsAt", number(1782099115)),
                ]),
            ),
        ]),
        1_781_506_000_000,
    );

    assert_eq!(normalized.id, "codex_bengalfox");
    assert_eq!(normalized.model.as_deref(), Some("Spark"));
    assert_eq!(normalized.display_name.as_deref(), Some("GPT-5.3-Codex-Spark"));
    assert_eq!(normalized.windows.len(), 2);
    assert_eq!(normalized.windows[0].kind, "5-hour");
    assert_eq!(
        normalized.windows[0].label.as_deref(),
        Some("GPT-5.3-Codex-Spark Limite de uso de 5 horas")
    );
    assert_eq!(normalized.windows[1].kind, "weekly");
    assert_eq!(
        normalized.windows[1].label.as_deref(),
        Some("GPT-5.3-Codex-Spark Limite de uso semanal")
    );
}

#[test]
fn normalizes_gemini_quota_fraction_as_percent() {
    let normalized = normalize_gemini_quota_bucket(
        &object(vec![
            ("modelId", text("gemini-2.5-pro")),
            (
                "remainingFraction",
                JsonValue::Number(JsonNumber::Float {
                    mantissa: 9533333,
                    exponent: -7,
                    text: "0.9533333".to_string(),
                }),
            ),
            ("resetTime", text("2026-06-16T02:49:49Z")),
        ]),
        1_781_506_000_000,
    );

    assert_eq!(normalized.model.as_deref(), Some("gemini-2.5-pro"));
    assert_eq!(percent(normalized.windows[0].remaining_percent), Some(95.33333));
    assert_eq!(normalized.windows[0].resets_at.as_deref(), Some("2026-06-16T02:49:49Z"));
    assert_eq!(normalized.windows[0].milliseconds_until_reset, Some(72_189_000));
}

fn provider(name: &str, cli: Option<&str>, plan: Option<&str>, tier: Option<&str>, limits: Vec<ModelLimit>) -> ProviderStatus {
    ProviderStatus {
        name: name.to_string(),
        status: "ok".to_string(),
        cli_version: cli.map(|s| s.to_string()),
        account: None,
        plan_type: plan.map(|s| s.to_string()),
        tier: tier.map(|s| s.to_string()),
        paid_tier: None,
        limits,
        credits: None,
        usage: None,
        source: None,
        error: None,
    }
}

fn limit(id: &str, model: Option<&str>, display_name: Option<&str>, plan: Option<&str>) -> ModelLimit {
    ModelLimit {
        id: id.to_string(),
        model: model.map(|s| s.to_string()),
        display_name: display_name.map(|s| s.to_string()),
        plan_type: plan.map(|s| s.to_string()),
        windows: Vec::new(),
        credits: None,
        raw: None,
    }
}

#[test]
fn human_report_names_providers_without_token_fields() {
    let mut codex_limit = limit("codex", None, None, Some("pro"));
    codex_limit.windows = vec![LimitWindowStatus {
        kind: "5-hour".to_string(),
        label: Some("Limite de uso de 5 horas".to_string()),
        used_percent: Some(2_700_000),
        remaining_percent: Some(7_300_000),
        remaining_amount: None,
        window_minutes: Some(300),
        resets_at: Some("2026-06-15T06:48:57Z".to_string()),
        milliseconds_until_reset: Some(137_000),
    }];
    let report = Report {
        generated_at: "2026-06-15T03:30:00Z".to_string(),
        codex: Some(provider("Codex", Some("codex-cli 0.139.0"), Some("pro"), None, vec![codex_limit])),
        gemini: Some(provider("Gemini", Some("0.46.0"), None, Some("Gemini Code Assist"), Vec::new())),
    };

    let rendered = render_human_report(&report);

    assert!(rendered.contains("Codex"));
    assert!(rendered.contains("Gemini"));
    assert!(rendered.contains("Limite de uso de 5 horas"));
    assert!(rendered.contains("137000 ms para renovar"));
    assert!(!rendered.to_ascii_lowercase().contains("access_token"));
    assert!(!rendered.to_ascii_lowercase().contains("refresh_token"));
}

fn sample_report() -> Report {
    Report {
        generated_at: "2026-06-15T03:30:00Z".to_string(),
        codex: Some(provider(
            "Codex",
            Some("codex-cli 0.139.0"),
            Some("pro"),
            None,
            vec![
                limit("codex", Some("Total"), Some("Total"), Some("pro")),
                limit("codex_bengalfox", Some("Spark"), Some("GPT-5.3-Codex-Spark"), Some("pro")),
            ],
        )),
        gemini: Some(provider(
            "Gemini",
            Some("0.46.0"),
            None,
            Some("Gemini Code Assist"),
            vec![limit("gemini-2.5-pro", Some("gemini-2.5-pro"), None, None)],
        )),
    }
}

#[test]
fn provider_filter_removes_unselected_provider_from_report() {
    let mut report = sample_report();
    apply_report_filters(
        &mut report,
        &ReportFilters {
            providers: vec!["gemini".to_string()],
            models: Vec::new(),
        },
    );

    assert!(report.codex.is_none());
    assert!(report.gemini.is_some());
    assert!(!render_human_report(&report).contains("Codex"));
}

#[test]
fn model_filter_matches_id_model_and_display_name_case_insensitively() {
    let mut report = sample_report();
    apply_report_filters(
        &mut report,
        &ReportFilters {
            providers: Vec::new(),
            models: vec!["spark".to_string()],
        },
    );

    let codex = report.codex.as_ref().unwrap();
    assert_eq!(codex.limits.len(), 1);
    assert_eq!(codex.limits[0].id, "codex_bengalfox");
    let rendered = render_human_report(&report);
    assert!(rendered.contains("Spark"));
    assert!(!rendered.contains("Total (codex)"));
}

#[test]
fn report_error_status_ignores_filtered_out_providers() {
    let report = Report {
        generated_at: "2026-06-15T03:30:00Z".to_string(),
        codex: None,
        gemini: Some(provider("Gemini", None, None, None, Vec::new())),
    };

    assert!(!report_has_error(&report));
}

#[test]
fn validates_provider_filter_values() {
    assert!(validate_report_filters(&ReportFilters {
        providers: vec!["Codex".to_string(), "gemini".to_string()],
        models: Vec::new(),
    })
    .is_ok());
    assert!(validate_report_filters(&ReportFilters {
        providers: vec!["other".to_string()],
        models: Vec::new(),
    })
    .is_err());
}
