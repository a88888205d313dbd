use ai_limits::collect::{codex_account_id, gemini_active_account};
use ai_limits::commands::{cli_candidates, dedupe_paths};
use ai_limits::decimal::decimal_of;
use ai_limits::json::compact_json;
use ai_limits::protocol::{awaited_id, codex_session_start, codex_session_step, CodexAction, CodexSession};
use ai_limits::{CollectOptions, JsonNumber, JsonValue, ReportFilters};

fn s(v: &str) -> JsonValue {
    JsonValue::String(v.to_string())
}

fn n(v: u64) -> JsonValue {
    JsonValue::Number(JsonNumber::PosInt(v))
}

fn obj(members: Vec<(&str, JsonValue)>) -> JsonValue {
    JsonValue::Object(members.into_iter().map(|(k, v)| (k.to_string(), v)).collect())
}

fn strings(v: &[&str]) -> Vec<String> {
    v.iter().map(|x| x.to_string()).collect()
}

#[test]
fn default_options_wait_thirty_seconds() {
    let options = CollectOptions::default();
    assert_eq!(options.timeout, std::time::Duration::from_secs(30));
    assert!(options.filters.models.is_empty());
}

#[test]
fn cloned_options_keep_their_filters() {
    let mut options = CollectOptions::default();
    options.filters = ReportFilters { providers: strings(&["codex"]), models: strings(&["spark", "pro"]) };
    let copy = options.clone();
    assert_eq!(copy.timeout, options.timeout);
    assert_eq!(copy.filters.providers, strings(&["codex"]));
    assert_eq!(copy.filters.models, strings(&["spark", "pro"]));
}

#[test]
fn reads_accounts_from_login_files() {
    let auth = obj(vec![("tokens", obj(vec![("account_id", s("acct-1"))]))]);
    assert_eq!(codex_account_id(&auth).as_deref(), Some("acct-1"));
    assert_eq!(codex_account_id(&obj(vec![("account_id", s("x"))])), None);
    assert_eq!(codex_account_id(&obj(vec![("tokens", obj(vec![("account_id", n(3))]))])), None);
    assert_eq!(gemini_active_account(&obj(vec![("active", s("me@example.com"))])).as_deref(), Some("me@example.com"));
    assert_eq!(gemini_active_account(&obj(vec![("old", s("x"))])), None);
}

#[test]
fn lists_candidates_directory_by_directory() {
    let suffixes = vec![strings(&["codex.cmd"]), strings(&["bin", "codex"])];
    let c = cli_candidates(strings(&["n24", "n9"]), suffixes.clone());
    assert_eq!(
        c,
        vec![
            strings(&["n24", "codex.cmd"]),
            strings(&["n24", "bin", "codex"]),
            strings(&["n9", "codex.cmd"]),
            strings(&["n9", "bin", "codex"]),
        ]
    );
    assert!(cli_candidates(Vec::new(), suffixes).is_empty());
    assert!(cli_candidates(strings(&["n"]), Vec::new()).is_empty());
}

#[test]
fn drops_paths_that_name_the_same_place() {
    assert_eq!(dedupe_paths(strings(&["a/b", "a//b", "a/b/", "c"])), strings(&["a/b", "c"]));
    assert_eq!(dedupe_paths(Vec::new()), Vec::<String>::new());
}

#[test]
fn walks_the_codex_exchange() {
    let (session, init) = codex_session_start("0.1.0");
    assert_eq!(awaited_id(&session), 1);
    assert!(compact_json(&init).starts_with("{\"id\":1,\"method\":\"initialize\""));
    let (session, action) = codex_session_step(session, &obj(vec![("method", s("note"))]));
    assert!(matches!(action, CodexAction::Wait));
    assert_eq!(awaited_id(&session), 1);
    let (session, action) = codex_session_step(session, &obj(vec![("id", n(1)), ("result", obj(vec![]))]));
    match action {
        CodexAction::Send(requests) => {
            let texts: Vec<String> = requests.iter().map(compact_json).collect();
            assert_eq!(
                texts,
                strings(&[
                    "{\"id\":2,\"method\":\"account/rateLimits/read\"}",
                    "{\"id\":3,\"method\":\"account/usage/read\"}",
                ])
            );
        }
        _ => panic!("expected the two reads"),
    }
    assert_eq!(awaited_id(&session), 2);
    let (session, action) = codex_session_step(session, &obj(vec![("id", n(3)), ("result", s("early"))]));
    assert!(matches!(action, CodexAction::Wait));
    let (session, action) = codex_session_step(session, &obj(vec![("id", n(2)), ("result", s("limits"))]));
    assert!(matches!(action, CodexAction::Wait));
    assert!(matches!(session, CodexSession::ReadingUsage(_)));
    assert_eq!(awaited_id(&session), 3);
    let (_, action) = codex_session_step(session, &obj(vec![("id", n(3)), ("result", s("usage"))]));
    match action {
        CodexAction::Finish(a, b) => {
            assert_eq!(compact_json(&a), "\"limits\"");
            assert_eq!(compact_json(&b), "\"usage\"");
        }
        _ => panic!("expected both results"),
    }
}

#[test]
fn codex_exchange_fails_on_errors_and_missing_results() {
    let (session, _) = codex_session_start("0.1.0");
    let (_, action) = codex_session_step(session, &obj(vec![("id", n(1)), ("error", obj(vec![("code", n(7))]))]));
    match action {
        CodexAction::Fail(m) => assert_eq!(m, "codex app-server request 1 failed: {\"code\":7}"),
        _ => panic!("expected a failure"),
    }
    let (_, action) = codex_session_step(
        CodexSession::ReadingUsage(obj(vec![("id", n(2))])),
        &obj(vec![("id", n(3)), ("result", n(1))]),
    );
    match action {
        CodexAction::Fail(m) => assert_eq!(m, "codex rate limit response had no result"),
        _ => panic!("expected a failure"),
    }
    let (_, action) = codex_session_step(
        CodexSession::ReadingUsage(obj(vec![("id", n(2)), ("result", n(1))])),
        &obj(vec![("id", n(3))]),
    );
    match action {
        CodexAction::Fail(m) => assert_eq!(m, "codex usage response had no result"),
        _ => panic!("expected a failure"),
    }
}

#[test]
fn reads_decimal_numbers_exactly() {
    assert_eq!(decimal_of("123.4567"), Some((1234567, -4)));
    assert_eq!(decimal_of("1e20"), Some((1, 20)));
    assert_eq!(decimal_of("100000000000000000000.0"), Some((1, 20)));
    assert_eq!(decimal_of("-0.0025"), Some((-25, -4)));
    assert_eq!(decimal_of("2.5E-3"), Some((25, -4)));
    assert_eq!(decimal_of("1.5e+2"), Some((15, 1)));
    assert_eq!(decimal_of("0.0"), Some((0, -1)));
    assert_eq!(decimal_of("-9223372036854775808"), Some((i64::MIN, 0)));
    assert_eq!(decimal_of("9223372036854775808"), None);
    assert_eq!(decimal_of("1e2147483648"), None);
    assert_eq!(decimal_of("1."), None);
    assert_eq!(decimal_of(".5"), None);
    assert_eq!(decimal_of("1e"), None);
    assert_eq!(decimal_of("abc"), None);
    assert_eq!(decimal_of(""), None);
}
