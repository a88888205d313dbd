use vstd::prelude::*;
use crate::text::owned as lit;
use crate::json::{
    compact_json, get, get_i64, get_str, json_clone, json_get, json_get_i64, json_get_str,
    json_text, lemma_view_items, lemma_view_members, redact, redact_json_for_error, view_items,
    view_members, JsonNumber, JsonValue, JsonView, NumberView,
};
use crate::model::opt_text;
use crate::text::{int_text, i64_text, trim, trim_chars, chars_of};

verus! {

fn jstr(s: &str) -> (r: JsonValue)
    ensures
        r@ == JsonView::String(s@),
{
    JsonValue::String(lit(s))
}

fn object(members: Vec<(String, JsonValue)>) -> (r: JsonValue)
    ensures
        r@ == JsonView::Object(view_members(members@)),
{
    JsonValue::Object(members)
}

/// The metadata that a `loadCodeAssist` request carries.
pub open spec fn gemini_metadata(env_project: Option<Seq<char>>) -> JsonView {
    let base = seq![
        ("ideType"@, JsonView::String("IDE_UNSPECIFIED"@)),
        ("platform"@, JsonView::String("PLATFORM_UNSPECIFIED"@)),
        ("pluginType"@, JsonView::String("GEMINI"@)),
    ];
    match env_project {
        Some(p) => JsonView::Object(seq![("duetProject"@, JsonView::String(p))] + base),
        None => JsonView::Object(base),
    }
}

/// The body of a `loadCodeAssist` request, members in key order.
pub open spec fn gemini_load_body(env_project: Option<Seq<char>>) -> JsonView {
    match env_project {
        Some(p) => JsonView::Object(
            seq![
                ("cloudaicompanionProject"@, JsonView::String(p)),
                ("metadata"@, gemini_metadata(env_project)),
            ],
        ),
        None => JsonView::Object(seq![("metadata"@, gemini_metadata(env_project))]),
    }
}

fn gemini_metadata_exec(env_project: &Option<String>) -> (r: JsonValue)
    ensures
        r@ == gemini_metadata(opt_text(*env_project)),
{
    let mut ms: Vec<(String, JsonValue)> = Vec::new();
    match env_project {
        Some(p) => ms.push((lit("duetProject"), JsonValue::String(p.clone()))),
        None => {},
    }
    ms.push((lit("ideType"), jstr("IDE_UNSPECIFIED")));
    ms.push((lit("platform"), jstr("PLATFORM_UNSPECIFIED")));
    ms.push((lit("pluginType"), jstr("GEMINI")));
    proof {
        lemma_view_members(ms@);
    }
    let ghost mv = view_members(ms@);
    let r = object(ms);
    proof {
        match opt_text(*env_project) {
            Some(p) => {
                assert(mv =~= seq![("duetProject"@, JsonView::String(p))] + seq![
                    ("ideType"@, JsonView::String("IDE_UNSPECIFIED"@)),
                    ("platform"@, JsonView::String("PLATFORM_UNSPECIFIED"@)),
                    ("pluginType"@, JsonView::String("GEMINI"@)),
                ]);
            },
            None => {
                assert(mv =~= seq![
                    ("ideType"@, JsonView::String("IDE_UNSPECIFIED"@)),
                    ("platform"@, JsonView::String("PLATFORM_UNSPECIFIED"@)),
                    ("pluginType"@, JsonView::String("GEMINI"@)),
                ]);
            },
        }
    }
    r
}

/// The body of a `loadCodeAssist` request.
pub fn gemini_load_request(env_project: &Option<String>) -> (r: JsonValue)
    ensures
        r@ == gemini_load_body(opt_text(*env_project)),
{
    let mut ms: Vec<(String, JsonValue)> = Vec::new();
    match env_project {
        Some(p) => ms.push((lit("cloudaicompanionProject"), JsonValue::String(p.clone()))),
        None => {},
    }
    ms.push((lit("metadata"), gemini_metadata_exec(env_project)));
    proof {
        lemma_view_members(ms@);
    }
    let ghost mv = view_members(ms@);
    let r = object(ms);
    proof {
        match opt_text(*env_project) {
            Some(p) => {
                assert(mv =~= seq![
                    ("cloudaicompanionProject"@, JsonView::String(p)),
                    ("metadata"@, gemini_metadata(opt_text(*env_project))),
                ]);
            },
            None => {
                assert(mv =~= seq![("metadata"@, gemini_metadata(opt_text(*env_project)))]);
            },
        }
    }
    r
}

/// The body of a `retrieveUserQuota` request.
pub fn gemini_quota_request(project: &str) -> (r: JsonValue)
    ensures
        r@ == JsonView::Object(seq![("project"@, JsonView::String(project@))]),
{
    let mut ms: Vec<(String, JsonValue)> = Vec::new();
    ms.push((lit("project"), jstr(project)));
    proof {
        lemma_view_members(ms@);
    }
    let ghost mv = view_members(ms@);
    let r = object(ms);
    assert(mv =~= seq![("project"@, JsonView::String(project@))]);
    r
}

/// The project to ask quotas for: the one that `loadCodeAssist` returned,
/// else the one from the environment.
pub open spec fn gemini_project_of(load: JsonView, env_project: Option<Seq<char>>) -> Option<
    Seq<char>,
> {
    match get_str(load, "cloudaicompanionProject"@) {
        Some(p) => Some(p),
        None => env_project,
    }
}

/// The project to ask quotas for, or the message that there is none.
pub fn gemini_project(load: &JsonValue, env_project: &Option<String>) -> (r: Result<
    String,
    String,
>)
    ensures
        match r {
            Ok(p) => gemini_project_of(load@, opt_text(*env_project)) == Some(p@),
            Err(e) => gemini_project_of(load@, opt_text(*env_project)) is None && e@
                == "Gemini Code Assist did not return a project"@,
        },
{
    match json_get_str(load, "cloudaicompanionProject") {
        Some(p) => Ok(p),
        None => match env_project {
            Some(e) => Ok(e.clone()),
            None => Err(lit("Gemini Code Assist did not return a project")),
        },
    }
}

/// The OAuth credentials that the Gemini CLI stores.
#[derive(Debug, Clone)]
pub struct GeminiCredentials {
    pub access_token: Option<String>,
    pub refresh_token: Option<String>,
    pub expiry_date: Option<i64>,
}

/// The stored access token, when it stays valid for more than a minute.
pub fn fresh_access_token(creds: &GeminiCredentials, now_ms: i64) -> (r: Option<String>)
    ensures
        match r {
            Some(t) => creds.access_token is Some && t@ == creds.access_token.unwrap()@
                && creds.expiry_date is Some && creds.expiry_date.unwrap() - now_ms > 60000,
            None => !(creds.access_token is Some && creds.expiry_date is Some
                && creds.expiry_date.unwrap() - now_ms > 60000),
        },
{
    match (&creds.access_token, creds.expiry_date) {
        (Some(token), Some(expiry)) => {
            if (expiry as i128) - (now_ms as i128) > 60000 {
                Some(token.clone())
            } else {
                None
            }
        },
        _ => None,
    }
}

/// The stored refresh token, or the message that it is missing.
pub fn gemini_refresh_token(creds: &GeminiCredentials) -> (r: Result<String, String>)
    ensures
        match r {
            Ok(t) => creds.refresh_token is Some && t@ == creds.refresh_token.unwrap()@,
            Err(e) => creds.refresh_token is None && e@ == "Gemini OAuth refresh token is missing"@,
        },
{
    match &creds.refresh_token {
        Some(t) => Ok(t.clone()),
        None => Err(lit("Gemini OAuth refresh token is missing")),
    }
}

/// The fields of an OAuth token refresh reply.
#[derive(Debug, Clone)]
pub struct GeminiTokenResponse {
    pub access_token: Option<String>,
    pub error: Option<String>,
    pub error_description: Option<String>,
}

pub open spec fn or_text(o: Option<String>, d: Seq<char>) -> Seq<char> {
    match o {
        Some(s) => s@,
        None => d,
    }
}

/// The access token of a refresh reply: refused with the reply's error (or
/// the HTTP status) and description when the request failed, and refused
/// when the reply holds no token.
pub fn token_from_refresh_reply(success: bool, status: &str, reply: &GeminiTokenResponse) -> (r:
    Result<String, String>)
    ensures
        !success ==> r == Err::<String, String>(r->Err_0) && r->Err_0@ == "Gemini OAuth refresh failed: "@
            + or_text(reply.error, status@) + " "@ + or_text(reply.error_description, Seq::empty()),
        success && reply.access_token is Some ==> r is Ok && r->Ok_0@ == reply.access_token.unwrap()@,
        success && reply.access_token is None ==> r is Err && r->Err_0@
            == "Gemini OAuth refresh response did not include access_token"@,
{
    if !success {
        let mut msg = lit("Gemini OAuth refresh failed: ");
        match &reply.error {
            Some(e) => msg.append(e.as_str()),
            None => msg.append(status),
        }
        msg.append(" ");
        match &reply.error_description {
            Some(d) => msg.append(d.as_str()),
            None => {},
        }
        proof {
            assert(msg@ =~= "Gemini OAuth refresh failed: "@ + or_text(reply.error, status@) + " "@
                + or_text(reply.error_description, Seq::empty()));
        }
        return Err(msg);
    }
    match &reply.access_token {
        Some(t) => Ok(t.clone()),
        None => Err(lit("Gemini OAuth refresh response did not include access_token")),
    }
}

/// The OAuth client of the Gemini CLI.
#[derive(Debug, Clone)]
pub struct GeminiOAuthClient {
    pub client_id: String,
    pub client_secret: String,
}

/// The OAuth client given by the environment, when both values are there
/// and neither is blank.
pub fn oauth_client_from_env(client_id: Option<String>, client_secret: Option<String>) -> (r:
    Option<GeminiOAuthClient>)
    ensures
        match r {
            Some(c) => client_id is Some && client_secret is Some && c.client_id@
                == client_id.unwrap()@ && c.client_secret@ == client_secret.unwrap()@ && trim(
                client_id.unwrap()@,
            ).len() > 0 && trim(client_secret.unwrap()@).len() > 0,
            None => !(client_id is Some && client_secret is Some && trim(client_id.unwrap()@).len()
                > 0 && trim(client_secret.unwrap()@).len() > 0),
        },
{
    match (client_id, client_secret) {
        (Some(id), Some(secret)) => {
            let id_chars = chars_of(id.as_str());
            let secret_chars = chars_of(secret.as_str());
            let a = trim_chars(id_chars.as_slice());
            let b = trim_chars(secret_chars.as_slice());
            if a.len() > 0 && b.len() > 0 {
                Some(GeminiOAuthClient { client_id: id, client_secret: secret })
            } else {
                None
            }
        },
        _ => None,
    }
}

/// How a line from the Codex app server relates to the request awaited.
pub enum CodexReply {
    /// It answers another request, or none.
    Unrelated,
    /// It answers the request.
    Answer,
    /// It answers the request with an error; the message says which.
    Failed(String),
}

/// `codex app-server request <id> failed: <error as JSON>`
pub open spec fn codex_failure_text(id: int, error: JsonView) -> Seq<char> {
    "codex app-server request "@ + int_text(id) + " failed: "@ + json_text(error)
}

/// Whether a message answers request `id`, and whether with an error.
pub fn check_codex_reply(value: &JsonValue, id: i64) -> (r: CodexReply)
    ensures
        get_i64(value@, "id"@) != Some(id as int) ==> r is Unrelated,
        get_i64(value@, "id"@) == Some(id as int) && get(value@, "error"@) is None ==> r is Answer,
        get_i64(value@, "id"@) == Some(id as int) && get(value@, "error"@) is Some ==> r is Failed
            && r->Failed_0@ == codex_failure_text(id as int, get(value@, "error"@).unwrap()),
{
    match json_get_i64(value, "id") {
        Some(got) => {
            if got != id {
                return CodexReply::Unrelated;
            }
        },
        None => {
            return CodexReply::Unrelated;
        },
    }
    match json_get(value, "error") {
        Some(error) => {
            let mut msg = lit("codex app-server request ");
            let n = i64_text(id);
            msg.append(n.as_str());
            msg.append(" failed: ");
            let e = compact_json(error);
            msg.append(e.as_str());
            CodexReply::Failed(msg)
        },
        None => CodexReply::Answer,
    }
}

/// The `result` member of a reply, if any.
pub fn extract_result(value: JsonValue) -> (r: Option<JsonValue>)
    ensures
        match r {
            Some(x) => get(value@, "result"@) == Some(x@),
            None => get(value@, "result"@) is None,
        },
{
    match json_get(&value, "result") {
        Some(x) => Some(json_clone(x)),
        None => None,
    }
}

/// `{"id": <id>, "method": <method>}`
pub open spec fn codex_request_view(id: nat, method: Seq<char>) -> JsonView {
    JsonView::Object(
        seq![("id"@, JsonView::Number(NumberView::PosInt(id))), ("method"@, JsonView::String(method))],
    )
}

/// A request to the Codex app server without parameters.
pub fn codex_request(id: u64, method: &str) -> (r: JsonValue)
    ensures
        r@ == codex_request_view(id as nat, method@),
{
    let mut ms: Vec<(String, JsonValue)> = Vec::new();
    ms.push((lit("id"), JsonValue::Number(JsonNumber::PosInt(id))));
    ms.push((lit("method"), jstr(method)));
    proof {
        lemma_view_members(ms@);
    }
    let ghost mv = view_members(ms@);
    let r = object(ms);
    assert(mv =~= seq![
        ("id"@, JsonView::Number(NumberView::PosInt(id as nat))),
        ("method"@, JsonView::String(method@)),
    ]);
    r
}

/// The capabilities that the client announces.
pub open spec fn codex_capabilities() -> JsonView {
    JsonView::Object(
        seq![
            ("experimentalApi"@, JsonView::Bool(true)),
            (
                "optOutNotificationMethods"@,
                JsonView::Array(
                    seq![
                        JsonView::String("thread/started"@),
                        JsonView::String("thread/status/changed"@),
                        JsonView::String("remoteControl/status/changed"@),
                    ],
                ),
            ),
            ("requestAttestation"@, JsonView::Bool(false)),
        ],
    )
}

/// The `initialize` request (id 1) of a client of the given version.
pub open spec fn codex_initialize(version: Seq<char>) -> JsonView {
    JsonView::Object(
        seq![
            ("id"@, JsonView::Number(NumberView::PosInt(1))),
            ("method"@, JsonView::String("initialize"@)),
            (
                "params"@,
                JsonView::Object(
                    seq![
                        ("capabilities"@, codex_capabilities()),
                        (
                            "clientInfo"@,
                            JsonView::Object(
                                seq![
                                    ("name"@, JsonView::String("ai-limits"@)),
                                    ("title"@, JsonView::Null),
                                    ("version"@, JsonView::String(version)),
                                ],
                            ),
                        ),
                    ],
                ),
            ),
        ],
    )
}

fn codex_capabilities_exec() -> (r: JsonValue)
    ensures
        r@ == codex_capabilities(),
{
    let mut methods: Vec<JsonValue> = Vec::new();
    methods.push(jstr("thread/started"));
    methods.push(jstr("thread/status/changed"));
    methods.push(jstr("remoteControl/status/changed"));
    proof {
        lemma_view_items(methods@);
    }
    let ghost mv = view_items(methods@);
    let arr = JsonValue::Array(methods);
    let mut ms: Vec<(String, JsonValue)> = Vec::new();
    ms.push((lit("experimentalApi"), JsonValue::Bool(true)));
    ms.push((lit("optOutNotificationMethods"), arr));
    ms.push((lit("requestAttestation"), JsonValue::Bool(false)));
    proof {
        lemma_view_members(ms@);
    }
    let ghost cv = view_members(ms@);
    let r = object(ms);
    assert(mv =~= seq![
        JsonView::String("thread/started"@),
        JsonView::String("thread/status/changed"@),
        JsonView::String("remoteControl/status/changed"@),
    ]);
    assert(cv =~= seq![
        ("experimentalApi"@, JsonView::Bool(true)),
        (
            "optOutNotificationMethods"@,
            JsonView::Array(
                seq![
                    JsonView::String("thread/started"@),
                    JsonView::String("thread/status/changed"@),
                    JsonView::String("remoteControl/status/changed"@),
                ],
            ),
        ),
        ("requestAttestation"@, JsonView::Bool(false)),
    ]);
    r
}

/// The `initialize` request that opens a session with the Codex app server.
pub fn codex_initialize_request(version: &str) -> (r: JsonValue)
    ensures
        r@ == codex_initialize(version@),
{
    let mut info: Vec<(String, JsonValue)> = Vec::new();
    info.push((lit("name"), jstr("ai-limits")));
    info.push((lit("title"), JsonValue::Null));
    info.push((lit("version"), jstr(version)));
    proof {
        lemma_view_members(info@);
    }
    let ghost iv = view_members(info@);
    let mut params: Vec<(String, JsonValue)> = Vec::new();
    params.push((lit("capabilities"), codex_capabilities_exec()));
    params.push((lit("clientInfo"), object(info)));
    proof {
        lemma_view_members(params@);
    }
    let ghost pv = view_members(params@);
    let mut ms: Vec<(String, JsonValue)> = Vec::new();
    ms.push((lit("id"), JsonValue::Number(JsonNumber::PosInt(1))));
    ms.push((lit("method"), jstr("initialize")));
    ms.push((lit("params"), object(params)));
    proof {
        lemma_view_members(ms@);
    }
    let ghost mv = view_members(ms@);
    let r = object(ms);
    assert(iv =~= seq![
        ("name"@, JsonView::String("ai-limits"@)),
        ("title"@, JsonView::Null),
        ("version"@, JsonView::String(version@)),
    ]);
    assert(pv =~= seq![
        ("capabilities"@, codex_capabilities()),
        ("clientInfo"@, JsonView::Object(iv)),
    ]);
    assert(mv =~= seq![
        ("id"@, JsonView::Number(NumberView::PosInt(1))),
        ("method"@, JsonView::String("initialize"@)),
        ("params"@, JsonView::Object(pv)),
    ]);
    r
}

/// `<url> returned HTTP <status>: <body without secrets>`
pub open spec fn http_error_text(url: Seq<char>, status: Seq<char>, body: JsonView) -> Seq<char> {
    url + " returned HTTP "@ + status + ": "@ + json_text(redact(body))
}

/// The message for a failed HTTP request, with the reply's secrets hidden.
pub fn http_error_message(url: &str, status: &str, body: &JsonValue) -> (r: String)
    ensures
        r@ == http_error_text(url@, status@, body@),
{
    let mut msg = lit(url);
    msg.append(" returned HTTP ");
    msg.append(status);
    msg.append(": ");
    let b = redact_json_for_error(body);
    msg.append(b.as_str());
    msg
}


/// Where an exchange with the Codex app server stands: the request whose
/// answer is awaited, and the answers kept so far.
pub enum CodexSession {
    /// The `initialize` request (id 1) was sent.
    Initializing,
    /// The rate-limit (id 2) and usage (id 3) requests were sent.
    ReadingLimits,
    /// The rate-limit answer came; the usage answer is awaited.
    ReadingUsage(JsonValue),
}

pub enum CodexSessionView {
    Initializing,
    ReadingLimits,
    ReadingUsage(JsonView),
}

impl View for CodexSession {
    type V = CodexSessionView;

    open spec fn view(&self) -> CodexSessionView {
        match self {
            CodexSession::Initializing => CodexSessionView::Initializing,
            CodexSession::ReadingLimits => CodexSessionView::ReadingLimits,
            CodexSession::ReadingUsage(v) => CodexSessionView::ReadingUsage(v@),
        }
    }
}

/// What to do after a message from the Codex app server.
pub enum CodexAction {
    /// Write these requests, one per line, then wait for the next message.
    Send(Vec<JsonValue>),
    /// Wait for the next message.
    Wait,
    /// Give up with this message.
    Fail(String),
    /// Done: the `result` of the rate-limit answer, then that of the usage
    /// answer.
    Finish(JsonValue, JsonValue),
}

pub enum CodexActionView {
    Send(Seq<JsonView>),
    Wait,
    Fail(Seq<char>),
    Finish(JsonView, JsonView),
}

impl View for CodexAction {
    type V = CodexActionView;

    open spec fn view(&self) -> CodexActionView {
        match self {
            CodexAction::Send(v) => CodexActionView::Send(view_items(v@)),
            CodexAction::Wait => CodexActionView::Wait,
            CodexAction::Fail(m) => CodexActionView::Fail(m@),
            CodexAction::Finish(a, b) => CodexActionView::Finish(a@, b@),
        }
    }
}

/// The id of the answer awaited.
pub open spec fn awaited(s: CodexSessionView) -> int {
    match s {
        CodexSessionView::Initializing => 1,
        CodexSessionView::ReadingLimits => 2,
        CodexSessionView::ReadingUsage(_) => 3,
    }
}

/// The two requests sent once the session is open.
pub open spec fn codex_reads() -> Seq<JsonView> {
    seq![
        codex_request_view(2, "account/rateLimits/read"@),
        codex_request_view(3, "account/usage/read"@),
    ]
}

/// The next state and the action, given a message from the app server. A
/// message that does not answer the awaited request is passed over; an
/// error answer ends the exchange; otherwise the exchange moves on, and
/// after the usage answer both `result`s are handed over, the rate-limit one
/// checked first.
pub open spec fn codex_next(s: CodexSessionView, reply: JsonView) -> (
    CodexSessionView,
    CodexActionView,
) {
    let id = awaited(s);
    if get_i64(reply, "id"@) != Some(id) {
        (s, CodexActionView::Wait)
    } else if get(reply, "error"@) is Some {
        (s, CodexActionView::Fail(codex_failure_text(id, get(reply, "error"@).unwrap())))
    } else {
        match s {
            CodexSessionView::Initializing => (
                CodexSessionView::ReadingLimits,
                CodexActionView::Send(codex_reads()),
            ),
            CodexSessionView::ReadingLimits => (
                CodexSessionView::ReadingUsage(reply),
                CodexActionView::Wait,
            ),
            CodexSessionView::ReadingUsage(limits) => match get(limits, "result"@) {
                None => (s, CodexActionView::Fail("codex rate limit response had no result"@)),
                Some(a) => match get(reply, "result"@) {
                    None => (s, CodexActionView::Fail("codex usage response had no result"@)),
                    Some(b) => (s, CodexActionView::Finish(a, b)),
                },
            },
        }
    }
}

/// The id of the answer that the session awaits.
pub fn awaited_id(s: &CodexSession) -> (r: i64)
    ensures
        r == awaited(s@),
{
    match s {
        CodexSession::Initializing => 1,
        CodexSession::ReadingLimits => 2,
        CodexSession::ReadingUsage(_) => 3,
    }
}

/// A new session, and the `initialize` request that opens it.
pub fn codex_session_start(version: &str) -> (r: (CodexSession, JsonValue))
    ensures
        r.0@ == CodexSessionView::Initializing,
        r.1@ == codex_initialize(version@),
{
    (CodexSession::Initializing, codex_initialize_request(version))
}

/// One step of the exchange: the next state and what to do, given a message
/// from the app server.
pub fn codex_session_step(s: CodexSession, reply: &JsonValue) -> (r: (CodexSession, CodexAction))
    ensures
        (r.0@, r.1@) == codex_next(s@, reply@),
{
    let id = awaited_id(&s);
    match check_codex_reply(reply, id) {
        CodexReply::Unrelated => (s, CodexAction::Wait),
        CodexReply::Failed(message) => (s, CodexAction::Fail(message)),
        CodexReply::Answer => match s {
            CodexSession::Initializing => {
                let mut reads: Vec<JsonValue> = Vec::new();
                reads.push(codex_request(2, "account/rateLimits/read"));
                reads.push(codex_request(3, "account/usage/read"));
                proof {
                    lemma_view_items(reads@);
                }
                assert(view_items(reads@) =~= codex_reads());
                (CodexSession::ReadingLimits, CodexAction::Send(reads))
            },
            CodexSession::ReadingLimits => {
                (CodexSession::ReadingUsage(json_clone(reply)), CodexAction::Wait)
            },
            CodexSession::ReadingUsage(limits) => {
                match extract_result(json_clone(&limits)) {
                    None => {
                        let m = lit("codex rate limit response had no result");
                        (CodexSession::ReadingUsage(limits), CodexAction::Fail(m))
                    },
                    Some(a) => match extract_result(json_clone(reply)) {
                        None => {
                            let m = lit("codex usage response had no result");
                            (CodexSession::ReadingUsage(limits), CodexAction::Fail(m))
                        },
                        Some(b) => (CodexSession::ReadingUsage(limits), CodexAction::Finish(a, b)),
                    },
                }
            },
        },
    }
}

/// An exchange in which the app server answers the three requests in turn,
/// with no error and with a `result` in both reads, sends the two reads
/// after the first answer and ends with both `result`s, whatever unrelated
/// messages come in between (they leave the state as it was).
pub proof fn codex_exchange_completes(
    init: JsonView,
    limits: JsonView,
    usage: JsonView,
    other: JsonView,
    s: CodexSessionView,
)
    requires
        get_i64(init, "id"@) == Some(1int),
        get(init, "error"@) is None,
        get_i64(limits, "id"@) == Some(2int),
        get(limits, "error"@) is None,
        get(limits, "result"@) is Some,
        get_i64(usage, "id"@) == Some(3int),
        get(usage, "error"@) is None,
        get(usage, "result"@) is Some,
    ensures
        codex_next(CodexSessionView::Initializing, init) == (
            CodexSessionView::ReadingLimits,
            CodexActionView::Send(codex_reads()),
        ),
        codex_next(CodexSessionView::ReadingLimits, limits) == (
            CodexSessionView::ReadingUsage(limits),
            CodexActionView::Wait,
        ),
        codex_next(CodexSessionView::ReadingUsage(limits), usage).1 == CodexActionView::Finish(
            get(limits, "result"@).unwrap(),
            get(usage, "result"@).unwrap(),
        ),
        get_i64(other, "id"@) != Some(awaited(s)) ==> codex_next(s, other) == (
            s,
            CodexActionView::Wait,
        ),
{
}

} // verus!
