use vstd::prelude::*;
use crate::filters::join_texts;
use crate::json::{json_text, write_json, JsonValue, JsonView};
use crate::model::{
    CreditsStatus, CreditsView, LimitView, LimitWindowStatus, ModelLimit, ProviderStatus,
    ProviderView, Report, ReportView, WindowView,
};
use crate::numeric::{percent_text, push_percent};
use crate::text::{contains_text, int_text, i64_text, occurs_at};

verus! {

pub open spec fn bool_text(b: bool) -> Seq<char> {
    if b {
        "true"@
    } else {
        "false"@
    }
}

/// The reported credit fields, as `name=value` texts.
pub open spec fn credit_parts(c: CreditsView) -> Seq<Seq<char>> {
    (match c.has_credits {
        Some(b) => seq!["has_credits="@ + bool_text(b)],
        None => Seq::empty(),
    }) + (match c.unlimited {
        Some(b) => seq!["unlimited="@ + bool_text(b)],
        None => Seq::empty(),
    }) + (match c.balance {
        Some(s) => seq!["balance="@ + s],
        None => Seq::empty(),
    })
}

/// Credits as one line: the reported fields joined by `, `, or
/// `not reported`.
pub open spec fn credits_text(c: CreditsView) -> Seq<char> {
    let parts = credit_parts(c);
    if parts.len() == 0 {
        "not reported"@
    } else {
        join_texts(parts, ", "@)
    }
}

/// `label` and the value and a line end, when there is a value.
pub open spec fn opt_line(label: Seq<char>, o: Option<Seq<char>>) -> Seq<char> {
    match o {
        Some(v) => label + v + "\n"@,
        None => Seq::empty(),
    }
}

pub open spec fn percent_part(o: Option<int>, suffix: Seq<char>) -> Seq<char> {
    match o {
        Some(u) => percent_text(u) + suffix,
        None => Seq::empty(),
    }
}

pub open spec fn int_part(prefix: Seq<char>, o: Option<int>, suffix: Seq<char>) -> Seq<char> {
    match o {
        Some(a) => prefix + int_text(a) + suffix,
        None => Seq::empty(),
    }
}

pub open spec fn window_head(w: WindowView) -> Seq<char> {
    let label = match w.label {
        Some(l) => l,
        None => w.kind,
    };
    "    "@ + label + ": "@
}

/// One line for a usage window.
pub open spec fn window_text(w: WindowView) -> Seq<char> {
    window_head(w) + percent_part(w.used_percent, "% usado, "@) + percent_part(
        w.remaining_percent,
        "% restante, "@,
    ) + int_part(Seq::empty(), w.remaining_amount, " restantes, "@) + int_part(
        "janela de "@,
        w.window_minutes,
        " min, "@,
    ) + (match w.resets_at {
        Some(r) => "renova em "@ + r + ", "@,
        None => Seq::empty(),
    }) + int_part(Seq::empty(), w.milliseconds_until_reset, " ms para renovar"@) + "\n"@
}

pub open spec fn windows_text(s: Seq<WindowView>) -> Seq<char>
    decreases s.len(),
{
    if s.len() == 0 {
        Seq::empty()
    } else {
        windows_text(s.drop_last()) + window_text(s.last())
    }
}

pub open spec fn limit_head(l: LimitView) -> Seq<char> {
    let label = match l.model {
        Some(m) => m,
        None => match l.display_name {
            Some(d) => d,
            None => l.id,
        },
    };
    "  - "@ + label + " ("@ + l.id + ")\n"@
}

pub open spec fn name_part(l: LimitView) -> Seq<char> {
    match l.display_name {
        Some(d) => if l.model != Some(d) {
            "    name: "@ + d + "\n"@
        } else {
            Seq::empty()
        },
        None => Seq::empty(),
    }
}

pub open spec fn credits_line(label: Seq<char>, o: Option<CreditsView>) -> Seq<char> {
    match o {
        Some(c) => label + credits_text(c) + "\n"@,
        None => Seq::empty(),
    }
}

/// The lines for one limit: its name and id, its display name where it
/// differs from the model, plan, credits, and one line per window.
pub open spec fn limit_text(l: LimitView) -> Seq<char> {
    limit_head(l) + name_part(l) + opt_line("    plan: "@, l.plan_type) + credits_line(
        "    credits: "@,
        l.credits,
    ) + windows_text(l.windows)
}

pub open spec fn limits_text(s: Seq<LimitView>) -> Seq<char>
    decreases s.len(),
{
    if s.len() == 0 {
        Seq::empty()
    } else {
        limits_text(s.drop_last()) + limit_text(s.last())
    }
}

pub open spec fn provider_head(p: ProviderView) -> Seq<char> {
    p.name + " ["@ + p.status + "]\n"@
}

pub open spec fn provider_details(p: ProviderView) -> Seq<char> {
    opt_line("  CLI: "@, p.cli_version) + opt_line("  Account: "@, p.account) + opt_line(
        "  Plan: "@,
        p.plan_type,
    ) + opt_line("  Tier: "@, p.tier) + opt_line("  Paid tier: "@, p.paid_tier)
}

pub open spec fn limits_part(s: Seq<LimitView>) -> Seq<char> {
    if s.len() == 0 {
        "  Limits: none reported\n"@
    } else {
        "  Limits:\n"@ + limits_text(s)
    }
}

pub open spec fn usage_part(o: Option<JsonView>) -> Seq<char> {
    match o {
        Some(u) => if u != JsonView::Null {
            "  Usage summary: "@ + json_text(u) + "\n"@
        } else {
            Seq::empty()
        },
        None => Seq::empty(),
    }
}

/// The lines for one provider.
pub open spec fn provider_text(p: ProviderView) -> Seq<char> {
    provider_head(p) + provider_details(p) + credits_line("  Credits: "@, p.credits) + opt_line(
        "  Error: "@,
        p.error,
    ) + limits_part(p.limits) + usage_part(p.usage)
}

/// The human-readable report: a title line with the time, each present
/// provider (a blank line between two), or a note that none was selected.
pub open spec fn report_text(r: ReportView) -> Seq<char> {
    "AI limits - "@ + r.generated_at + "\n"@ + (match r.codex {
        Some(c) => provider_text(c),
        None => Seq::empty(),
    }) + (match r.gemini {
        Some(g) => (if r.codex is Some {
            "\n"@
        } else {
            Seq::empty()
        }) + provider_text(g),
        None => Seq::empty(),
    }) + (if r.codex is None && r.gemini is None {
        "No providers selected\n"@
    } else {
        Seq::empty()
    })
}

fn push_opt_line(out: &mut String, label: &str, o: &Option<String>)
    ensures
        final(out)@ == old(out)@ + opt_line(label@, crate::model::opt_text(*o)),
{
    match o {
        Some(v) => {
            out.append(label);
            out.append(v.as_str());
            out.append("\n");
        },
        None => {},
    }
}

fn bool_string(b: bool) -> (r: &'static str)
    ensures
        r@ == bool_text(b),
{
    if b {
        "true"
    } else {
        "false"
    }
}

/// Credits as one line.
pub fn render_credits(credits: &CreditsStatus) -> (r: String)
    ensures
        r@ == credits_text(credits@),
{
    let mut parts: Vec<String> = Vec::new();
    let ghost mut exp: Seq<Seq<char>> = Seq::empty();
    match credits.has_credits {
        Some(b) => {
            let mut s = String::from_str("has_credits=");
            s.append(bool_string(b));
            parts.push(s);
            proof {
                exp = exp + seq!["has_credits="@ + bool_text(b)];
            }
        },
        None => {},
    }
    assert(crate::model::texts(parts@) =~= exp);
    match credits.unlimited {
        Some(b) => {
            let mut s = String::from_str("unlimited=");
            s.append(bool_string(b));
            let ghost before = parts@;
            parts.push(s);
            proof {
                exp = exp + seq!["unlimited="@ + bool_text(b)];
                assert(crate::model::texts(parts@) =~= crate::model::texts(before).push(s@));
            }
        },
        None => {},
    }
    assert(crate::model::texts(parts@) =~= exp);
    match &credits.balance {
        Some(v) => {
            let mut s = String::from_str("balance=");
            s.append(v.as_str());
            let ghost before = parts@;
            parts.push(s);
            proof {
                exp = exp + seq!["balance="@ + v@];
                assert(crate::model::texts(parts@) =~= crate::model::texts(before).push(s@));
            }
        },
        None => {},
    }
    assert(crate::model::texts(parts@) =~= exp);
    assert(exp =~= credit_parts(credits@));
    if parts.len() == 0 {
        String::from_str("not reported")
    } else {
        let mut out = String::new();
        crate::filters::push_joined(&mut out, &parts, ", ");
        assert(out@ =~= credits_text(credits@));
        out
    }
}

fn push_int(out: &mut String, n: i64)
    ensures
        final(out)@ == old(out)@ + int_text(n as int),
{
    let t = i64_text(n);
    out.append(t.as_str());
}

fn push_percent_part(out: &mut String, o: Option<i128>, suffix: &str)
    ensures
        final(out)@ == old(out)@ + percent_part(crate::model::opt_wide(o), suffix@),
{
    match o {
        Some(u) => {
            let ghost s0 = out@;
            push_percent(out, u);
            out.append(suffix);
            assert(out@ =~= s0 + percent_part(crate::model::opt_wide(o), suffix@));
        },
        None => {
            assert(out@ =~= out@ + percent_part(crate::model::opt_wide(o), suffix@));
        },
    }
}

fn push_int_part(out: &mut String, prefix: &str, o: Option<i64>, suffix: &str)
    ensures
        final(out)@ == old(out)@ + int_part(prefix@, crate::model::opt_int(o), suffix@),
{
    match o {
        Some(a) => {
            let ghost s0 = out@;
            out.append(prefix);
            push_int(out, a);
            out.append(suffix);
            assert(out@ =~= s0 + int_part(prefix@, crate::model::opt_int(o), suffix@));
        },
        None => {
            assert(out@ =~= out@ + int_part(prefix@, crate::model::opt_int(o), suffix@));
        },
    }
}

fn push_window_head(out: &mut String, w: &LimitWindowStatus)
    ensures
        final(out)@ == old(out)@ + window_head(w@),
{
    let ghost s0 = out@;
    out.append("    ");
    match &w.label {
        Some(l) => out.append(l.as_str()),
        None => out.append(w.kind.as_str()),
    }
    out.append(": ");
    assert(out@ =~= s0 + window_head(w@));
}

fn push_resets(out: &mut String, o: &Option<String>)
    ensures
        final(out)@ == old(out)@ + (match crate::model::opt_text(*o) {
            Some(r) => "renova em "@ + r + ", "@,
            None => Seq::empty(),
        }),
{
    let ghost s0 = out@;
    match o {
        Some(r) => {
            out.append("renova em ");
            out.append(r.as_str());
            out.append(", ");
        },
        None => {},
    }
    assert(out@ =~= s0 + (match crate::model::opt_text(*o) {
        Some(r) => "renova em "@ + r + ", "@,
        None => Seq::empty(),
    }));
}

fn push_window(out: &mut String, w: &LimitWindowStatus)
    ensures
        final(out)@ == old(out)@ + window_text(w@),
{
    let ghost s0 = out@;
    push_window_head(out, w);
    push_percent_part(out, w.used_percent, "% usado, ");
    push_percent_part(out, w.remaining_percent, "% restante, ");
    push_int_part(out, "", w.remaining_amount, " restantes, ");
    push_int_part(out, "janela de ", w.window_minutes, " min, ");
    push_resets(out, &w.resets_at);
    push_int_part(out, "", w.milliseconds_until_reset, " ms para renovar");
    out.append("\n");
    proof {
        reveal_strlit("");
        assert(""@ =~= Seq::<char>::empty());
    }
    assert(out@ =~= s0 + window_text(w@));
}

fn push_limit_head(out: &mut String, l: &ModelLimit)
    ensures
        final(out)@ == old(out)@ + limit_head(l@),
{
    let ghost s0 = out@;
    out.append("  - ");
    match &l.model {
        Some(m) => out.append(m.as_str()),
        None => match &l.display_name {
            Some(d) => out.append(d.as_str()),
            None => out.append(l.id.as_str()),
        },
    }
    out.append(" (");
    out.append(l.id.as_str());
    out.append(")\n");
    assert(out@ =~= s0 + limit_head(l@));
}

fn push_name_part(out: &mut String, l: &ModelLimit)
    ensures
        final(out)@ == old(out)@ + name_part(l@),
{
    let ghost s0 = out@;
    match &l.display_name {
        Some(d) => {
            let same = match &l.model {
                Some(m) => crate::text::str_eq(d.as_str(), m.as_str()),
                None => false,
            };
            if !same {
                out.append("    name: ");
                out.append(d.as_str());
                out.append("\n");
            }
        },
        None => {},
    }
    assert(out@ =~= s0 + name_part(l@));
}

fn push_credits_line(out: &mut String, label: &str, o: &Option<CreditsStatus>)
    ensures
        final(out)@ == old(out)@ + credits_line(label@, crate::model::opt_credits(*o)),
{
    let ghost s0 = out@;
    match o {
        Some(c) => {
            out.append(label);
            let t = render_credits(c);
            out.append(t.as_str());
            out.append("\n");
        },
        None => {},
    }
    assert(out@ =~= s0 + credits_line(label@, crate::model::opt_credits(*o)));
}

fn push_windows(out: &mut String, ws_vec: &Vec<LimitWindowStatus>)
    ensures
        final(out)@ == old(out)@ + windows_text(ws_vec@.map_values(|w: LimitWindowStatus| w@)),
{
    let ghost d = out@;
    let ghost ws = ws_vec@.map_values(|w: LimitWindowStatus| w@);
    let mut i: usize = 0;
    assert(ws.take(0) =~= Seq::<WindowView>::empty());
    assert(out@ =~= d + windows_text(ws.take(0)));
    while i < ws_vec.len()
        invariant
            i <= ws_vec@.len(),
            ws == ws_vec@.map_values(|w: LimitWindowStatus| w@),
            out@ == d + windows_text(ws.take(i as int)),
        decreases ws_vec@.len() - i,
    {
        push_window(out, &ws_vec[i]);
        assert(ws.take(i + 1).drop_last() =~= ws.take(i as int));
        assert(out@ =~= d + windows_text(ws.take(i + 1)));
        i = i + 1;
    }
    assert(ws.take(ws_vec@.len() as int) =~= ws);
}

fn push_limit(out: &mut String, l: &ModelLimit)
    ensures
        final(out)@ == old(out)@ + limit_text(l@),
{
    let ghost s0 = out@;
    push_limit_head(out, l);
    push_name_part(out, l);
    push_opt_line(out, "    plan: ", &l.plan_type);
    push_credits_line(out, "    credits: ", &l.credits);
    push_windows(out, &l.windows);
    assert(out@ =~= s0 + limit_text(l@));
}

fn push_limits(out: &mut String, limits: &Vec<ModelLimit>)
    ensures
        final(out)@ == old(out)@ + limits_part(crate::model::limit_views(limits@)),
{
    let ghost s0 = out@;
    if limits.len() == 0 {
        out.append("  Limits: none reported\n");
    } else {
        out.append("  Limits:\n");
        let ghost s5 = out@;
        let ghost ls = crate::model::limit_views(limits@);
        let mut i: usize = 0;
        assert(ls.take(0) =~= Seq::<LimitView>::empty());
        assert(out@ =~= s5 + limits_text(ls.take(0)));
        while i < limits.len()
            invariant
                i <= limits@.len(),
                ls == crate::model::limit_views(limits@),
                out@ == s5 + limits_text(ls.take(i as int)),
            decreases limits@.len() - i,
        {
            push_limit(out, &limits[i]);
            assert(ls.take(i + 1).drop_last() =~= ls.take(i as int));
            assert(out@ =~= s5 + limits_text(ls.take(i + 1)));
            i = i + 1;
        }
        assert(ls.take(limits@.len() as int) =~= ls);
    }
    assert(out@ =~= s0 + limits_part(crate::model::limit_views(limits@)));
}

fn push_usage(out: &mut String, o: &Option<JsonValue>)
    ensures
        final(out)@ == old(out)@ + usage_part(crate::model::opt_json(*o)),
{
    let ghost s0 = out@;
    match o {
        Some(u) => {
            let is_null = match u {
                JsonValue::Null => true,
                _ => false,
            };
            if !is_null {
                out.append("  Usage summary: ");
                write_json(out, u);
                out.append("\n");
            }
        },
        None => {},
    }
    assert(out@ =~= s0 + usage_part(crate::model::opt_json(*o)));
}

fn push_provider_head(out: &mut String, p: &ProviderStatus)
    ensures
        final(out)@ == old(out)@ + provider_head(p@) + provider_details(p@),
{
    let ghost s0 = out@;
    out.append(p.name.as_str());
    out.append(" [");
    out.append(p.status.as_str());
    out.append("]\n");
    push_opt_line(out, "  CLI: ", &p.cli_version);
    push_opt_line(out, "  Account: ", &p.account);
    push_opt_line(out, "  Plan: ", &p.plan_type);
    push_opt_line(out, "  Tier: ", &p.tier);
    push_opt_line(out, "  Paid tier: ", &p.paid_tier);
    assert(out@ =~= s0 + provider_head(p@) + provider_details(p@));
}

#[verifier::spinoff_prover]
fn push_provider(out: &mut String, p: &ProviderStatus)
    ensures
        final(out)@ == old(out)@ + provider_text(p@),
{
    let ghost v = p@;
    let ghost s0 = out@;
    push_provider_head(out, p);
    let ghost s1 = out@;
    push_credits_line(out, "  Credits: ", &p.credits);
    let ghost s2 = out@;
    push_opt_line(out, "  Error: ", &p.error);
    let ghost s3 = out@;
    push_limits(out, &p.limits);
    let ghost s4 = out@;
    push_usage(out, &p.usage);
    proof {
        let h = provider_head(v) + provider_details(v);
        let c = credits_line("  Credits: "@, v.credits);
        let e = opt_line("  Error: "@, v.error);
        let l = limits_part(v.limits);
        let u = usage_part(v.usage);
        assert(s1 == s0 + h);
        assert(s2 == s1 + c);
        assert(s3 == s2 + e);
        assert(s4 == s3 + l);
        assert(out@ == s4 + u);
        assert(provider_text(v) == h + c + e + l + u);
        assert(out@ =~= s0 + (h + c + e + l + u));
    }
}

/// The human-readable report.
pub fn render_human_report(report: &Report) -> (r: String)
    ensures
        r@ == report_text(report@),
{
    let mut out = String::from_str("AI limits - ");
    out.append(report.generated_at.as_str());
    out.append("\n");
    let ghost s1 = out@;
    let mut rendered = false;
    match &report.codex {
        Some(codex) => {
            push_provider(&mut out, codex);
            rendered = true;
        },
        None => {},
    }
    let ghost s2 = out@;
    match &report.gemini {
        Some(gemini) => {
            if rendered {
                out.append("\n");
            }
            push_provider(&mut out, gemini);
            rendered = true;
        },
        None => {},
    }
    if !rendered {
        out.append("No providers selected\n");
    }
    assert(out@ =~= report_text(report@));
    out
}


/// Every field of a window that is present shows in its line: the reset
/// time after `renova em `, the minutes of the window after `janela de `,
/// and the milliseconds until the reset before ` ms para renovar`.
pub proof fn window_line_shows_its_fields(w: WindowView)
    ensures
        w.resets_at matches Some(r) ==> contains_text(window_text(w), "renova em "@ + r + ", "@),
        w.window_minutes matches Some(m) ==> contains_text(
            window_text(w),
            "janela de "@ + int_text(m) + " min, "@,
        ),
        w.milliseconds_until_reset matches Some(m) ==> contains_text(
            window_text(w),
            int_text(m) + " ms para renovar"@,
        ),
{
    let a = window_head(w) + percent_part(w.used_percent, "% usado, "@) + percent_part(
        w.remaining_percent,
        "% restante, "@,
    ) + int_part(Seq::empty(), w.remaining_amount, " restantes, "@);
    let b = int_part("janela de "@, w.window_minutes, " min, "@);
    let c = match w.resets_at {
        Some(r) => "renova em "@ + r + ", "@,
        None => Seq::empty(),
    };
    let d = int_part(Seq::empty(), w.milliseconds_until_reset, " ms para renovar"@);
    let t = window_text(w);
    assert(t =~= a + b + c + d + "\n"@);
    if w.window_minutes is Some {
        assert(t.subrange(a.len() as int, (a.len() + b.len()) as int) =~= b);
        assert(occurs_at(t, b, a.len() as int));
    }
    if w.resets_at is Some {
        assert(t.subrange((a.len() + b.len()) as int, (a.len() + b.len() + c.len()) as int) =~= c);
        assert(occurs_at(t, c, (a.len() + b.len()) as int));
    }
    if w.milliseconds_until_reset is Some {
        let k = (a.len() + b.len() + c.len()) as int;
        assert(t.subrange(k, k + d.len()) =~= d);
        assert(occurs_at(t, d, k));
        assert(d =~= Seq::<char>::empty() + int_text(w.milliseconds_until_reset->0) + " ms para renovar"@);
    }
}

} // verus!
