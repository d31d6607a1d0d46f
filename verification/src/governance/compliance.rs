//! The standards, formats and outcomes of compliance reports.

use vstd::prelude::*;
use crate::config::template_library::{replace_all, replace_all_text};
use crate::text::push_char;

verus! {

/// A standard a report checks against.
#[derive(Debug, Clone, Copy, PartialEq, Eq, Structural)]
pub enum ComplianceStandard {
    FDA,
    GDPR,
    CybersecurityLevel2,
    ISO27001,
    SOC2,
}

/// The format a report is written in.
#[derive(Debug, Clone, Copy, PartialEq, Eq, Structural)]
pub enum ReportFormat {
    PDF,
    HTML,
    JSON,
}

/// What a report is about.
#[derive(Debug, Clone, Copy, PartialEq, Eq, Structural)]
pub enum ReportType {
    SecurityAudit,
    DataGovernance,
    ComplianceCheck,
}

/// The outcome of one check.
#[derive(Debug, Clone, Copy, PartialEq, Eq, Structural)]
pub enum CheckStatus {
    Passed,
    Failed,
    Warning,
    NotApplicable,
}


/// The values of a report a template or an export may show, times already
/// written in RFC 3339.
#[derive(Debug, Clone)]
pub struct ReportText {
    pub id: String,
    pub name: String,
    pub description: String,
    pub content: String,
    pub generated_by: String,
    pub generated_at: String,
    pub period_start: Option<String>,
    pub period_end: Option<String>,
    pub signed_by: Option<String>,
    pub signed_at: Option<String>,
}

/// The text of an optional value.
pub open spec fn opt_chars(o: Option<String>) -> Option<Seq<char>> {
    match o {
        Some(s) => Some(s@),
        None => None,
    }
}

/// `t` with the placeholder replaced by the value when there is one.
pub open spec fn replace_opt(t: Seq<char>, pat: Seq<char>, v: Option<Seq<char>>) -> Seq<char> {
    match v {
        Some(x) => replace_all(t, pat, x),
        None => t,
    }
}

/// A report template filled in: each of `{{report_id}}`,
/// `{{report_name}}`, `{{report_description}}`, `{{generated_by}}` and
/// `{{generated_at}}` replaced everywhere, in that order, then the period's
/// start and end where the report has them.
pub open spec fn rendered(t: Seq<char>, r: ReportText) -> Seq<char> {
    let a = replace_all(t, "{{report_id}}"@, r.id@);
    let b = replace_all(a, "{{report_name}}"@, r.name@);
    let c = replace_all(b, "{{report_description}}"@, r.description@);
    let d = replace_all(c, "{{generated_by}}"@, r.generated_by@);
    let e = replace_all(d, "{{generated_at}}"@, r.generated_at@);
    let f = replace_opt(e, "{{period_start}}"@, opt_chars(r.period_start));
    replace_opt(f, "{{period_end}}"@, opt_chars(r.period_end))
}

fn replace_opt_text(t: String, pat: &str, v: &Option<String>) -> (r: String)
    requires
        pat@.len() > 0,
    ensures
        r@ == replace_opt(t@, pat@, opt_chars(*v)),
{
    match v {
        Some(x) => replace_all_text(t.as_str(), pat, x.as_str()),
        None => t,
    }
}

/// Fills a report template in with the report's values.
pub fn render_template(template: &str, report: &ReportText) -> (r: String)
    ensures
        r@ == rendered(template@, *report),
{
    proof {
        reveal_strlit("{{report_id}}");
        reveal_strlit("{{report_name}}");
        reveal_strlit("{{report_description}}");
        reveal_strlit("{{generated_by}}");
        reveal_strlit("{{generated_at}}");
        reveal_strlit("{{period_start}}");
        reveal_strlit("{{period_end}}");
    }
    let a = replace_all_text(template, "{{report_id}}", report.id.as_str());
    let b = replace_all_text(a.as_str(), "{{report_name}}", report.name.as_str());
    let c = replace_all_text(b.as_str(), "{{report_description}}", report.description.as_str());
    let d = replace_all_text(c.as_str(), "{{generated_by}}", report.generated_by.as_str());
    let e = replace_all_text(d.as_str(), "{{generated_at}}", report.generated_at.as_str());
    let f = replace_opt_text(e, "{{period_start}}", &report.period_start);
    replace_opt_text(f, "{{period_end}}", &report.period_end)
}

/// A character as HTML shows it in a report: `&`, `<` and `>` escaped,
/// a line break as `<br>`.
pub open spec fn html_char(c: char) -> Seq<char> {
    if c == '&' {
        "&amp;"@
    } else if c == '<' {
        "&lt;"@
    } else if c == '>' {
        "&gt;"@
    } else if c == '\n' {
        "<br>"@
    } else {
        seq![c]
    }
}

/// A text as HTML shows it in a report, character by character.
pub open spec fn html_escaped(s: Seq<char>) -> Seq<char>
    decreases s.len(),
{
    if s.len() == 0 {
        Seq::empty()
    } else {
        html_escaped(s.drop_last()) + html_char(s.last())
    }
}

fn html_escape(s: &str) -> (r: String)
    ensures
        r@ == html_escaped(s@),
{
    let n = s.unicode_len();
    let mut r = String::new();
    let mut i: usize = 0;
    while i < n
        invariant
            n == s@.len(),
            i <= n,
            r@ == html_escaped(s@.take(i as int)),
        decreases n - i,
    {
        let c = s.get_char(i);
        proof {
            assert(s@.take(i as int + 1).drop_last() =~= s@.take(i as int));
            assert(s@.take(i as int + 1).last() == c);
        }
        if c == '&' {
            r.append("&amp;");
        } else if c == '<' {
            r.append("&lt;");
        } else if c == '>' {
            r.append("&gt;");
        } else if c == '\n' {
            r.append("<br>");
        } else {
            let ghost before = r@;
            push_char(&mut r, c);
            assert(r@ =~= before + seq![c]);
        }
        i = i + 1;
    }
    assert(s@.take(n as int) =~= s@);
    r
}

/// The signature block of an exported report: signer and signing time
/// (`N/A` when unknown); nothing for an unsigned report.
pub open spec fn html_signature(r: ReportText) -> Seq<char> {
    match r.signed_by {
        Some(signer) => "<div class=\"signature\">\n                        <p><strong>Signed By:</strong> "@ + signer@ + "</p>\n                        <p><strong>Signed At:</strong> "@ + match r.signed_at {
            Some(t) => t@,
            None => "N/A"@,
        } + "</p>\n                    </div>"@,
        None => Seq::empty(),
    }
}

/// A report exported as an HTML page: its name as title and heading, who
/// made it and when, its content escaped, and its signature.
pub open spec fn report_html(r: ReportText) -> Seq<char> {
    "<!DOCTYPE html>\n<html>\n<head>\n    <title>"@ + r.name@ + "</title>\n    <style>\n        body { font-family: Arial, sans-serif; margin: 40px; }\n        h1 { color: #2c3e50; }\n        .report-header { background: #f8f9fa; padding: 20px; border-radius: 5px; margin-bottom: 20px; }\n        .report-content { line-height: 1.6; }\n        .signature { margin-top: 40px; border-top: 1px solid #eee; padding-top: 20px; }\n    </style>\n</head>\n<body>\n    <div class=\"report-header\">\n        <h1>"@ + r.name@ + "</h1>\n        <p><strong>Generated By:</strong> "@ + r.generated_by@
        + "</p>\n        <p><strong>Generated At:</strong> "@ + r.generated_at@ + "</p>\n    </div>\n    <div class=\"report-content\">\n        "@ + html_escaped(r.content@)
        + "\n    </div>\n    "@ + html_signature(r) + "\n</body>\n</html>"@
}

/// Exports a report as an HTML page.
pub fn export_to_html(report: &ReportText) -> (r: String)
    ensures
        r@ == report_html(*report),
{
    let mut h = String::from_str("<!DOCTYPE html>\n<html>\n<head>\n    <title>");
    h.append(report.name.as_str());
    h.append("</title>\n    <style>\n        body { font-family: Arial, sans-serif; margin: 40px; }\n        h1 { color: #2c3e50; }\n        .report-header { background: #f8f9fa; padding: 20px; border-radius: 5px; margin-bottom: 20px; }\n        .report-content { line-height: 1.6; }\n        .signature { margin-top: 40px; border-top: 1px solid #eee; padding-top: 20px; }\n    </style>\n</head>\n<body>\n    <div class=\"report-header\">\n        <h1>");
    h.append(report.name.as_str());
    h.append("</h1>\n        <p><strong>Generated By:</strong> ");
    h.append(report.generated_by.as_str());
    h.append("</p>\n        <p><strong>Generated At:</strong> ");
    h.append(report.generated_at.as_str());
    h.append("</p>\n    </div>\n    <div class=\"report-content\">\n        ");
    let escaped = html_escape(report.content.as_str());
    h.append(escaped.as_str());
    h.append("\n    </div>\n    ");
    match &report.signed_by {
        Some(signer) => {
            h.append("<div class=\"signature\">\n                        <p><strong>Signed By:</strong> ");
            h.append(signer.as_str());
            h.append("</p>\n                        <p><strong>Signed At:</strong> ");
            match &report.signed_at {
                Some(t) => h.append(t.as_str()),
                None => h.append("N/A"),
            }
            h.append("</p>\n                    </div>");
        },
        None => {},
    }
    h.append("\n</body>\n</html>");
    h
}

} // verus!
