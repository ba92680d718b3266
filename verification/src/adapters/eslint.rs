//! ESLint's JSON report.
use vstd::prelude::*;

use crate::adapters::{canonical_of, ParsedDiagnostics};
use crate::json::{array_of, field, field_str, field_u32, get_str, get_u32, str_of, u64_of, JsonValue, severity_of};
use crate::matching::AliasTable;
use crate::model::{opt_view, spec_fingerprint, Diagnostic, DiagnosticData, Fix, Severity, Span, Tool};
use crate::paths::{normalize_path, spec_normalize_path};
use crate::text::{owned, trim_seq};

verus! {

/// The path that an ESLint result names.
pub open spec fn report_path(report: JsonValue) -> Seq<char> {
    match field_str(report, "filePath"@) {
        Some(p) => p,
        None => "<unknown>"@,
    }
}

/// The messages of an ESLint result, when it has a `messages` array.
pub open spec fn report_messages(report: JsonValue) -> Option<Seq<JsonValue>> {
    match field(report, "messages"@) {
        Some(m) => array_of(m),
        None => None,
    }
}

/// Every message of the results, with the path of its result.
pub open spec fn eslint_entries(reports: Seq<JsonValue>) -> Seq<(Seq<char>, JsonValue)>
    decreases reports.len(),
{
    if reports.len() == 0 {
        Seq::empty()
    } else {
        let last = reports.last();
        eslint_entries(reports.drop_last()) + report_messages(last).unwrap_or(Seq::empty()).map_values(
            |m: JsonValue| (report_path(last), m),
        )
    }
}

/// The span of an ESLint message: its line and column (1 when absent), when it
/// has a line.
pub open spec fn line_span(m: JsonValue) -> Option<Span> {
    match field_u32(m, "line"@) {
        Some(line) => Some(
            Span {
                start_line: line,
                start_column: field_u32(m, "column"@).unwrap_or(1),
                end_line: field_u32(m, "endLine"@),
                end_column: field_u32(m, "endColumn"@),
            },
        ),
        None => None,
    }
}

/// The element `i` of an array value.
pub open spec fn element_u64(v: Option<JsonValue>, i: int) -> Option<u64> {
    match v {
        Some(x) => match array_of(x) {
            Some(items) => if 0 <= i < items.len() {
                u64_of(items[i])
            } else {
                None
            },
            None => None,
        },
        None => None,
    }
}

/// The fix of an ESLint message: the range ends and the replacement text, when it
/// has a `fix` member.
pub open spec fn fix_view(f: Option<Fix>) -> Option<(Option<u64>, Option<u64>, Option<Seq<char>>)> {
    match f {
        Some(x) => Some((x.start, x.end, opt_view(x.replacement))),
        None => None,
    }
}

/// The fix that an ESLint message describes.
pub open spec fn message_fix(m: JsonValue) -> Option<(Option<u64>, Option<u64>, Option<Seq<char>>)> {
    match field(m, "fix"@) {
        Some(f) => Some((element_u64(field(f, "range"@), 0), element_u64(field(f, "range"@), 1), field_str(f, "text"@))),
        None => None,
    }
}

/// The diagnostic that an ESLint message at `path` gives.
pub open spec fn describes_eslint(
    d: Diagnostic,
    path: Seq<char>,
    m: JsonValue,
    root: Seq<char>,
    aliases: AliasTable,
) -> bool {
    let code = field_str(m, "ruleId"@);
    &&& d.tool == Tool::Eslint
    &&& d.path@ == spec_normalize_path(root, path)
    &&& opt_view(d.code) == code
    &&& opt_view(d.canonical_code) == canonical_of(aliases, code)
    &&& d.severity == severity_of(field(m, "severity"@).unwrap_or(JsonValue::Null))
    &&& d.message@ == field_str(m, "message"@).unwrap_or("ESLint diagnostic"@)
    &&& d.span == line_span(m)
    &&& fix_view(d.fix) == message_fix(m)
    &&& d.fingerprint@ == spec_fingerprint(d)
}

fn parse_line_span(m: &JsonValue) -> (r: Option<Span>)
    ensures
        r == line_span(*m),
{
    match get_u32(m, "line") {
        Some(start_line) => Some(
            Span {
                start_line,
                start_column: match get_u32(m, "column") {
                    Some(c) => c,
                    None => 1,
                },
                end_line: get_u32(m, "endLine"),
                end_column: get_u32(m, "endColumn"),
            },
        ),
        None => None,
    }
}

fn element_of(v: Option<&JsonValue>, i: usize) -> (r: Option<u64>)
    ensures
        r == element_u64(match v {
            Some(x) => Some(*x),
            None => None,
        }, i as int),
{
    match v {
        Some(x) => match x.as_array() {
            Some(items) => if i < items.len() {
                items[i].as_u64()
            } else {
                None
            },
            None => None,
        },
        None => None,
    }
}

fn parse_fix(m: &JsonValue) -> (r: Option<Fix>)
    ensures
        fix_view(r) == message_fix(*m),
{
    match m.get("fix") {
        Some(f) => {
            let range = f.get("range");
            Some(
                Fix {
                    start: element_of(range, 0),
                    end: element_of(range, 1),
                    replacement: match get_str(f, "text") {
                        Some(t) => Some(owned(t)),
                        None => None,
                    },
                },
            )
        },
        None => None,
    }
}

/// The diagnostic of one ESLint message.
fn convert(m: &JsonValue, path: &str, root: &str, aliases: &AliasTable) -> (r: Diagnostic)
    ensures
        describes_eslint(r, path@, *m, root@, *aliases),
{
    let code = match get_str(m, "ruleId") {
        Some(c) => Some(owned(c)),
        None => None,
    };
    let canonical_code = match &code {
        Some(c) => Some(aliases.canonicalize(c.as_str())),
        None => None,
    };
    let severity = match m.get("severity") {
        Some(v) => Severity::from_value(v),
        None => Severity::from_value(&JsonValue::Null),
    };
    let message = match get_str(m, "message") {
        Some(t) => owned(t),
        None => owned("ESLint diagnostic"),
    };
    let normalized = normalize_path(root, path);
    Diagnostic::new(
        Tool::Eslint,
        normalized.as_str(),
        DiagnosticData { code, canonical_code, severity, message, span: parse_line_span(m), fix: parse_fix(m) },
    )
}

/// Reads ESLint's JSON report. `source` is the report's text and `reports` what it
/// parses to as a list of JSON values. Blank output yields no diagnostics and a
/// warning; a parse error, or a result without a `messages` array, is an error.
pub fn read_reports(
    source: &str,
    reports: Result<Vec<JsonValue>, String>,
    root: &str,
    aliases: &AliasTable,
) -> (r: Result<ParsedDiagnostics, String>)
    ensures
        trim_seq(source@).len() == 0 ==> (r matches Ok(p) && p.diagnostics@.len() == 0 && crate::paths::views(p.warnings@) == seq!["ESLint produced empty JSON output"@]),
        trim_seq(source@).len() > 0 ==> match reports {
            Err(e) => (r matches Err(x) && x@ == e@),
            Ok(rs) => if forall|i: int| 0 <= i < rs@.len() ==> (#[trigger] report_messages(rs@[i])) is Some {
                (r matches Ok(p) && p.warnings@.len() == 0 && p.diagnostics@.len() == eslint_entries(rs@).len() && forall|k: int|
                    0 <= k < p.diagnostics@.len() ==> describes_eslint(
                        #[trigger] p.diagnostics@[k],
                        eslint_entries(rs@)[k].0,
                        eslint_entries(rs@)[k].1,
                        root@,
                        *aliases,
                    ))
            } else {
                (r matches Err(x) && x@ == "ESLint result is missing `messages`"@)
            },
        },
{
    if crate::text::is_blank(source) {
        let mut warnings: Vec<String> = Vec::new();
        warnings.push(owned("ESLint produced empty JSON output"));
        proof {
            assert(crate::paths::views(warnings@) =~= seq!["ESLint produced empty JSON output"@]);
        }
        return Ok(ParsedDiagnostics { diagnostics: Vec::new(), warnings });
    }
    let items: &Vec<JsonValue> = match &reports {
        Ok(rs) => rs,
        Err(e) => return Err(e.clone()),
    };
    let ghost rs = items@;
    let mut diagnostics: Vec<Diagnostic> = Vec::new();
    let mut i: usize = 0;
    while i < items.len()
        invariant
            0 <= i <= rs.len(),
            rs == items@,
            trim_seq(source@).len() > 0,
            reports matches Ok(v) && v@ == rs,
            forall|j: int| 0 <= j < i ==> (#[trigger] report_messages(rs[j])) is Some,
            diagnostics@.len() == eslint_entries(rs.take(i as int)).len(),
            forall|k: int| 0 <= k < diagnostics@.len() ==> describes_eslint(
                #[trigger] diagnostics@[k],
                eslint_entries(rs.take(i as int))[k].0,
                eslint_entries(rs.take(i as int))[k].1,
                root@,
                *aliases,
            ),
        decreases rs.len() - i,
    {
        let report = &items[i];
        let path = match get_str(report, "filePath") {
            Some(p) => owned(p),
            None => owned("<unknown>"),
        };
        let messages = match report.get("messages") {
            Some(m) => match m.as_array() {
                Some(items) => items,
                None => {
                    proof {
                        assert(report_messages(rs[i as int]) is None);
                        assert(reports matches Ok(v) && report_messages(v@[i as int]) is None);
                    }
                    return Err(owned("ESLint result is missing `messages`"));
                },
            },
            None => {
                proof {
                    assert(report_messages(rs[i as int]) is None);
                    assert(reports matches Ok(v) && report_messages(v@[i as int]) is None);
                }
                return Err(owned("ESLint result is missing `messages`"));
            },
        };
        let ghost prefix = eslint_entries(rs.take(i as int));
        let ghost before = diagnostics@;
        proof {
            assert(rs.take(i + 1).drop_last() =~= rs.take(i as int));
            assert(rs.take(i + 1).last() == *report);
        }
        let mut j: usize = 0;
        while j < messages.len()
            invariant
                0 <= j <= messages@.len(),
                diagnostics@.len() == before.len() + j,
                before.len() == prefix.len(),
                forall|k: int| 0 <= k < before.len() ==> diagnostics@[k] == before[k],
                forall|k: int| 0 <= k < before.len() ==> describes_eslint(
                    #[trigger] before[k],
                    prefix[k].0,
                    prefix[k].1,
                    root@,
                    *aliases,
                ),
                forall|k: int| 0 <= k < j ==> describes_eslint(
                    #[trigger] diagnostics@[before.len() + k],
                    path@,
                    messages@[k],
                    root@,
                    *aliases,
                ),
            decreases messages.len() - j,
        {
            let d = convert(&messages[j], path.as_str(), root, aliases);
            diagnostics.push(d);
            j = j + 1;
        }
        proof {
            let all = eslint_entries(rs.take(i + 1));
            let tail = messages@.map_values(|m: JsonValue| (report_path(*report), m));
            assert(report_messages(*report) == Some(messages@));
            assert(all =~= prefix + tail);
            assert(path@ == report_path(*report));
            assert forall|k: int| 0 <= k < diagnostics@.len() implies describes_eslint(
                #[trigger] diagnostics@[k],
                all[k].0,
                all[k].1,
                root@,
                *aliases,
            ) by {
                if k >= before.len() {
                    assert(all[k] == tail[k - before.len()]);
                    assert(diagnostics@[before.len() + (k - before.len())] == diagnostics@[k]);
                } else {
                    assert(all[k] == prefix[k]);
                    assert(diagnostics@[k] == before[k]);
                }
            }
        }
        i = i + 1;
    }
    proof {
        assert(rs.take(rs.len() as int) =~= rs);
    }
    Ok(ParsedDiagnostics { diagnostics, warnings: Vec::new() })
}


/// What reading the report text `source` gives (see `parse`).
pub open spec fn parsed_report(source: Seq<char>, root: Seq<char>, aliases: AliasTable, r: Result<ParsedDiagnostics, String>) -> bool {
    &&& trim_seq(source).len() == 0 ==> (r matches Ok(p) && p.diagnostics@.len() == 0 && crate::paths::views(p.warnings@) == seq!["ESLint produced empty JSON output"@])
    &&& trim_seq(source).len() > 0 ==> match crate::json::json_list(source) {
        Err(e) => (r matches Err(x) && x@ == e),
        Ok(rs) => if forall|i: int| 0 <= i < rs.len() ==> (#[trigger] report_messages(rs[i])) is Some {
            (r matches Ok(p) && p.warnings@.len() == 0 && p.diagnostics@.len() == eslint_entries(rs).len() && forall|k: int|
                0 <= k < p.diagnostics@.len() ==> describes_eslint(
                    #[trigger] p.diagnostics@[k],
                    eslint_entries(rs)[k].0,
                    eslint_entries(rs)[k].1,
                    root,
                    aliases,
                ))
        } else {
            (r matches Err(x) && x@ == "ESLint result is missing `messages`"@)
        }
    }
}

/// Reads ESLint's JSON report from its text, parsed as a list of JSON values (see
/// `read_reports`): blank output yields no diagnostics and a warning; a parse
/// error, or a result without a `messages` array, is an error.
pub fn parse(source: &str, root: &str, aliases: &AliasTable) -> (r: Result<ParsedDiagnostics, String>)
    ensures
        parsed_report(source@, root@, *aliases, r),
{
    let reports = if crate::text::is_blank(source) {
        Ok(Vec::new())
    } else {
        crate::json::parse_json_list(source)
    };
    read_reports(source, reports, root, aliases)
}

} // verus!
