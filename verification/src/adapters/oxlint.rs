//! Oxlint's JSON report.
use vstd::prelude::*;

use crate::adapters::{canonical_of, offset_position, position_of, ParsedDiagnostics};
use crate::json::{array_of, field, field_str, field_u32, field_u64, get_str, get_u32, get_u64, has_field, str_of, JsonValue, severity_of};
use crate::matching::AliasTable;
use crate::model::{opt_view, spec_fingerprint, Diagnostic, DiagnosticData, Severity, Span, Tool};
use crate::paths::{normalize_path, spec_normalize_path};
use crate::text::{owned, str_eq, trim_seq};

verus! {

/// The path that an object names itself, else the one it inherits.
pub open spec fn object_path(v: JsonValue, inherited: Option<Seq<char>>) -> Option<Seq<char>> {
    let own = match field(v, "filePath"@) {
        Some(x) => Some(x),
        None => field(v, "filename"@),
    };
    match own {
        Some(x) => match str_of(x) {
            Some(p) => Some(p),
            None => inherited,
        },
        None => inherited,
    }
}

/// The array member `key`, when there is one.
pub open spec fn field_array(v: JsonValue, key: Seq<char>) -> Option<Seq<JsonValue>> {
    match field(v, key) {
        Some(x) => array_of(x),
        None => None,
    }
}

/// The diagnostics in a report value, each with the path it belongs to: arrays are
/// walked in order; an object contributes its `messages`, else its `diagnostics`,
/// else itself when it has a message and a rule.
pub open spec fn oxlint_entries(v: JsonValue, inherited: Option<Seq<char>>) -> Seq<(JsonValue, Option<Seq<char>>)>
    decreases v,
{
    match v {
        JsonValue::Array(items) => oxlint_entries_list(items@, inherited),
        JsonValue::Object(_) => {
            let path = object_path(v, inherited);
            match field_array(v, "messages"@) {
                Some(ms) => ms.map_values(|m: JsonValue| (m, path)),
                None => match field_array(v, "diagnostics"@) {
                    Some(ds) => ds.map_values(|m: JsonValue| (m, path)),
                    None => if has_field(v, "message"@) && (has_field(v, "code"@) || has_field(v, "ruleId"@)) {
                        seq![(v, path)]
                    } else {
                        Seq::empty()
                    },
                },
            }
        },
        _ => Seq::empty(),
    }
}

/// The diagnostics of the values of a list, in order.
pub open spec fn oxlint_entries_list(items: Seq<JsonValue>, inherited: Option<Seq<char>>) -> Seq<(JsonValue, Option<Seq<char>>)>
    decreases items,
{
    if items.len() == 0 {
        Seq::empty()
    } else {
        oxlint_entries_list(items.subrange(0, items.len() - 1), inherited) + oxlint_entries(items[items.len() - 1], inherited)
    }
}

/// The rule ID of an Oxlint diagnostic: `code`, else `ruleId`, as a string or the
/// `name` of an object.
pub open spec fn oxlint_code(v: JsonValue) -> Option<Seq<char>> {
    let raw = match field(v, "code"@) {
        Some(x) => Some(x),
        None => field(v, "ruleId"@),
    };
    match raw {
        Some(x) => match str_of(x) {
            Some(s) => Some(s),
            None => field_str(x, "name"@),
        },
        None => None,
    }
}

/// The path of an Oxlint diagnostic as reported.
pub open spec fn oxlint_raw_path(v: JsonValue, inherited: Option<Seq<char>>) -> Seq<char> {
    let own = match field(v, "filename"@) {
        Some(x) => Some(x),
        None => field(v, "filePath"@),
    };
    let p = match own {
        Some(x) => match str_of(x) {
            Some(s) => Some(s),
            None => inherited,
        },
        None => inherited,
    };
    p.unwrap_or("<unknown>"@)
}

/// The span object of an Oxlint diagnostic: the first label's, else its own.
pub open spec fn span_value(v: JsonValue) -> Option<JsonValue> {
    let labelled = match field_array(v, "labels"@) {
        Some(labels) => if labels.len() > 0 {
            field(labels[0], "span"@)
        } else {
            None
        },
        None => None,
    };
    match labelled {
        Some(s) => Some(s),
        None => field(v, "span"@),
    }
}

/// The span of an Oxlint diagnostic, from line numbers when it has them, else from
/// byte offsets into the source text, when that is known.
pub open spec fn oxlint_span(v: JsonValue, source: Option<Seq<char>>) -> Option<Span> {
    match field_u32(v, "line"@) {
        Some(line) => Some(Span {
            start_line: line,
            start_column: field_u32(v, "column"@).unwrap_or(1),
            end_line: field_u32(v, "endLine"@),
            end_column: field_u32(v, "endColumn"@),
        }),
        None => match span_value(v) {
            None => None,
            Some(span) => match field_u32(span, "line"@) {
                Some(line) => {
                    let end = match (source, field_u64(span, "offset"@), field_u64(span, "length"@)) {
                        (Some(s), Some(o), Some(l)) => Some(position_of(s, o as int + l as int)),
                        _ => None,
                    };
                    Some(Span {
                        start_line: line,
                        start_column: field_u32(span, "column"@).unwrap_or(1),
                        end_line: match field_u32(span, "endLine"@) {
                            Some(x) => Some(x),
                            None => match end {
                                Some(e) => Some(e.0),
                                None => None,
                            },
                        },
                        end_column: match field_u32(span, "endColumn"@) {
                            Some(x) => Some(x),
                            None => match end {
                                Some(e) => Some(e.1),
                                None => None,
                            },
                        },
                    })
                },
                None => match (source, field_u64(span, "offset"@)) {
                    (Some(s), Some(o)) => {
                        let l = field_u64(span, "length"@).unwrap_or(0);
                        let start = position_of(s, o as int);
                        let end = position_of(s, o as int + l as int);
                        Some(Span { start_line: start.0, start_column: start.1, end_line: Some(end.0), end_column: Some(end.1) })
                    },
                    _ => None,
                },
            },
        },
    }
}

/// The diagnostic that an Oxlint entry gives, with `source` the text of its file
/// when it could be read.
pub open spec fn describes_oxlint(
    d: Diagnostic,
    v: JsonValue,
    inherited: Option<Seq<char>>,
    source: Option<Seq<char>>,
    root: Seq<char>,
    aliases: AliasTable,
) -> bool {
    let code = oxlint_code(v);
    &&& d.tool == Tool::Oxlint
    &&& d.path@ == spec_normalize_path(root, oxlint_raw_path(v, inherited))
    &&& opt_view(d.code) == code
    &&& opt_view(d.canonical_code) == canonical_of(aliases, code)
    &&& d.severity == severity_of(field(v, "severity"@).unwrap_or(JsonValue::Null))
    &&& d.message@ == field_str(v, "message"@).unwrap_or("Oxlint diagnostic"@)
    &&& d.span == oxlint_span(v, source)
    &&& d.fix is None
    &&& d.fingerprint@ == spec_fingerprint(d)
}

/// The plain values of collected entries.
pub open spec fn entry_views(s: Seq<(&JsonValue, Option<&str>)>) -> Seq<(JsonValue, Option<Seq<char>>)> {
    s.map_values(|e: (&JsonValue, Option<&str>)| (*e.0, crate::capabilities::opt_str_view(e.1)))
}

fn push_entries<'a>(items: &'a Vec<JsonValue>, path: Option<&'a str>, output: &mut Vec<(&'a JsonValue, Option<&'a str>)>)
    ensures
        entry_views(final(output)@) == entry_views(old(output)@) + items@.map_values(
            |m: JsonValue| (m, crate::capabilities::opt_str_view(path)),
        ),
{
    let ghost start = entry_views(output@);
    let mut j: usize = 0;
    while j < items.len()
        invariant
            0 <= j <= items@.len(),
            entry_views(output@) == start + items@.take(j as int).map_values(
                |m: JsonValue| (m, crate::capabilities::opt_str_view(path)),
            ),
        decreases items.len() - j,
    {
        let ghost before = output@;
        output.push((&items[j], path));
        proof {
            assert(output@ =~= before.push((&items[j as int], path)));
            assert(entry_views(output@) =~= entry_views(before).push((items@[j as int], crate::capabilities::opt_str_view(path))));
            assert(items@.take(j + 1).map_values(|m: JsonValue| (m, crate::capabilities::opt_str_view(path))) =~= items@.take(j as int).map_values(|m: JsonValue| (m, crate::capabilities::opt_str_view(path))).push((items@[j as int], crate::capabilities::opt_str_view(path))));
            assert(entry_views(output@) =~= start + items@.take(j + 1).map_values(|m: JsonValue| (m, crate::capabilities::opt_str_view(path))));
        }
        j = j + 1;
    }
    proof {
        assert(items@.take(items@.len() as int) =~= items@);
    }
}

/// Collects the diagnostics of a report value with the paths they belong to.
fn collect_entries<'a>(value: &'a JsonValue, inherited: Option<&'a str>, output: &mut Vec<(&'a JsonValue, Option<&'a str>)>)
    ensures
        entry_views(final(output)@) == entry_views(old(output)@) + oxlint_entries(*value, crate::capabilities::opt_str_view(inherited)),
    decreases value,
{
    let ghost inh = crate::capabilities::opt_str_view(inherited);
    match value {
        JsonValue::Array(values) => {
            let ghost start = entry_views(output@);
            let mut j: usize = 0;
            while j < values.len()
                invariant
                    0 <= j <= values@.len(),
                    *value == JsonValue::Array(*values),
                    inh == crate::capabilities::opt_str_view(inherited),
                    entry_views(output@) == start + oxlint_entries_list(values@.take(j as int), inh),
                decreases values.len() - j,
            {
                proof {
                    assert(values@.take(j + 1).subrange(0, j as int) =~= values@.take(j as int));
                    assert(values@.take(j + 1)[j as int] == values@[j as int]);
                    assert(decreases_to!(*value => (*value)->Array_0));
                    assert((*value)->Array_0 == *values);
                    assert(decreases_to!(*values => values@));
                    assert(decreases_to!(values@ => values@[j as int]));
                }
                collect_entries(&values[j], inherited, output);
                j = j + 1;
            }
            proof {
                assert(values@.take(values@.len() as int) =~= values@);
            }
        },
        JsonValue::Object(_) => {
            let own = match value.get("filePath") {
                Some(x) => Some(x),
                None => value.get("filename"),
            };
            let path: Option<&'a str> = match own {
                Some(x) => match x.as_str() {
                    Some(p) => Some(p),
                    None => inherited,
                },
                None => inherited,
            };
            proof {
                assert(crate::capabilities::opt_str_view(path) == object_path(*value, inh));
            }
            let messages = match value.get("messages") {
                Some(m) => m.as_array(),
                None => None,
            };
            match messages {
                Some(items) => {
                    push_entries(items, path, output);
                },
                None => {
                    let diagnostics = match value.get("diagnostics") {
                        Some(d) => d.as_array(),
                        None => None,
                    };
                    match diagnostics {
                        Some(items) => {
                            push_entries(items, path, output);
                        },
                        None => {
                            let ghost before = entry_views(output@);
                            if value.get("message").is_some() && (value.get("code").is_some() || value.get("ruleId").is_some()) {
                                output.push((value, path));
                                proof {
                                    assert(entry_views(output@) =~= before + seq![(*value, object_path(*value, inh))]);
                                }
                            } else {
                                proof {
                                    assert(entry_views(output@) =~= before + Seq::<(JsonValue, Option<Seq<char>>)>::empty());
                                }
                            }
                        },
                    }
                },
            }
        },
        _ => {
            proof {
                assert(entry_views(output@) =~= entry_views(old(output)@) + Seq::<(JsonValue, Option<Seq<char>>)>::empty());
            }
        },
    }
}

/// The text of the first source whose key is `key`.
pub open spec fn source_text(sources: Seq<(String, String)>, key: Seq<char>) -> Option<Seq<char>>
    decreases sources.len(),
{
    if sources.len() == 0 {
        None
    } else if sources[0].0@ == key {
        Some(sources[0].1@)
    } else {
        source_text(sources.drop_first(), key)
    }
}

/// The file whose text an Oxlint diagnostic's offsets refer to.
pub open spec fn source_key(root: Seq<char>, v: JsonValue, inherited: Option<Seq<char>>) -> Seq<char> {
    crate::capabilities::join_path(root, oxlint_raw_path(v, inherited))
}

/// The text of the source whose key is `key`.
fn find_source<'a>(sources: &'a Vec<(String, String)>, key: &str) -> (r: Option<&'a str>)
    ensures
        crate::capabilities::opt_str_view(r) == source_text(sources@, key@),
{
    let mut i: usize = 0;
    proof {
        assert(sources@.subrange(0, sources@.len() as int) =~= sources@);
    }
    while i < sources.len()
        invariant
            0 <= i <= sources@.len(),
            source_text(sources@, key@) == source_text(sources@.subrange(i as int, sources@.len() as int), key@),
        decreases sources.len() - i,
    {
        proof {
            let rest = sources@.subrange(i as int, sources@.len() as int);
            assert(rest.drop_first() =~= sources@.subrange(i + 1, sources@.len() as int));
            assert(rest[0] == sources@[i as int]);
        }
        if str_eq(sources[i].0.as_str(), key) {
            return Some(sources[i].1.as_str());
        }
        i = i + 1;
    }
    None
}

fn code_of(v: &JsonValue) -> (r: Option<String>)
    ensures
        opt_view(r) == oxlint_code(*v),
{
    let raw = match v.get("code") {
        Some(x) => Some(x),
        None => v.get("ruleId"),
    };
    match raw {
        Some(x) => match x.as_str() {
            Some(s) => Some(owned(s)),
            None => match get_str(x, "name") {
                Some(s) => Some(owned(s)),
                None => None,
            },
        },
        None => None,
    }
}

fn raw_path_of<'a>(v: &'a JsonValue, inherited: Option<&'a str>) -> (r: &'a str)
    ensures
        r@ == oxlint_raw_path(*v, crate::capabilities::opt_str_view(inherited)),
{
    let own = match v.get("filename") {
        Some(x) => Some(x),
        None => v.get("filePath"),
    };
    let p = match own {
        Some(x) => match x.as_str() {
            Some(s) => Some(s),
            None => inherited,
        },
        None => inherited,
    };
    match p {
        Some(s) => s,
        None => "<unknown>",
    }
}

fn span_value_of(v: &JsonValue) -> (r: Option<&JsonValue>)
    ensures
        match r {
            Some(x) => span_value(*v) == Some(*x),
            None => span_value(*v) is None,
        },
{
    let labels = match v.get("labels") {
        Some(l) => l.as_array(),
        None => None,
    };
    let labelled = match labels {
        Some(items) => if items.len() > 0 {
            items[0].get("span")
        } else {
            None
        },
        None => None,
    };
    match labelled {
        Some(s) => Some(s),
        None => v.get("span"),
    }
}

fn or_u32(a: Option<u32>, b: Option<u32>) -> (r: Option<u32>)
    ensures
        r == match a {
            Some(x) => Some(x),
            None => b,
        },
{
    match a {
        Some(x) => Some(x),
        None => b,
    }
}

fn parse_span(v: &JsonValue, source: Option<&str>) -> (r: Option<Span>)
    ensures
        r == oxlint_span(*v, crate::capabilities::opt_str_view(source)),
{
    if let Some(line) = get_u32(v, "line") {
        return Some(Span {
            start_line: line,
            start_column: match get_u32(v, "column") {
                Some(c) => c,
                None => 1,
            },
            end_line: get_u32(v, "endLine"),
            end_column: get_u32(v, "endColumn"),
        });
    }
    let span = match span_value_of(v) {
        Some(s) => s,
        None => return None,
    };
    if let Some(line) = get_u32(span, "line") {
        let end: Option<(u32, u32)> = match (source, get_u64(span, "offset"), get_u64(span, "length")) {
            (Some(s), Some(o), Some(l)) => Some(crate::adapters::offset_position(s, o as u128 + l as u128)),
            _ => None,
        };
        return Some(Span {
            start_line: line,
            start_column: match get_u32(span, "column") {
                Some(c) => c,
                None => 1,
            },
            end_line: or_u32(get_u32(span, "endLine"), match end {
                Some(e) => Some(e.0),
                None => None,
            }),
            end_column: or_u32(get_u32(span, "endColumn"), match end {
                Some(e) => Some(e.1),
                None => None,
            }),
        });
    }
    match (source, get_u64(span, "offset")) {
        (Some(s), Some(o)) => {
            let l = match get_u64(span, "length") {
                Some(x) => x,
                None => 0,
            };
            let start = crate::adapters::offset_position(s, o as u128);
            let end = crate::adapters::offset_position(s, o as u128 + l as u128);
            Some(Span { start_line: start.0, start_column: start.1, end_line: Some(end.0), end_column: Some(end.1) })
        },
        _ => None,
    }
}

fn convert(
    v: &JsonValue,
    inherited: Option<&str>,
    root: &str,
    aliases: &AliasTable,
    sources: &Vec<(String, String)>,
) -> (r: Diagnostic)
    ensures
        describes_oxlint(
            r,
            *v,
            crate::capabilities::opt_str_view(inherited),
            source_text(sources@, source_key(root@, *v, crate::capabilities::opt_str_view(inherited))),
            root@,
            *aliases,
        ),
{
    let code = code_of(v);
    let canonical_code = match &code {
        Some(c) => Some(aliases.canonicalize(c.as_str())),
        None => None,
    };
    let raw_path = raw_path_of(v, inherited);
    let key = crate::capabilities::join_path_exec(root, raw_path);
    let source = find_source(sources, key.as_str());
    let severity = match v.get("severity") {
        Some(x) => Severity::from_value(x),
        None => Severity::from_value(&JsonValue::Null),
    };
    let message = match get_str(v, "message") {
        Some(t) => owned(t),
        None => owned("Oxlint diagnostic"),
    };
    let normalized = normalize_path(root, raw_path);
    Diagnostic::new(
        Tool::Oxlint,
        normalized.as_str(),
        DiagnosticData { code, canonical_code, severity, message, span: parse_span(v, source), fix: None },
    )
}

/// The diagnostic that an Oxlint entry gives, given the sources that could be read.
pub open spec fn describes_entry(
    d: Diagnostic,
    e: (JsonValue, Option<Seq<char>>),
    sources: Seq<(String, String)>,
    root: Seq<char>,
    aliases: AliasTable,
) -> bool {
    describes_oxlint(d, e.0, e.1, source_text(sources, source_key(root, e.0, e.1)), root, aliases)
}

/// Reads Oxlint's JSON report. `source` is the report's text, `value` what it parses
/// to, and `sources` the texts of the reported files that could be read, keyed by
/// their path under `root` (see `source_paths`). Blank output yields no diagnostics
/// and a warning; a parse error is an error.
pub fn read_report(
    source: &str,
    value: Result<JsonValue, String>,
    root: &str,
    aliases: &AliasTable,
    sources: &Vec<(String, String)>,
) -> (r: Result<ParsedDiagnostics, String>)
    ensures
        trim_seq(source@).len() == 0 ==> (r matches Ok(p) && p.diagnostics@.len() == 0 && crate::paths::views(p.warnings@) == seq!["Oxlint produced empty JSON output"@]),
        trim_seq(source@).len() > 0 ==> match value {
            Err(e) => (r matches Err(x) && x@ == e@),
            Ok(v) => (r matches Ok(p) && p.warnings@.len() == 0 && p.diagnostics@.len() == oxlint_entries(v, None).len() && forall|k: int|
                0 <= k < p.diagnostics@.len() ==> describes_entry(#[trigger] p.diagnostics@[k], oxlint_entries(v, None)[k], sources@, root@, *aliases)),
        },
{
    if crate::text::is_blank(source) {
        let mut warnings: Vec<String> = Vec::new();
        warnings.push(owned("Oxlint produced empty JSON output"));
        proof {
            assert(crate::paths::views(warnings@) =~= seq!["Oxlint produced empty JSON output"@]);
        }
        return Ok(ParsedDiagnostics { diagnostics: Vec::new(), warnings });
    }
    let v = match &value {
        Ok(v) => v,
        Err(e) => return Err(e.clone()),
    };
    let mut entries: Vec<(&JsonValue, Option<&str>)> = Vec::new();
    collect_entries(v, None, &mut entries);
    proof {
        assert(entry_views(entries@) =~= oxlint_entries(*v, None));
    }
    let ghost es = oxlint_entries(*v, None);
    let mut diagnostics: Vec<Diagnostic> = Vec::new();
    let mut k: usize = 0;
    while k < entries.len()
        invariant
            0 <= k <= entries@.len(),
            entry_views(entries@) == es,
            value matches Ok(x) && x == *v,
            es == oxlint_entries(*v, None),
            trim_seq(source@).len() > 0,
            diagnostics@.len() == k,
            forall|j: int| 0 <= j < k ==> describes_entry(#[trigger] diagnostics@[j], es[j], sources@, root@, *aliases),
        decreases entries.len() - k,
    {
        let (item, path) = entries[k];
        proof {
            assert(es[k as int] == (*item, crate::capabilities::opt_str_view(path)));
        }
        diagnostics.push(convert(item, path, root, aliases, sources));
        k = k + 1;
    }
    Ok(ParsedDiagnostics { diagnostics, warnings: Vec::new() })
}

/// The files whose texts the diagnostics of a report refer to, in order, as paths
/// under `root`.
pub fn source_paths(value: &JsonValue, root: &str) -> (r: Vec<String>)
    ensures
        r@.len() == oxlint_entries(*value, None).len(),
        forall|k: int| 0 <= k < r@.len() ==> (#[trigger] r@[k])@ == source_key(root@, oxlint_entries(*value, None)[k].0, oxlint_entries(*value, None)[k].1),
{
    let mut entries: Vec<(&JsonValue, Option<&str>)> = Vec::new();
    collect_entries(value, None, &mut entries);
    proof {
        assert(entry_views(entries@) =~= oxlint_entries(*value, None));
    }
    let ghost es = oxlint_entries(*value, None);
    let mut r: Vec<String> = Vec::new();
    let mut k: usize = 0;
    while k < entries.len()
        invariant
            0 <= k <= entries@.len(),
            entry_views(entries@) == es,
            es == oxlint_entries(*value, None),
            r@.len() == k,
            forall|j: int| 0 <= j < k ==> (#[trigger] r@[j])@ == source_key(root@, es[j].0, es[j].1),
        decreases entries.len() - k,
    {
        let (item, path) = entries[k];
        proof {
            assert(es[k as int] == (*item, crate::capabilities::opt_str_view(path)));
        }
        let raw = raw_path_of(item, path);
        r.push(crate::capabilities::join_path_exec(root, raw));
        k = k + 1;
    }
    r
}


/// What reading the report text `source` gives (see `parse`).
pub open spec fn parsed_report(source: Seq<char>, root: Seq<char>, aliases: AliasTable, sources: Seq<(String, String)>, r: Result<ParsedDiagnostics, String>) -> bool {
    &&& trim_seq(source).len() == 0 ==> (r matches Ok(p) && p.diagnostics@.len() == 0 && crate::paths::views(p.warnings@) == seq!["Oxlint produced empty JSON output"@])
    &&& trim_seq(source).len() > 0 ==> match crate::json::json_document(source) {
        Err(e) => (r matches Err(x) && x@ == e),
        Ok(v) => (r matches Ok(p) && p.warnings@.len() == 0 && p.diagnostics@.len() == oxlint_entries(v, None).len() && forall|k: int|
            0 <= k < p.diagnostics@.len() ==> describes_entry(#[trigger] p.diagnostics@[k], oxlint_entries(v, None)[k], sources, root, aliases))
    }
}

/// Reads Oxlint's JSON report from its text, parsed as one JSON document (see
/// `read_report`): blank output yields no diagnostics and a warning; a parse error
/// is an error. `sources` are the texts of the reported files that could be read,
/// keyed by their path under `root` (see `reported_paths`).
pub fn parse(
    source: &str,
    root: &str,
    aliases: &AliasTable,
    sources: &Vec<(String, String)>,
) -> (r: Result<ParsedDiagnostics, String>)
    ensures
        parsed_report(source@, root@, *aliases, sources@, r),
{
    let value = if crate::text::is_blank(source) {
        Ok(JsonValue::Null)
    } else {
        crate::json::parse_json(source)
    };
    read_report(source, value, root, aliases, sources)
}

/// The files whose texts the diagnostics of a report's text refer to, in order, as
/// paths under `root` (see `source_paths`); none for blank or unreadable output.
pub fn reported_paths(source: &str, root: &str) -> (r: Vec<String>)
    ensures
        trim_seq(source@).len() > 0 && crate::json::json_document(source@) is Ok ==> ({
            let v = crate::json::json_document(source@)->Ok_0;
            &&& r@.len() == oxlint_entries(v, None).len()
            &&& forall|k: int| 0 <= k < r@.len() ==> (#[trigger] r@[k])@ == source_key(root@, oxlint_entries(v, None)[k].0, oxlint_entries(v, None)[k].1)
        }),
        !(trim_seq(source@).len() > 0 && crate::json::json_document(source@) is Ok) ==> r@.len() == 0,
{
    if crate::text::is_blank(source) {
        return Vec::new();
    }
    match crate::json::parse_json(source) {
        Ok(v) => source_paths(&v, root),
        Err(_) => Vec::new(),
    }
}

} // verus!
