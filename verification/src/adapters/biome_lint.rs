//! Biome's JSON and RDJSON reports.
use vstd::prelude::*;

use crate::adapters::{canonical_of, offset_position, position_of, ParsedDiagnostics};
use crate::json::{array_of, field, field_str, field_u64, get_str, get_u64, has_field, str_of, u64_of, JsonValue, severity_of};
use crate::matching::AliasTable;
use crate::model::{opt_view, spec_fingerprint, Diagnostic, DiagnosticData, Severity, Span, Tool};
use crate::paths::{normalize_path, spec_normalize_path, views};
use crate::text::{concat, owned, push_str, trim_seq};

verus! {

/// The position of the first entry named `key`, or -1.
pub open spec fn key_index(entries: Seq<(String, JsonValue)>, key: Seq<char>) -> int
    decreases entries.len(),
{
    if entries.len() == 0 {
        -1
    } else if entries[0].0@ == key {
        0
    } else {
        let rest = key_index(entries.drop_first(), key);
        if rest < 0 {
            -1
        } else {
            rest + 1
        }
    }
}

proof fn lemma_key_index(entries: Seq<(String, JsonValue)>, key: Seq<char>)
    ensures
        -1 <= key_index(entries, key) < entries.len(),
        key_index(entries, key) >= 0 ==> crate::json::entry_value(entries, key) == Some(entries[key_index(entries, key)].1),
        key_index(entries, key) < 0 ==> crate::json::entry_value(entries, key) is None,
    decreases entries.len(),
{
    if entries.len() > 0 && entries[0].0@ != key {
        lemma_key_index(entries.drop_first(), key);
    }
}

/// The text parts of a Biome message, in order: strings, the elements of arrays,
/// and the `content` (else `text`) of objects.
pub open spec fn message_parts(v: JsonValue) -> Seq<Seq<char>>
    decreases v,
{
    match v {
        JsonValue::String(t) => seq![t@],
        JsonValue::Array(items) => message_parts_list(items@),
        JsonValue::Object(entries) => {
            let i = key_index(entries@, "content"@);
            let j = key_index(entries@, "text"@);
            if 0 <= i < entries@.len() {
                proof {
                    assert(decreases_to!(v => v->Object_0));
                    assert(decreases_to!(entries => entries@));
                    assert(decreases_to!(entries@ => entries@[i]));
                }
                message_parts(entries@[i].1)
            } else if 0 <= j < entries@.len() {
                proof {
                    assert(decreases_to!(v => v->Object_0));
                    assert(decreases_to!(entries => entries@));
                    assert(decreases_to!(entries@ => entries@[j]));
                }
                message_parts(entries@[j].1)
            } else {
                Seq::empty()
            }
        },
        _ => Seq::empty(),
    }
}

/// The text parts of the values of a list, in order.
pub open spec fn message_parts_list(items: Seq<JsonValue>) -> Seq<Seq<char>>
    decreases items,
{
    if items.len() == 0 {
        Seq::empty()
    } else {
        message_parts_list(items.subrange(0, items.len() - 1)) + message_parts(items[items.len() - 1])
    }
}

/// The array member `key`, when there is one.
pub open spec fn field_array(v: JsonValue, key: Seq<char>) -> Option<Seq<JsonValue>> {
    match field(v, key) {
        Some(x) => array_of(x),
        None => None,
    }
}

/// The diagnostics in a Biome report value: arrays are walked in order; an object
/// contributes its `diagnostics`, else itself when it looks like a diagnostic, else
/// its `diagnostic` member.
pub open spec fn biome_entries(v: JsonValue) -> Seq<JsonValue>
    decreases v,
{
    match v {
        JsonValue::Array(items) => biome_entries_list(items@),
        JsonValue::Object(_) => match field_array(v, "diagnostics"@) {
            Some(ds) => ds,
            None => if has_field(v, "category"@) && (has_field(v, "location"@) || has_field(v, "message"@)) {
                seq![v]
            } else {
                match field(v, "diagnostic"@) {
                    Some(d) => seq![d],
                    None => Seq::empty(),
                }
            },
        },
        _ => Seq::empty(),
    }
}

/// The diagnostics of the values of a list, in order.
pub open spec fn biome_entries_list(items: Seq<JsonValue>) -> Seq<JsonValue>
    decreases items,
{
    if items.len() == 0 {
        Seq::empty()
    } else {
        biome_entries_list(items.subrange(0, items.len() - 1)) + biome_entries(items[items.len() - 1])
    }
}

/// A member reached by a path of keys (`Value::pointer`).
pub open spec fn pointer(v: JsonValue, keys: Seq<Seq<char>>) -> Option<JsonValue>
    decreases keys.len(),
{
    if keys.len() == 0 {
        Some(v)
    } else {
        match field(v, keys[0]) {
            Some(x) => pointer(x, keys.drop_first()),
            None => None,
        }
    }
}

/// A text that a value denotes: itself when it is a string, else its `file`, `name`
/// or `value` string.
pub open spec fn stringish(v: JsonValue) -> Option<Seq<char>> {
    match str_of(v) {
        Some(s) => Some(s),
        None => match field_str(v, "file"@) {
            Some(s) => Some(s),
            None => match field_str(v, "name"@) {
                Some(s) => Some(s),
                None => field_str(v, "value"@),
            },
        },
    }
}

/// The first of two optional values that is present.
pub open spec fn or_else<T>(a: Option<T>, b: Option<T>) -> Option<T> {
    match a {
        Some(x) => Some(x),
        None => b,
    }
}

/// The rule ID of a Biome diagnostic.
pub open spec fn biome_code(v: JsonValue) -> Option<Seq<char>> {
    match or_else(field(v, "category"@), field(v, "code"@)) {
        Some(x) => stringish(x),
        None => None,
    }
}

/// The path of a Biome diagnostic as reported.
pub open spec fn biome_raw_path(v: JsonValue) -> Seq<char> {
    let raw = or_else(
        pointer(v, seq!["location"@, "path"@, "file"@]),
        or_else(pointer(v, seq!["location"@, "path"@]), or_else(field(v, "filePath"@), field(v, "filename"@))),
    );
    match raw {
        Some(x) => stringish(x).unwrap_or("<unknown>"@),
        None => "<unknown>"@,
    }
}

/// The message of a Biome diagnostic: its `description`, else the parts of its
/// `message` joined, else a placeholder.
pub open spec fn biome_message(v: JsonValue) -> Seq<char> {
    match field_str(v, "description"@) {
        Some(d) => d,
        None => match field(v, "message"@) {
            Some(m) => if message_parts(m).len() > 0 {
                concat(message_parts(m))
            } else {
                "Biome diagnostic"@
            },
            None => "Biome diagnostic"@,
        },
    }
}

/// The first of the keys whose member is an unsigned integer of 32 bits.
pub open spec fn find_number(v: JsonValue, first: Seq<char>, second: Seq<char>) -> Option<u32> {
    or_else(crate::json::field_u32(v, first), crate::json::field_u32(v, second))
}

/// Adds one to a 32-bit count for zero-based positions.
pub open spec fn shift(n: u32, zero_based: bool) -> u32 {
    if zero_based {
        u32::wrapping_add(n, 1)
    } else {
        n
    }
}

/// A span from start and end objects with `line`/`lineNumber` and
/// `column`/`columnNumber` members, shifted when they count from zero.
pub open spec fn structured_span(start: JsonValue, end: Option<JsonValue>, zero_based: bool) -> Option<Span> {
    match find_number(start, "line"@, "lineNumber"@) {
        Some(line) => Some(Span {
            start_line: shift(line, zero_based),
            start_column: match find_number(start, "column"@, "columnNumber"@) {
                Some(c) => shift(c, zero_based),
                None => 1,
            },
            end_line: match end {
                Some(e) => match find_number(e, "line"@, "lineNumber"@) {
                    Some(x) => Some(shift(x, zero_based)),
                    None => None,
                },
                None => None,
            },
            end_column: match end {
                Some(e) => match find_number(e, "column"@, "columnNumber"@) {
                    Some(x) => Some(shift(x, zero_based)),
                    None => None,
                },
                None => None,
            },
        }),
        None => None,
    }
}

/// The span of a Biome diagnostic: from a zero-based `range`, from one-based
/// `start`/`end`, from a `span` of objects, or from a `span` of byte offsets into
/// the source code the diagnostic carries.
pub open spec fn biome_span(v: JsonValue) -> Option<Span> {
    let source = match pointer(v, seq!["location"@, "sourceCode"@]) {
        Some(x) => str_of(x),
        None => None,
    };
    match pointer(v, seq!["location"@, "range"@, "start"@]) {
        Some(start) => structured_span(start, pointer(v, seq!["location"@, "range"@, "end"@]), true),
        None => match pointer(v, seq!["location"@, "start"@]) {
            Some(start) => structured_span(start, pointer(v, seq!["location"@, "end"@]), false),
            None => {
                let span_start = pointer(v, seq!["location"@, "span"@, "start"@]);
                if span_start is Some && span_start.unwrap() is Object {
                    structured_span(span_start.unwrap(), pointer(v, seq!["location"@, "span"@, "end"@]), false)
                } else {
                    let offsets = match pointer(v, seq!["location"@, "span"@]) {
                        Some(x) => array_of(x),
                        None => None,
                    };
                    match (offsets, source) {
                        (Some(os), Some(text)) => {
                            let start = if os.len() > 0 { u64_of(os[0]) } else { None };
                            let end = if os.len() > 1 { u64_of(os[1]) } else { None };
                            match start {
                                Some(st) => {
                                    let p = position_of(text, st as int);
                                    let q = match end {
                                        Some(e) => Some(position_of(text, e as int)),
                                        None => None,
                                    };
                                    Some(Span {
                                        start_line: p.0,
                                        start_column: p.1,
                                        end_line: match q { Some(x) => Some(x.0), None => None },
                                        end_column: match q { Some(x) => Some(x.1), None => None },
                                    })
                                },
                                None => None,
                            }
                        },
                        _ => None,
                    }
                }
            },
        },
    }
}

/// The diagnostic that a Biome entry gives.
pub open spec fn describes_biome(d: Diagnostic, v: JsonValue, root: Seq<char>, aliases: AliasTable) -> bool {
    let code = biome_code(v);
    &&& d.tool == Tool::Biome
    &&& d.path@ == spec_normalize_path(root, biome_raw_path(v))
    &&& opt_view(d.code) == code
    &&& opt_view(d.canonical_code) == canonical_of(aliases, code)
    &&& d.severity == severity_of(field(v, "severity"@).unwrap_or(JsonValue::Null))
    &&& d.message@ == biome_message(v)
    &&& d.span == biome_span(v)
    &&& d.fix is None
    &&& d.fingerprint@ == spec_fingerprint(d)
}

/// The position of the first entry named `key`.
fn entry_index(entries: &Vec<(String, JsonValue)>, key: &str) -> (r: Option<usize>)
    ensures
        match r {
            Some(i) => i == key_index(entries@, key@) && i < entries@.len(),
            None => key_index(entries@, key@) < 0,
        },
{
    let mut i: usize = 0;
    proof {
        assert(entries@.subrange(0, entries@.len() as int) =~= entries@);
    }
    while i < entries.len()
        invariant
            0 <= i <= entries@.len(),
            key_index(entries@, key@) == if key_index(entries@.subrange(i as int, entries@.len() as int), key@) < 0 {
                -1
            } else {
                key_index(entries@.subrange(i as int, entries@.len() as int), key@) + i
            },
        decreases entries.len() - i,
    {
        proof {
            let rest = entries@.subrange(i as int, entries@.len() as int);
            assert(rest.drop_first() =~= entries@.subrange(i + 1, entries@.len() as int));
            assert(rest[0] == entries@[i as int]);
        }
        if crate::text::str_eq(entries[i].0.as_str(), key) {
            return Some(i);
        }
        i = i + 1;
    }
    None
}

/// Appends the text parts of a message value.
fn collect_message_parts(value: &JsonValue, parts: &mut Vec<String>)
    ensures
        views(final(parts)@) == views(old(parts)@) + message_parts(*value),
    decreases value,
{
    let ghost start = views(parts@);
    match value {
        JsonValue::String(text) => {
            parts.push(text.clone());
            proof {
                assert(views(parts@) =~= start + seq![text@]);
            }
        },
        JsonValue::Array(values) => {
            let mut j: usize = 0;
            while j < values.len()
                invariant
                    0 <= j <= values@.len(),
                    *value == JsonValue::Array(*values),
                    views(parts@) == start + message_parts_list(values@.take(j as int)),
                decreases values.len() - j,
            {
                proof {
                    assert(values@.take(j + 1).subrange(0, j as int) =~= values@.take(j as int));
                    assert(values@.take(j + 1)[j as int] == values@[j as int]);
                    assert(decreases_to!(*value => (*value)->Array_0));
                    assert((*value)->Array_0 == *values);
                    assert(decreases_to!(*values => values@));
                    assert(decreases_to!(values@ => values@[j as int]));
                }
                collect_message_parts(&values[j], parts);
                proof {
                    assert(views(parts@) =~= start + message_parts_list(values@.take(j + 1)));
                }
                j = j + 1;
            }
            proof {
                assert(values@.take(values@.len() as int) =~= values@);
            }
        },
        JsonValue::Object(entries) => {
            let i = entry_index(entries, "content");
            let k = entry_index(entries, "text");
            match i {
                Some(i) => {
                    proof {
                        assert(decreases_to!(*value => (*value)->Object_0));
                        assert((*value)->Object_0 == *entries);
                        assert(decreases_to!(*entries => entries@));
                        assert(decreases_to!(entries@ => entries@[i as int]));
                    }
                    collect_message_parts(&entries[i].1, parts);
                },
                None => match k {
                    Some(k) => {
                        proof {
                            assert(decreases_to!(*value => (*value)->Object_0));
                            assert((*value)->Object_0 == *entries);
                            assert(decreases_to!(*entries => entries@));
                            assert(decreases_to!(entries@ => entries@[k as int]));
                        }
                        collect_message_parts(&entries[k].1, parts);
                    },
                    None => {
                        proof {
                            assert(views(parts@) =~= start + Seq::<Seq<char>>::empty());
                        }
                    },
                },
            }
        },
        _ => {
            proof {
                assert(views(parts@) =~= start + Seq::<Seq<char>>::empty());
            }
        },
    }
}

fn push_all<'a>(items: &'a Vec<JsonValue>, output: &mut Vec<&'a JsonValue>)
    ensures
        final(output)@.map_values(|x: &JsonValue| *x) == old(output)@.map_values(|x: &JsonValue| *x) + items@,
{
    let ghost start = output@.map_values(|x: &JsonValue| *x);
    let mut j: usize = 0;
    while j < items.len()
        invariant
            0 <= j <= items@.len(),
            output@.map_values(|x: &JsonValue| *x) == start + items@.take(j as int),
        decreases items.len() - j,
    {
        let ghost before = output@;
        output.push(&items[j]);
        proof {
            assert(output@ =~= before.push(&items[j as int]));
            assert(output@.map_values(|x: &JsonValue| *x) =~= before.map_values(|x: &JsonValue| *x).push(items@[j as int]));
            assert(items@.take(j + 1) =~= items@.take(j as int).push(items@[j as int]));
            assert(output@.map_values(|x: &JsonValue| *x) =~= start + items@.take(j + 1));
        }
        j = j + 1;
    }
    proof {
        assert(items@.take(items@.len() as int) =~= items@);
    }
}

/// Collects the diagnostics of a report value.
fn collect_diagnostics<'a>(value: &'a JsonValue, output: &mut Vec<&'a JsonValue>)
    ensures
        final(output)@.map_values(|x: &JsonValue| *x) == old(output)@.map_values(|x: &JsonValue| *x) + biome_entries(*value),
    decreases value,
{
    let ghost start = output@.map_values(|x: &JsonValue| *x);
    match value {
        JsonValue::Array(values) => {
            let mut j: usize = 0;
            while j < values.len()
                invariant
                    0 <= j <= values@.len(),
                    *value == JsonValue::Array(*values),
                    output@.map_values(|x: &JsonValue| *x) == start + biome_entries_list(values@.take(j as int)),
                decreases values.len() - j,
            {
                proof {
                    assert(values@.take(j + 1).subrange(0, j as int) =~= values@.take(j as int));
                    assert(values@.take(j + 1)[j as int] == values@[j as int]);
                    assert(decreases_to!(*value => (*value)->Array_0));
                    assert((*value)->Array_0 == *values);
                    assert(decreases_to!(*values => values@));
                    assert(decreases_to!(values@ => values@[j as int]));
                }
                collect_diagnostics(&values[j], output);
                proof {
                    assert(output@.map_values(|x: &JsonValue| *x) =~= start + biome_entries_list(values@.take(j + 1)));
                }
                j = j + 1;
            }
            proof {
                assert(values@.take(values@.len() as int) =~= values@);
            }
        },
        JsonValue::Object(_) => {
            let diagnostics = match value.get("diagnostics") {
                Some(d) => d.as_array(),
                None => None,
            };
            match diagnostics {
                Some(items) => push_all(items, output),
                None => {
                    let ghost before = output@;
                    if value.get("category").is_some() && (value.get("location").is_some() || value.get("message").is_some()) {
                        output.push(value);
                        proof {
                            assert(output@ =~= before.push(value));
                            assert(output@.map_values(|x: &JsonValue| *x) =~= start + seq![*value]);
                        }
                    } else {
                        match value.get("diagnostic") {
                            Some(d) => {
                                output.push(d);
                                proof {
                                    assert(output@ =~= before.push(d));
                                    assert(output@.map_values(|x: &JsonValue| *x) =~= start + seq![*d]);
                                }
                            },
                            None => {
                                proof {
                                    assert(output@.map_values(|x: &JsonValue| *x) =~= start + Seq::<JsonValue>::empty());
                                }
                            },
                        }
                    }
                },
            }
        },
        _ => {
            proof {
                assert(output@.map_values(|x: &JsonValue| *x) =~= start + Seq::<JsonValue>::empty());
            }
        },
    }
}

/// The spec value of an optional reference.
pub open spec fn deref_opt(o: Option<&JsonValue>) -> Option<JsonValue> {
    match o {
        Some(x) => Some(*x),
        None => None,
    }
}

fn pointer2<'a>(v: &'a JsonValue, a: &str, b: &str) -> (r: Option<&'a JsonValue>)
    ensures
        deref_opt(r) == pointer(*v, seq![a@, b@]),
{
    proof {
        reveal_with_fuel(pointer, 3);
        assert(seq![a@, b@].drop_first() =~= seq![b@]);
        assert(seq![b@].drop_first() =~= Seq::<Seq<char>>::empty());
    }
    match v.get(a) {
        Some(x) => x.get(b),
        None => None,
    }
}

fn pointer3<'a>(v: &'a JsonValue, a: &str, b: &str, c: &str) -> (r: Option<&'a JsonValue>)
    ensures
        deref_opt(r) == pointer(*v, seq![a@, b@, c@]),
{
    proof {
        reveal_with_fuel(pointer, 4);
        assert(seq![a@, b@, c@].drop_first() =~= seq![b@, c@]);
        assert(seq![b@, c@].drop_first() =~= seq![c@]);
        assert(seq![c@].drop_first() =~= Seq::<Seq<char>>::empty());
    }
    match v.get(a) {
        Some(x) => match x.get(b) {
            Some(y) => y.get(c),
            None => None,
        },
        None => None,
    }
}

fn stringish_of<'a>(v: &'a JsonValue) -> (r: Option<&'a str>)
    ensures
        crate::capabilities::opt_str_view(r) == stringish(*v),
{
    match v.as_str() {
        Some(s) => Some(s),
        None => match get_str(v, "file") {
            Some(s) => Some(s),
            None => match get_str(v, "name") {
                Some(s) => Some(s),
                None => get_str(v, "value"),
            },
        },
    }
}

fn or_else_ref<'a>(a: Option<&'a JsonValue>, b: Option<&'a JsonValue>) -> (r: Option<&'a JsonValue>)
    ensures
        deref_opt(r) == or_else(deref_opt(a), deref_opt(b)),
{
    match a {
        Some(x) => Some(x),
        None => b,
    }
}

fn find_number_of(v: &JsonValue, first: &str, second: &str) -> (r: Option<u32>)
    ensures
        r == find_number(*v, first@, second@),
{
    match crate::json::get_u32(v, first) {
        Some(n) => Some(n),
        None => crate::json::get_u32(v, second),
    }
}

fn shift_exec(n: u32, zero_based: bool) -> (r: u32)
    ensures
        r == shift(n, zero_based),
{
    if zero_based {
        n.wrapping_add(1)
    } else {
        n
    }
}

fn structured_span_of(start: &JsonValue, end: Option<&JsonValue>, zero_based: bool) -> (r: Option<Span>)
    ensures
        r == structured_span(*start, deref_opt(end), zero_based),
{
    let line = match find_number_of(start, "line", "lineNumber") {
        Some(l) => l,
        None => return None,
    };
    let start_column = match find_number_of(start, "column", "columnNumber") {
        Some(c) => shift_exec(c, zero_based),
        None => 1,
    };
    let end_line = match end {
        Some(e) => match find_number_of(e, "line", "lineNumber") {
            Some(x) => Some(shift_exec(x, zero_based)),
            None => None,
        },
        None => None,
    };
    let end_column = match end {
        Some(e) => match find_number_of(e, "column", "columnNumber") {
            Some(x) => Some(shift_exec(x, zero_based)),
            None => None,
        },
        None => None,
    };
    Some(Span { start_line: shift_exec(line, zero_based), start_column, end_line, end_column })
}

fn parse_span(v: &JsonValue) -> (r: Option<Span>)
    ensures
        r == biome_span(*v),
{
    let source = match pointer2(v, "location", "sourceCode") {
        Some(x) => x.as_str(),
        None => None,
    };
    if let Some(start) = pointer3(v, "location", "range", "start") {
        return structured_span_of(start, pointer3(v, "location", "range", "end"), true);
    }
    if let Some(start) = pointer2(v, "location", "start") {
        return structured_span_of(start, pointer2(v, "location", "end"), false);
    }
    if let Some(start) = pointer3(v, "location", "span", "start") {
        if start.is_object() {
            return structured_span_of(start, pointer3(v, "location", "span", "end"), false);
        }
    }
    let offsets = match pointer2(v, "location", "span") {
        Some(x) => x.as_array(),
        None => None,
    };
    match (offsets, source) {
        (Some(os), Some(text)) => {
            let start = if os.len() > 0 { os[0].as_u64() } else { None };
            let end = if os.len() > 1 { os[1].as_u64() } else { None };
            match start {
                Some(st) => {
                    let p = offset_position(text, st as u128);
                    let q = match end {
                        Some(e) => Some(offset_position(text, e as u128)),
                        None => None,
                    };
                    Some(Span {
                        start_line: p.0,
                        start_column: p.1,
                        end_line: match q { Some(x) => Some(x.0), None => None },
                        end_column: match q { Some(x) => Some(x.1), None => None },
                    })
                },
                None => None,
            }
        },
        _ => None,
    }
}

fn message_of(v: &JsonValue) -> (r: String)
    ensures
        r@ == biome_message(*v),
{
    if let Some(description) = get_str(v, "description") {
        return owned(description);
    }
    if let Some(message) = v.get("message") {
        let mut parts: Vec<String> = Vec::new();
        collect_message_parts(message, &mut parts);
        proof {
            assert(views(Seq::<String>::empty()) =~= Seq::<Seq<char>>::empty());
            assert(views(parts@) =~= message_parts(*message));
        }
        if parts.len() > 0 {
            let mut text = String::new();
            let mut i: usize = 0;
            while i < parts.len()
                invariant
                    0 <= i <= parts@.len(),
                    text@ == concat(views(parts@).take(i as int)),
                decreases parts.len() - i,
            {
                push_str(&mut text, parts[i].as_str());
                proof {
                    assert(views(parts@).take(i + 1).drop_last() =~= views(parts@).take(i as int));
                }
                i = i + 1;
            }
            proof {
                assert(views(parts@).take(parts@.len() as int) =~= views(parts@));
            }
            return text;
        }
    }
    owned("Biome diagnostic")
}

fn convert(v: &JsonValue, root: &str, aliases: &AliasTable) -> (r: Diagnostic)
    ensures
        describes_biome(r, *v, root@, *aliases),
{
    let code = match or_else_ref(v.get("category"), v.get("code")) {
        Some(x) => match stringish_of(x) {
            Some(s) => Some(owned(s)),
            None => None,
        },
        None => None,
    };
    let canonical_code = match &code {
        Some(c) => Some(aliases.canonicalize(c.as_str())),
        None => None,
    };
    let raw = or_else_ref(
        pointer3(v, "location", "path", "file"),
        or_else_ref(pointer2(v, "location", "path"), or_else_ref(v.get("filePath"), v.get("filename"))),
    );
    let raw_path = match raw {
        Some(x) => match stringish_of(x) {
            Some(s) => s,
            None => "<unknown>",
        },
        None => "<unknown>",
    };
    let severity = match v.get("severity") {
        Some(x) => Severity::from_value(x),
        None => Severity::from_value(&JsonValue::Null),
    };
    let normalized = normalize_path(root, raw_path);
    Diagnostic::new(
        Tool::Biome,
        normalized.as_str(),
        DiagnosticData { code, canonical_code, severity, message: message_of(v), span: parse_span(v), fix: None },
    )
}

/// Reads Biome's report. `source` is the report's text and `documents` what it
/// parses to: one JSON document, or one per line for RDJSON (see `json_lines`).
/// Blank output yields no diagnostics and a warning; a parse error is an error.
pub fn read_documents(
    source: &str,
    documents: Result<Vec<JsonValue>, String>,
    root: &str,
    aliases: &AliasTable,
) -> (r: Result<ParsedDiagnostics, String>)
    ensures
        trim_seq(source@).len() == 0 ==> (r matches Ok(p) && p.diagnostics@.len() == 0 && views(p.warnings@) == seq!["Biome produced empty JSON output"@]),
        trim_seq(source@).len() > 0 ==> match documents {
            Err(e) => (r matches Err(x) && x@ == e@),
            Ok(ds) => (r matches Ok(p) && p.warnings@.len() == 0 && p.diagnostics@.len() == biome_entries_list(ds@).len() && forall|k: int|
                0 <= k < p.diagnostics@.len() ==> describes_biome(#[trigger] p.diagnostics@[k], biome_entries_list(ds@)[k], root@, *aliases)),
        },
{
    if crate::text::is_blank(source) {
        let mut warnings: Vec<String> = Vec::new();
        warnings.push(owned("Biome produced empty JSON output"));
        proof {
            assert(views(warnings@) =~= seq!["Biome produced empty JSON output"@]);
        }
        return Ok(ParsedDiagnostics { diagnostics: Vec::new(), warnings });
    }
    let values = match &documents {
        Ok(ds) => ds,
        Err(e) => return Err(e.clone()),
    };
    let mut raw: Vec<&JsonValue> = Vec::new();
    let mut j: usize = 0;
    while j < values.len()
        invariant
            0 <= j <= values@.len(),
            raw@.map_values(|x: &JsonValue| *x) == biome_entries_list(values@.take(j as int)),
        decreases values.len() - j,
    {
        proof {
            assert(values@.take(j + 1).subrange(0, j as int) =~= values@.take(j as int));
            assert(values@.take(j + 1)[j as int] == values@[j as int]);
        }
        collect_diagnostics(&values[j], &mut raw);
        j = j + 1;
    }
    proof {
        assert(values@.take(values@.len() as int) =~= values@);
    }
    let ghost es = biome_entries_list(values@);
    let mut diagnostics: Vec<Diagnostic> = Vec::new();
    let mut k: usize = 0;
    while k < raw.len()
        invariant
            0 <= k <= raw@.len(),
            raw@.map_values(|x: &JsonValue| *x) == es,
            documents matches Ok(x) && x@ == values@,
            es == biome_entries_list(values@),
            trim_seq(source@).len() > 0,
            diagnostics@.len() == k,
            forall|i: int| 0 <= i < k ==> describes_biome(#[trigger] diagnostics@[i], es[i], root@, *aliases),
        decreases raw.len() - k,
    {
        proof {
            assert(es[k as int] == *raw@[k as int]);
        }
        diagnostics.push(convert(raw[k], root, aliases));
        k = k + 1;
    }
    Ok(ParsedDiagnostics { diagnostics, warnings: Vec::new() })
}

/// The lines of a text as `str::lines` gives them: cut after each newline, without
/// the newline and a carriage return before it.
pub open spec fn str_lines(s: Seq<char>) -> Seq<Seq<char>> {
    crate::text::pieces(s).map_values(|p: Seq<char>| crate::text::strip_line_end(p))
}

/// The lines of an RDJSON report that hold something, each a JSON document.
pub fn json_lines(source: &str) -> (r: Vec<String>)
    ensures
        views(r@) == str_lines(source@).filter(|l: Seq<char>| trim_seq(l).len() > 0),
{
    let parts = crate::text::split_pieces(source);
    let ghost all = str_lines(source@);
    let ghost pred = |l: Seq<char>| trim_seq(l).len() > 0;
    let mut r: Vec<String> = Vec::new();
    let mut i: usize = 0;
    while i < parts.len()
        invariant
            0 <= i <= parts@.len(),
            views(parts@) == crate::text::pieces(source@),
            all == str_lines(source@),
            pred == (|l: Seq<char>| trim_seq(l).len() > 0),
            views(r@) == all.take(i as int).filter(pred),
        decreases parts.len() - i,
    {
        let line = crate::text::line_text(parts[i].as_str());
        proof {
            assert(line@ =~= all[i as int]);
            assert(all.take(i + 1).drop_last() =~= all.take(i as int));
            reveal(Seq::filter);
        }
        let ghost before = views(r@);
        if !crate::text::is_blank(line.as_str()) {
            r.push(line);
            proof {
                assert(views(r@) =~= before.push(all[i as int]));
            }
        }
        i = i + 1;
    }
    proof {
        assert(all.take(parts@.len() as int) =~= all);
    }
    r
}


/// The documents of lines of RDJSON, each parsed as one JSON document; the error of
/// the first line that does not parse, if one does not.
pub open spec fn line_documents(lines: Seq<Seq<char>>) -> Result<Seq<JsonValue>, Seq<char>>
    decreases lines.len(),
{
    if lines.len() == 0 {
        Ok(Seq::empty())
    } else {
        match line_documents(lines.drop_last()) {
            Err(e) => Err(e),
            Ok(vs) => match crate::json::json_document(lines.last()) {
                Ok(v) => Ok(vs.push(v)),
                Err(e) => Err(e),
            },
        }
    }
}

/// The documents of Biome's report: the whole text as one JSON document, else each
/// line that holds something as one document (RDJSON).
pub open spec fn biome_documents(source: Seq<char>) -> Result<Seq<JsonValue>, Seq<char>> {
    match crate::json::json_document(source) {
        Ok(v) => Ok(seq![v]),
        Err(_) => line_documents(str_lines(source).filter(|l: Seq<char>| trim_seq(l).len() > 0)),
    }
}

proof fn lemma_line_documents_error_stays(lines: Seq<Seq<char>>, n: int)
    requires
        0 <= n <= lines.len(),
        line_documents(lines.take(n)) is Err,
    ensures
        line_documents(lines) == line_documents(lines.take(n)),
    decreases lines.len() - n,
{
    if n < lines.len() {
        let longer = lines.take(n + 1);
        assert(longer.drop_last() =~= lines.take(n));
        lemma_line_documents_error_stays(lines, n + 1);
    } else {
        assert(lines.take(n) =~= lines);
    }
}

/// The documents of Biome's report text (see `biome_documents`).
pub fn parse_documents(source: &str) -> (r: Result<Vec<JsonValue>, String>)
    ensures
        match r {
            Ok(v) => biome_documents(source@) == Ok::<Seq<JsonValue>, Seq<char>>(v@),
            Err(e) => biome_documents(source@) == Err::<Seq<JsonValue>, Seq<char>>(e@),
        },
{
    let whole = crate::json::parse_json(source);
    match whole {
        Ok(v) => {
            let mut one: Vec<JsonValue> = Vec::new();
            one.push(v);
            proof {
                assert(one@ =~= seq![v]);
            }
            return Ok(one);
        },
        Err(_) => {},
    }
    assert(crate::json::json_document(source@) is Err);
    let lines = json_lines(source);
    let ghost ls = views(lines@);
    let mut docs: Vec<JsonValue> = Vec::new();
    let mut i: usize = 0;
    proof {
        assert(ls.take(0) =~= Seq::<Seq<char>>::empty());
    }
    while i < lines.len()
        invariant
            0 <= i <= lines@.len(),
            ls == views(lines@),
            ls == str_lines(source@).filter(|l: Seq<char>| trim_seq(l).len() > 0),
            crate::json::json_document(source@) is Err,
            line_documents(ls.take(i as int)) == Ok::<Seq<JsonValue>, Seq<char>>(docs@),
        decreases lines.len() - i,
    {
        proof {
            assert(ls.take(i + 1).drop_last() =~= ls.take(i as int));
            assert(ls.take(i + 1).last() == lines@[i as int]@);
        }
        match crate::json::parse_json(lines[i].as_str()) {
            Ok(v) => {
                docs.push(v);
            },
            Err(e) => {
                proof {
                    lemma_line_documents_error_stays(ls, i + 1);
                }
                return Err(e);
            },
        }
        i = i + 1;
    }
    proof {
        assert(ls.take(lines@.len() as int) =~= ls);
    }
    Ok(docs)
}

/// What reading the report text `source` gives (see `parse`).
pub open spec fn parsed_report(source: Seq<char>, root: Seq<char>, aliases: AliasTable, r: Result<ParsedDiagnostics, String>) -> bool {
    &&& trim_seq(source).len() == 0 ==> (r matches Ok(p) && p.diagnostics@.len() == 0 && views(p.warnings@) == seq!["Biome produced empty JSON output"@])
    &&& trim_seq(source).len() > 0 ==> match biome_documents(source) {
        Err(e) => (r matches Err(x) && x@ == e),
        Ok(ds) => (r matches Ok(p) && p.warnings@.len() == 0 && p.diagnostics@.len() == biome_entries_list(ds).len() && forall|k: int|
            0 <= k < p.diagnostics@.len() ==> describes_biome(#[trigger] p.diagnostics@[k], biome_entries_list(ds)[k], root, aliases))
    }
}

/// Reads Biome's report from its text (see `biome_documents` and `read_documents`):
/// blank output yields no diagnostics and a warning; a parse error is an error.
pub fn parse(source: &str, root: &str, aliases: &AliasTable) -> (r: Result<ParsedDiagnostics, String>)
    ensures
        parsed_report(source@, root@, *aliases, r),
{
    let documents = if crate::text::is_blank(source) {
        Ok(Vec::new())
    } else {
        parse_documents(source)
    };
    read_documents(source, documents, root, aliases)
}

} // verus!
