//! The adapters of each tool: how to invoke it and how to read what it reports.
use vstd::prelude::*;

use crate::capabilities::{builtin_reason, builtin_source, builtin_status, capability_for_path, opt_str_view, CapabilityDecision};
use crate::matching::{resolve_alias, spec_canonical_base, AliasTable};
use crate::model::{opt_view, spec_is_formatter, spec_is_linter, tool_config_key, tool_display_name, Diagnostic, Tool};
use crate::paths::{is_absolute, join_slash, segments, views};
use crate::report::{FormatComparisonStatus, FormatterOutcome, ToolFileStatus};
use crate::error::{failure_message, ConcordError, ErrorKind, ToolFailure};
use crate::process::{truncated, ProcessOutput, ResolvedTool};
use crate::report::{success_stderr_text};
use crate::text::{owned, push_str};
use crate::adapters::oxfmt::{lossy, lossy_text};

pub mod biome_format;
pub mod biome_lint;
pub mod eslint;
pub mod oxfmt;
pub mod oxlint;
pub mod prettier;

verus! {

/// The diagnostics read from a tool's report, and warnings about the report.
#[derive(Debug)]
pub struct ParsedDiagnostics {
    pub diagnostics: Vec<Diagnostic>,
    pub warnings: Vec<String>,
}

/// The canonical rule of an optional rule ID.
pub open spec fn canonical_of(aliases: AliasTable, code: Option<Seq<char>>) -> Option<Seq<char>> {
    match code {
        Some(c) => Some(resolve_alias(aliases@, spec_canonical_base(c))),
        None => None,
    }
}

/// How many newline bytes a byte sequence holds.
pub open spec fn newline_bytes(b: Seq<u8>) -> nat
    decreases b.len(),
{
    if b.len() == 0 {
        0
    } else {
        newline_bytes(b.drop_last()) + if b.last() == 10u8 {
            1nat
        } else {
            0nat
        }
    }
}

/// The position of the last newline byte, if any.
pub open spec fn last_newline(b: Seq<u8>) -> Option<int>
    decreases b.len(),
{
    if b.len() == 0 {
        None
    } else if b.last() == 10u8 {
        Some(b.len() - 1)
    } else {
        last_newline(b.drop_last())
    }
}

/// The line and column (both from one, the column in bytes) of byte `offset` of a
/// text, an offset past the end standing for the end; counts wrap at 32 bits.
pub open spec fn position_of(text: Seq<char>, offset: int) -> (u32, u32) {
    let b = vstd::utf8::encode_utf8(text);
    let n = if offset < b.len() { offset } else { b.len() as int };
    let prefix = b.take(n);
    let line = u32::wrapping_add(newline_bytes(prefix) as u32, 1);
    let column = match last_newline(prefix) {
        Some(i) => u32::wrapping_add((n - i - 1) as u32, 1),
        None => u32::wrapping_add(n as u32, 1),
    };
    (line, column)
}

/// The line and column of byte `offset` of a text.
pub fn offset_position(source: &str, offset: u128) -> (r: (u32, u32))
    ensures
        r == position_of(source@, offset as int),
{
    let bytes = source.as_bytes();
    let n: usize = if offset < bytes.len() as u128 { offset as usize } else { bytes.len() };
    let mut count: usize = 0;
    let mut last: Option<usize> = None;
    let mut i: usize = 0;
    while i < n
        invariant
            0 <= i <= n <= bytes@.len(),
            count == newline_bytes(bytes@.take(i as int)),
            count <= i,
            match last {
                Some(k) => last_newline(bytes@.take(i as int)) == Some(k as int) && k < i,
                None => last_newline(bytes@.take(i as int)) is None,
            },
        decreases n - i,
    {
        proof {
            assert(bytes@.take(i + 1).drop_last() =~= bytes@.take(i as int));
        }
        if bytes[i] == 10u8 {
            count = count + 1;
            last = Some(i);
        }
        i = i + 1;
    }
    let line = (count as u32).wrapping_add(1);
    let column = match last {
        Some(k) => ((n - k - 1) as u32).wrapping_add(1),
        None => (n as u32).wrapping_add(1),
    };
    (line, column)
}

/// The built-in capability of `tool` for a file, as the adapters see it.
pub fn adapter_capability_for_path(tool: Tool, path: &str, version: Option<&str>) -> (r: CapabilityDecision)
    ensures
        ({
            let status = builtin_status(tool, path@, opt_str_view(version));
            &&& r.status == status
            &&& opt_view(r.reason) == Some(builtin_reason(status))
            &&& r.source == builtin_source(status)
        }),
{
    capability_for_path(tool, path, version)
}

/// The path of a file relative to `root` when `root` is a prefix of its components
/// (`Path::strip_prefix`), else the path itself.
pub open spec fn stripped(root: Seq<char>, path: Seq<char>) -> Seq<char> {
    let r = segments(root);
    let p = segments(path);
    if is_absolute(root) == is_absolute(path) && r.len() <= p.len() && p.subrange(0, r.len() as int) == r {
        join_slash(p.subrange(r.len() as int, p.len() as int))
    } else {
        path
    }
}

/// The path of a file relative to the root when it lies under it.
fn strip_root(root: &str, path: &str) -> (r: String)
    ensures
        r@ == stripped(root@, path@),
{
    let rs = crate::paths::path_segments(root);
    let ps = crate::paths::path_segments(path);
    let rc = crate::text::chars_of(root);
    let pc = crate::text::chars_of(path);
    let ra = rc.len() > 0 && rc[0] == '/';
    let pa = pc.len() > 0 && pc[0] == '/';
    proof {
        assert(views(rs@).len() == rs@.len());
        assert(views(ps@).len() == ps@.len());
    }
    if ra != pa || rs.len() > ps.len() {
        return owned(path);
    }
    let mut i: usize = 0;
    while i < rs.len()
        invariant
            0 <= i <= rs@.len() <= ps@.len(),
            views(rs@) == segments(root@),
            views(ps@) == segments(path@),
            forall|k: int| 0 <= k < i ==> views(ps@)[k] == views(rs@)[k],
        decreases rs.len() - i,
    {
        if !crate::text::str_eq(rs[i].as_str(), ps[i].as_str()) {
            proof {
                assert(views(ps@).subrange(0, rs@.len() as int)[i as int] != views(rs@)[i as int]);
            }
            return owned(path);
        }
        i = i + 1;
    }
    let mut rest: Vec<String> = Vec::new();
    let mut j: usize = rs.len();
    while j < ps.len()
        invariant
            rs@.len() <= j <= ps@.len(),
            views(rest@) == views(ps@).subrange(rs@.len() as int, j as int),
        decreases ps.len() - j,
    {
        let ghost before = views(rest@);
        rest.push(ps[j].clone());
        proof {
            assert(views(rest@) =~= before.push(ps@[j as int]@));
            assert(views(rest@) =~= views(ps@).subrange(rs@.len() as int, j + 1));
        }
        j = j + 1;
    }
    proof {
        assert(views(ps@).subrange(0, rs@.len() as int) =~= views(rs@));
    }
    crate::paths::join_with_slash(&rest)
}

/// The fixed arguments that make a linter write its JSON report.
pub open spec fn lint_flags(tool: Tool) -> Seq<Seq<char>> {
    match tool {
        Tool::Eslint => seq!["--format"@, "json"@],
        Tool::Biome => seq![
            "lint"@,
            "--reporter=json"@,
            "--max-diagnostics=none"@,
            "--diagnostic-level=info"@,
            "--no-errors-on-unmatched"@,
        ],
        Tool::Oxlint => seq!["--format"@, "json"@],
        _ => Seq::empty(),
    }
}

/// The arguments of a lint run: the tool's report flags, then each file relative to
/// the root when it lies under it.
pub fn lint_arguments(tool: Tool, root: &str, files: &Vec<String>) -> (r: Vec<String>)
    ensures
        views(r@) == lint_flags(tool) + views(files@).map_values(|f: Seq<char>| stripped(root@, f)),
{
    let mut r: Vec<String> = Vec::new();
    match tool {
        Tool::Eslint | Tool::Oxlint => {
            r.push(owned("--format"));
            r.push(owned("json"));
        },
        Tool::Biome => {
            r.push(owned("lint"));
            r.push(owned("--reporter=json"));
            r.push(owned("--max-diagnostics=none"));
            r.push(owned("--diagnostic-level=info"));
            r.push(owned("--no-errors-on-unmatched"));
        },
        _ => {},
    }
    proof {
        assert(views(r@) =~= lint_flags(tool));
    }
    let ghost flags = views(r@);
    let mut i: usize = 0;
    while i < files.len()
        invariant
            0 <= i <= files@.len(),
            flags == lint_flags(tool),
            views(r@) == flags + views(files@).take(i as int).map_values(|f: Seq<char>| stripped(root@, f)),
        decreases files.len() - i,
    {
        let ghost before = views(r@);
        r.push(strip_root(root, files[i].as_str()));
        proof {
            assert(views(r@) =~= before.push(stripped(root@, files@[i as int]@)));
            assert(views(files@).take(i + 1).map_values(|f: Seq<char>| stripped(root@, f)) =~= views(files@).take(i as int).map_values(|f: Seq<char>| stripped(root@, f)).push(stripped(root@, files@[i as int]@)));
            assert(views(r@) =~= flags + views(files@).take(i + 1).map_values(|f: Seq<char>| stripped(root@, f)));
        }
        i = i + 1;
    }
    proof {
        assert(views(files@).take(files@.len() as int) =~= views(files@));
    }
    r
}

/// The arguments with which a formatter formats `path` from stdin.
pub open spec fn formatter_argument_list(tool: Tool, path: Seq<char>) -> Seq<Seq<char>> {
    match tool {
        Tool::Prettier => seq!["--stdin-filepath"@, path],
        Tool::Biome => seq!["format"@, "--stdin-file-path"@, path],
        Tool::Oxfmt => seq!["--stdin-filepath"@, path],
        _ => Seq::empty(),
    }
}

/// The arguments with which a formatter formats `path` from stdin.
pub fn formatter_arguments(tool: Tool, path: &str) -> (r: Vec<String>)
    ensures
        views(r@) == formatter_argument_list(tool, path@),
{
    match tool {
        Tool::Prettier => prettier::arguments(path),
        Tool::Biome => biome_format::arguments(path),
        Tool::Oxfmt => oxfmt::arguments(path),
        _ => {
            let r: Vec<String> = Vec::new();
            proof {
                assert(views(r@) =~= Seq::<Seq<char>>::empty());
            }
            r
        },
    }
}

/// Formatters read the source from stdin and never rewrite files: their
/// arguments end with the file's path, which stands there once, and every
/// argument before it is a fixed flag other than `--write`.
pub proof fn lemma_formatters_read_stdin(tool: Tool, path: Seq<char>)
    requires
        spec_is_formatter(tool),
    ensures
        formatter_argument_list(tool, path).len() > 0,
        formatter_argument_list(tool, path).last() == path,
        forall|i: int|
            0 <= i < formatter_argument_list(tool, path).len() - 1 ==> #[trigger] formatter_argument_list(tool, path)[i]
                != "--write"@,
{
    reveal_strlit("--write");
    reveal_strlit("--stdin-filepath");
    reveal_strlit("--stdin-file-path");
    reveal_strlit("format");
    let a = formatter_argument_list(tool, path);
    assert forall|i: int| 0 <= i < a.len() - 1 implies #[trigger] a[i] != "--write"@ by {
        assert(a[i].len() != "--write"@.len());
    }
}

/// Text with every `\r\n` written as `\n`, when enabled.
pub open spec fn eol_normalized(s: Seq<char>, enabled: bool) -> Seq<char>
    decreases s.len(),
{
    if !enabled || s.len() == 0 {
        s
    } else if s.len() > 1 && s[0] == '\r' && s[1] == '\n' {
        seq!['\n'] + eol_normalized(s.subrange(2, s.len() as int), enabled)
    } else {
        seq![s[0]] + eol_normalized(s.drop_first(), enabled)
    }
}

/// Writes every `\r\n` as `\n`, when enabled.
pub fn normalized_eol(value: &str, enabled: bool) -> (r: String)
    ensures
        r@ == eol_normalized(value@, enabled),
{
    if !enabled {
        return owned(value);
    }
    let v = crate::text::chars_of(value);
    let mut r = String::new();
    let mut i: usize = 0;
    proof {
        assert(v@.subrange(0, v@.len() as int) =~= v@);
    }
    while i < v.len()
        invariant
            0 <= i <= v@.len(),
            v@ == value@,
            enabled,
            r@ + eol_normalized(v@.subrange(i as int, v@.len() as int), enabled) == eol_normalized(v@, enabled),
        decreases v.len() - i,
    {
        let ghost rest = v@.subrange(i as int, v@.len() as int);
        let ghost before = r@;
        if v[i] == '\r' && i + 1 < v.len() && v[i + 1] == '\n' {
            crate::text::push_char(&mut r, '\n');
            proof {
                assert(rest.subrange(2, rest.len() as int) =~= v@.subrange(i + 2, v@.len() as int));
                assert(r@ + eol_normalized(v@.subrange(i + 2, v@.len() as int), enabled) =~= before + eol_normalized(rest, enabled));
            }
            i = i + 2;
        } else {
            crate::text::push_char(&mut r, v[i]);
            proof {
                assert(rest.drop_first() =~= v@.subrange(i + 1, v@.len() as int));
                assert(r@ + eol_normalized(v@.subrange(i + 1, v@.len() as int), enabled) =~= before + eol_normalized(rest, enabled));
            }
            i = i + 1;
        }
    }
    proof {
        assert(v@.subrange(i as int, v@.len() as int) =~= Seq::<char>::empty());
        assert(r@ + Seq::<char>::empty() =~= r@);
    }
    r
}

/// How the outcomes of the two formatters for one file compare: a failure first,
/// then an unsupported side, then a skipped side, then non-idempotence, then the
/// outputs.
pub open spec fn format_status(b: FormatterOutcome, c: FormatterOutcome, normalize_eol: bool) -> FormatComparisonStatus {
    if b.status == ToolFileStatus::Failed || c.status == ToolFileStatus::Failed {
        FormatComparisonStatus::Failed
    } else if b.status == ToolFileStatus::Unsupported || c.status == ToolFileStatus::Unsupported {
        FormatComparisonStatus::Unsupported
    } else if b.status == ToolFileStatus::Skipped || c.status == ToolFileStatus::Skipped {
        FormatComparisonStatus::Skipped
    } else if b.idempotent == Some(false) && c.idempotent == Some(false) {
        FormatComparisonStatus::BothNonIdempotent
    } else if b.idempotent == Some(false) {
        FormatComparisonStatus::BaselineNonIdempotent
    } else if c.idempotent == Some(false) {
        FormatComparisonStatus::CandidateNonIdempotent
    } else {
        match (opt_view(b.output), opt_view(c.output)) {
            (Some(x), Some(y)) => if eol_normalized(x, normalize_eol) == eol_normalized(y, normalize_eol) {
                FormatComparisonStatus::Identical
            } else {
                FormatComparisonStatus::Different
            },
            _ => FormatComparisonStatus::Different,
        }
    }
}

proof fn lemma_eol_normalized_plain(s: Seq<char>, enabled: bool)
    requires
        !enabled || forall|i: int| 0 <= i < s.len() ==> s[i] != '\r',
    ensures
        eol_normalized(s, enabled) == s,
    decreases s.len(),
{
    if enabled && s.len() > 0 {
        assert(s[0] != '\r');
        assert forall|i: int| 0 <= i < s.drop_first().len() implies s.drop_first()[i] != '\r' by {
            assert(s.drop_first()[i] == s[i + 1]);
        }
        lemma_eol_normalized_plain(s.drop_first(), enabled);
        assert(seq![s[0]] + s.drop_first() =~= s);
    }
}

/// Two formatters that both succeeded idempotently agree exactly when their outputs
/// are the same text: without EOL normalization, `Identical` holds exactly when the
/// outputs are equal character for character; with it, equal outputs are
/// `Identical`, and outputs without carriage returns are `Identical` exactly when
/// they are equal.
pub proof fn lemma_formatters_agree_on_equal_output(b: FormatterOutcome, c: FormatterOutcome)
    requires
        b.status == ToolFileStatus::Success,
        c.status == ToolFileStatus::Success,
        b.idempotent != Some(false),
        c.idempotent != Some(false),
        b.output is Some,
        c.output is Some,
    ensures
        (format_status(b, c, false) == FormatComparisonStatus::Identical) == (b.output->0@ == c.output->0@),
        format_status(b, c, false) == FormatComparisonStatus::Identical || format_status(b, c, false)
            == FormatComparisonStatus::Different,
        b.output->0@ == c.output->0@ ==> format_status(b, c, true) == FormatComparisonStatus::Identical,
        (forall|i: int| 0 <= i < b.output->0@.len() ==> b.output->0@[i] != '\r') && (forall|i: int|
            0 <= i < c.output->0@.len() ==> c.output->0@[i] != '\r') ==> (format_status(b, c, true)
            == FormatComparisonStatus::Identical) == (b.output->0@ == c.output->0@),
{
    let x = b.output->0@;
    let y = c.output->0@;
    lemma_eol_normalized_plain(x, false);
    lemma_eol_normalized_plain(y, false);
    if (forall|i: int| 0 <= i < x.len() ==> x[i] != '\r') && (forall|i: int| 0 <= i < y.len() ==> y[i] != '\r') {
        lemma_eol_normalized_plain(x, true);
        lemma_eol_normalized_plain(y, true);
    }
}

/// How the outcomes of the two formatters for one file compare.
pub fn classify_format(baseline: &FormatterOutcome, candidate: &FormatterOutcome, normalize_eol: bool) -> (r: FormatComparisonStatus)
    ensures
        r == format_status(*baseline, *candidate, normalize_eol),
{
    if baseline.status == ToolFileStatus::Failed || candidate.status == ToolFileStatus::Failed {
        return FormatComparisonStatus::Failed;
    }
    if baseline.status == ToolFileStatus::Unsupported || candidate.status == ToolFileStatus::Unsupported {
        return FormatComparisonStatus::Unsupported;
    }
    if baseline.status == ToolFileStatus::Skipped || candidate.status == ToolFileStatus::Skipped {
        return FormatComparisonStatus::Skipped;
    }
    let bn = baseline.idempotent == Some(false);
    let cn = candidate.idempotent == Some(false);
    if bn && cn {
        return FormatComparisonStatus::BothNonIdempotent;
    }
    if bn {
        return FormatComparisonStatus::BaselineNonIdempotent;
    }
    if cn {
        return FormatComparisonStatus::CandidateNonIdempotent;
    }
    match (&baseline.output, &candidate.output) {
        (Some(left), Some(right)) => {
            let l = normalized_eol(left.as_str(), normalize_eol);
            let r = normalized_eol(right.as_str(), normalize_eol);
            if crate::text::str_eq(l.as_str(), r.as_str()) {
                FormatComparisonStatus::Identical
            } else {
                FormatComparisonStatus::Different
            }
        },
        _ => FormatComparisonStatus::Different,
    }
}

/// The error text of `std::str::from_utf8` on bytes that are not UTF-8.
pub uninterp spec fn utf8_error_text(bytes: Seq<u8>) -> Seq<char>;

/// Whether bytes are the UTF-8 encoding of some text.
pub open spec fn is_utf8(bytes: Seq<u8>) -> bool {
    exists|s: Seq<char>| vstd::utf8::encode_utf8(s) == bytes
}

/// Decodes UTF-8 (`std::str::from_utf8`): the text whose encoding the bytes are, or
/// the error's display text when they are not UTF-8.
#[verifier::external_body]
pub(crate) fn decode_utf8(bytes: &[u8]) -> (r: Result<String, String>)
    ensures
        r is Ok <==> is_utf8(bytes@),
        match r {
            Ok(s) => vstd::utf8::encode_utf8(s@) == bytes@,
            Err(e) => e@ == utf8_error_text(bytes@),
        },
{
    std::str::from_utf8(bytes).map(|text| text.to_owned()).map_err(|error| error.to_string())
}

/// The report text of captured output: nothing when empty, else its text cut to
/// 4096 characters.
pub open spec fn captured(bytes: Seq<u8>) -> Option<Seq<char>> {
    if bytes.len() == 0 {
        None
    } else {
        Some(truncated(lossy_text(bytes), 4096))
    }
}

fn captured_text(bytes: &[u8]) -> (r: Option<String>)
    ensures
        opt_view(r) == captured(bytes@),
{
    if bytes.len() == 0 {
        None
    } else {
        let text = lossy(bytes);
        Some(crate::process::truncate(text.as_str(), 4096))
    }
}

/// The warnings of a successful formatter run: what its stderr streams say, sorted
/// without repetitions.
pub fn formatter_warnings(tool: Tool, stderrs: &Vec<String>) -> (r: Vec<String>)
    ensures
        crate::order::strictly_ascending(views(r@)),
        forall|w: Seq<char>| #[trigger] views(r@).contains(w) <==> exists|i: int| 0 <= i < stderrs@.len() && success_stderr_text(tool, #[trigger] stderrs@[i]@) == Some(w),
{
    let mut found: Vec<String> = Vec::new();
    let mut i: usize = 0;
    while i < stderrs.len()
        invariant
            0 <= i <= stderrs@.len(),
            forall|w: Seq<char>| #[trigger] views(found@).contains(w) <==> exists|k: int| 0 <= k < i && success_stderr_text(tool, #[trigger] stderrs@[k]@) == Some(w),
        decreases stderrs.len() - i,
    {
        let ghost before = views(found@);
        match crate::report::normalized_success_stderr(tool, stderrs[i].as_str()) {
            Some(w) => {
                found.push(w);
                proof {
                    assert(views(found@) =~= before.push(w@));
                    assert forall|x: Seq<char>| #[trigger] views(found@).contains(x) <==> exists|k: int| 0 <= k < i + 1 && success_stderr_text(tool, #[trigger] stderrs@[k]@) == Some(x) by {
                        if views(found@).contains(x) {
                            let j = choose|j: int| 0 <= j < views(found@).len() && views(found@)[j] == x;
                            if j < before.len() {
                                assert(before.contains(x));
                            } else {
                                assert(success_stderr_text(tool, stderrs@[i as int]@) == Some(x));
                            }
                        }
                        if exists|k: int| 0 <= k < i + 1 && success_stderr_text(tool, #[trigger] stderrs@[k]@) == Some(x) {
                            let k = choose|k: int| 0 <= k < i + 1 && success_stderr_text(tool, #[trigger] stderrs@[k]@) == Some(x);
                            if k < i {
                                assert(before.contains(x));
                                let j = choose|j: int| 0 <= j < before.len() && before[j] == x;
                                assert(views(found@)[j] == x);
                            } else {
                                assert(views(found@)[before.len() as int] == x);
                            }
                        }
                    }
                }
            },
            None => {
                proof {
                    assert forall|x: Seq<char>| #[trigger] views(found@).contains(x) <==> exists|k: int| 0 <= k < i + 1 && success_stderr_text(tool, #[trigger] stderrs@[k]@) == Some(x) by {
                        if exists|k: int| 0 <= k < i + 1 && success_stderr_text(tool, #[trigger] stderrs@[k]@) == Some(x) {
                            let k = choose|k: int| 0 <= k < i + 1 && success_stderr_text(tool, #[trigger] stderrs@[k]@) == Some(x);
                            assert(k != i);
                        }
                    }
                }
            },
        }
        i = i + 1;
    }
    let ghost fv = views(found@);
    let r = crate::order::sorted_unique_strings(found);
    proof {
        assert forall|w: Seq<char>| #[trigger] views(r@).contains(w) <==> fv.contains(w) by {
            assert(r@.map_values(|s: String| s@).to_set().contains(w) == views(r@).contains(w));
            assert(found@.map_values(|s: String| s@).to_set().contains(w) == fv.contains(w));
        }
    }
    r
}

/// A formatter resolved to an executable, with the version it reported.
#[derive(Debug, Clone)]
pub struct FormatterAdapter {
    resolved: ResolvedTool,
    version: String,
}

/// The report name of a tool.
pub open spec fn unsupported_role_message(tool: Tool, role: Seq<char>) -> Seq<char> {
    tool_display_name(tool) + " is not a supported "@ + role
}

impl FormatterAdapter {
    /// The tool.
    pub closed spec fn tool_view(&self) -> Tool {
        self.resolved.tool
    }

    /// The executable.
    pub closed spec fn executable_view(&self) -> Seq<char> {
        self.resolved.executable@
    }

    /// The version text.
    pub closed spec fn version_view(&self) -> Seq<char> {
        self.version@
    }

    /// The resolution the formatter was made from, with the places checked and
    /// whether it was configured explicitly.
    pub closed spec fn resolved_view(&self) -> ResolvedTool {
        self.resolved
    }

    /// A formatter from its resolution and its version query: a tool that is not a
    /// formatter is a usage error, a failed resolution is an operational error, and
    /// a failed version query leaves the version `unknown (<error>)`.
    pub fn resolve(
        tool: Tool,
        resolved: Result<ResolvedTool, ToolFailure>,
        version: Result<String, ToolFailure>,
    ) -> (r: Result<Self, ConcordError>)
        ensures
            !spec_is_formatter(tool) ==> (r matches Err(e) && e.kind == ErrorKind::Usage && e.message@ == unsupported_role_message(tool, "formatter"@)),
            spec_is_formatter(tool) ==> match resolved {
                Err(f) => (r matches Err(e) && e.kind == ErrorKind::Operational && e.message@ == failure_message(f)),
                Ok(t) => (r matches Ok(a) && a.resolved_view() == t && a.tool_view() == t.tool && a.executable_view() == t.executable@ && a.version_view() == match version {
                    Ok(v) => v@,
                    Err(f) => "unknown ("@ + failure_message(f) + ")"@,
                }),
            },
    {
        if !tool.is_formatter() {
            let mut message = tool.display_name();
            push_str(&mut message, " is not a supported ");
            push_str(&mut message, "formatter");
            return Err(ConcordError { kind: ErrorKind::Usage, message });
        }
        let resolved = match resolved {
            Ok(t) => t,
            Err(f) => return Err(f.into_error()),
        };
        let version = match version {
            Ok(v) => v,
            Err(f) => {
                let mut text = owned("unknown (");
                push_str(&mut text, f.message().as_str());
                push_str(&mut text, ")");
                text
            },
        };
        Ok(FormatterAdapter { resolved, version })
    }

    /// The tool.
    pub fn tool(&self) -> (r: Tool)
        ensures
            r == self.tool_view(),
    {
        self.resolved.tool
    }

    /// The version text that the tool reported.
    pub fn version(&self) -> (r: &str)
        ensures
            r@ == self.version_view(),
    {
        self.version.as_str()
    }

    /// The executable that runs the formatter.
    pub fn executable(&self) -> (r: &str)
        ensures
            r@ == self.executable_view(),
    {
        self.resolved.executable.as_str()
    }

    /// The built-in capability of the formatter, at its version, for a file.
    pub fn capability_for_path(&self, path: &str) -> (r: CapabilityDecision)
        ensures
            ({
                let status = builtin_status(self.tool_view(), path@, Some(self.version_view()));
                &&& r.status == status
                &&& opt_view(r.reason) == Some(builtin_reason(status))
                &&& r.source == builtin_source(status)
            }),
    {
        adapter_capability_for_path(self.tool(), path, Some(self.version()))
    }

    /// The arguments with which the formatter formats `path` from stdin.
    pub fn arguments(&self, path: &str) -> (r: Vec<String>)
        ensures
            views(r@) == formatter_argument_list(self.tool_view(), path@),
    {
        formatter_arguments(self.tool(), path)
    }
}

/// An outcome that records a run of the formatter: its executable, version,
/// arguments, exit code, duration and captured output.
pub open spec fn records_run(
    o: FormatterOutcome,
    a: FormatterAdapter,
    arguments: Seq<Seq<char>>,
    exit_code: Option<i32>,
    duration_ms: u128,
    stdout: Seq<u8>,
    stderr: Seq<u8>,
) -> bool {
    &&& o.tool == a.tool_view()
    &&& opt_view(o.executable) == Some(a.executable_view())
    &&& opt_view(o.version) == Some(a.version_view())
    &&& views(o.arguments@) == arguments
    &&& o.exit_code == exit_code
    &&& o.duration_ms == Some(duration_ms)
    &&& o.idempotent is None
    &&& opt_view(o.output) == captured(stdout)
    &&& opt_view(o.stderr) == captured(stderr)
    &&& o.warnings@.len() == 0
}

/// The outcome of a failed formatter run.
pub open spec fn is_failed_outcome(
    o: FormatterOutcome,
    a: FormatterAdapter,
    arguments: Seq<Seq<char>>,
    exit_code: Option<i32>,
    duration_ms: u128,
    stdout: Seq<u8>,
    stderr: Seq<u8>,
    error: Seq<char>,
) -> bool {
    &&& o.status == ToolFileStatus::Failed
    &&& records_run(o, a, arguments, exit_code, duration_ms, stdout, stderr)
    &&& o.reason is None
    &&& opt_view(o.error) == Some(error)
}

fn failed_formatter_outcome(
    adapter: &FormatterAdapter,
    arguments: Vec<String>,
    exit_code: Option<i32>,
    duration_ms: u128,
    stdout: &[u8],
    stderr: &[u8],
    error: &str,
) -> (r: FormatterOutcome)
    ensures
        is_failed_outcome(r, *adapter, views(arguments@), exit_code, duration_ms, stdout@, stderr@, error@),
{
    FormatterOutcome {
        status: ToolFileStatus::Failed,
        tool: adapter.tool(),
        executable: Some(adapter.resolved.executable.clone()),
        version: Some(adapter.version.clone()),
        arguments,
        exit_code,
        duration_ms: Some(duration_ms),
        idempotent: None,
        reason: None,
        error: Some(owned(error)),
        output: captured_text(stdout),
        stderr: captured_text(stderr),
        warnings: Vec::new(),
    }
}

fn unsupported_formatter_outcome(
    adapter: &FormatterAdapter,
    arguments: Vec<String>,
    exit_code: Option<i32>,
    duration_ms: u128,
    stdout: &[u8],
    stderr: &[u8],
    reason: String,
) -> (r: FormatterOutcome)
    ensures
        r.status == ToolFileStatus::Unsupported,
        records_run(r, *adapter, views(arguments@), exit_code, duration_ms, stdout@, stderr@),
        opt_view(r.reason) == Some(reason@),
        r.error is None,
{
    FormatterOutcome {
        status: ToolFileStatus::Unsupported,
        tool: adapter.tool(),
        executable: Some(adapter.resolved.executable.clone()),
        version: Some(adapter.version.clone()),
        arguments,
        exit_code,
        duration_ms: Some(duration_ms),
        idempotent: None,
        reason: Some(reason),
        error: None,
        output: captured_text(stdout),
        stderr: captured_text(stderr),
        warnings: Vec::new(),
    }
}

impl FormatterAdapter {
    /// The outcome of a formatter whose worker panicked: failed, with no
    /// arguments, output or time recorded.
    pub fn panic_outcome(&self) -> (r: FormatterOutcome)
        ensures
            is_failed_outcome(r, *self, Seq::empty(), None, 0, Seq::empty(), Seq::empty(), "formatter worker panicked"@),
    {
        let none: Vec<u8> = Vec::new();
        let r = failed_formatter_outcome(self, Vec::new(), None, 0, none.as_slice(), none.as_slice(), "formatter worker panicked");
        proof {
            reveal_strlit("formatter worker panicked");
            assert(views(Seq::<String>::empty()) =~= Seq::<Seq<char>>::empty());
        }
        r
    }
}

/// What to do after a formatter run: run it again on this input, or report.
#[derive(Debug)]
pub enum FormatterStep {
    /// Run the formatter again, with the same arguments, on `input` (its first
    /// output), to check idempotence; then call `run` with both results.
    Repeat { input: String },
    /// The file's outcome.
    Finished(FormatterOutcome),
}

/// The reason a formatter's non-zero exit means an unsupported file, if it does.
pub open spec fn runtime_reason(tool: Tool, version: Seq<char>, path: Seq<char>, stderr: Seq<u8>) -> bool {
    tool == Tool::Oxfmt && oxfmt::names_oxfmt_0_60(version) && crate::capabilities::file_name(path) == Some("package-lock.json"@)
        && crate::text::contains_seq(lossy_text(stderr), oxfmt::refusal_message())
}

/// The outcome of two successful runs: the first output, whether formatting it again
/// changed it, and the warnings of both stderr streams.
pub open spec fn is_success_outcome(
    o: FormatterOutcome,
    a: FormatterAdapter,
    arguments: Seq<Seq<char>>,
    first: ProcessOutput,
    second: ProcessOutput,
    normalize_eol: bool,
) -> bool {
    &&& o.status == ToolFileStatus::Success
    &&& o.tool == a.tool_view()
    &&& opt_view(o.executable) == Some(a.executable_view())
    &&& opt_view(o.version) == Some(a.version_view())
    &&& views(o.arguments@) == arguments
    &&& o.exit_code == first.exit_code
    &&& o.duration_ms == Some((first.duration_ms + second.duration_ms) as u128)
    &&& o.reason is None
    &&& o.error is None
    &&& o.stderr is None
    &&& o.output is Some
    &&& vstd::utf8::encode_utf8(o.output.unwrap()@) == first.stdout@
    &&& exists|t: Seq<char>| vstd::utf8::encode_utf8(t) == second.stdout@ && o.idempotent == Some(
        eol_normalized(o.output.unwrap()@, normalize_eol) == eol_normalized(t, normalize_eol),
    )
    &&& crate::order::strictly_ascending(views(o.warnings@))
    &&& forall|w: Seq<char>| #[trigger] views(o.warnings@).contains(w) <==> (success_stderr_text(a.tool_view(), lossy_text(first.stderr@)) == Some(w)
        || success_stderr_text(a.tool_view(), lossy_text(second.stderr@)) == Some(w))
}

impl FormatterAdapter {
    /// Decides what follows the runs of the formatter on `path` so far: `first` is
    /// the result of running it with `arguments(path)` on the file's content, and
    /// `second` the result of running it again on what `Repeat` asked for.
    pub fn run(
        &self,
        path: &str,
        normalize_eol: bool,
        first: &Result<ProcessOutput, ToolFailure>,
        second: Option<&Result<ProcessOutput, ToolFailure>>,
    ) -> (r: FormatterStep)
        requires
            first matches Ok(f) && second matches Some(Ok(s)) ==> f.duration_ms + s.duration_ms <= u128::MAX,
        ensures
            ({
                let args = formatter_argument_list(self.tool_view(), path@);
                match *first {
                    Err(f) => (r matches FormatterStep::Finished(o) && is_failed_outcome(o, *self, args, None, 0, Seq::empty(), Seq::empty(), failure_message(f))),
                    Ok(out) => if out.exit_code != Some(0i32) {
                        if runtime_reason(self.tool_view(), self.version_view(), path@, out.stderr@) {
                            (r matches FormatterStep::Finished(o) && o.status == ToolFileStatus::Unsupported
                                && records_run(o, *self, args, out.exit_code, out.duration_ms, out.stdout@, out.stderr@)
                                && opt_view(o.reason) == Some("Oxfmt 0.60.0 does not support package-lock.json via stdin"@) && o.error is None)
                        } else {
                            (r matches FormatterStep::Finished(o) && is_failed_outcome(o, *self, args, out.exit_code, out.duration_ms, out.stdout@, out.stderr@, "formatter returned a non-zero exit code"@))
                        }
                    } else if !is_utf8(out.stdout@) {
                        (r matches FormatterStep::Finished(o) && is_failed_outcome(o, *self, args, out.exit_code, out.duration_ms, out.stdout@, out.stderr@,
                            "formatter output is not UTF-8: "@ + utf8_error_text(out.stdout@)))
                    } else {
                        match second {
                            None => (r matches FormatterStep::Repeat { input } && vstd::utf8::encode_utf8(input@) == out.stdout@),
                            Some(Err(f)) => (r matches FormatterStep::Finished(o) && is_failed_outcome(o, *self, args, None, out.duration_ms, Seq::empty(), out.stderr@,
                                "idempotency check failed: "@ + failure_message(*f))),
                            Some(Ok(s)) => if s.exit_code != Some(0i32) {
                                (r matches FormatterStep::Finished(o) && is_failed_outcome(o, *self, args, s.exit_code, (out.duration_ms + s.duration_ms) as u128, s.stdout@, s.stderr@,
                                    "formatter failed during the idempotency check"@))
                            } else if !is_utf8(s.stdout@) {
                                (r matches FormatterStep::Finished(o) && is_failed_outcome(o, *self, args, s.exit_code, (out.duration_ms + s.duration_ms) as u128, s.stdout@, s.stderr@,
                                    "second formatter output is not UTF-8: "@ + utf8_error_text(s.stdout@)))
                            } else {
                                (r matches FormatterStep::Finished(o) && is_success_outcome(o, *self, args, out, *s, normalize_eol))
                            },
                        }
                    },
                }
            }),
    {
        let arguments = self.arguments(path);
        let out = match first {
            Err(f) => {
                let message = f.message();
                return FormatterStep::Finished(failed_formatter_outcome(self, arguments, None, 0, &[], &[], message.as_str()));
            },
            Ok(out) => out,
        };
        if out.exit_code != Some(0i32) {
            if self.tool() == Tool::Oxfmt {
                if let Some(reason) = oxfmt::runtime_unsupported_reason(self.version(), path, out.stderr.as_slice()) {
                    return FormatterStep::Finished(unsupported_formatter_outcome(
                        self,
                        arguments,
                        out.exit_code,
                        out.duration_ms,
                        out.stdout.as_slice(),
                        out.stderr.as_slice(),
                        reason,
                    ));
                }
            }
            return FormatterStep::Finished(failed_formatter_outcome(
                self,
                arguments,
                out.exit_code,
                out.duration_ms,
                out.stdout.as_slice(),
                out.stderr.as_slice(),
                "formatter returned a non-zero exit code",
            ));
        }
        let first_text = match decode_utf8(out.stdout.as_slice()) {
            Ok(text) => text,
            Err(error) => {
                let mut detail = owned("formatter output is not UTF-8: ");
                push_str(&mut detail, error.as_str());
                return FormatterStep::Finished(failed_formatter_outcome(
                    self,
                    arguments,
                    out.exit_code,
                    out.duration_ms,
                    out.stdout.as_slice(),
                    out.stderr.as_slice(),
                    detail.as_str(),
                ));
            },
        };
        let second = match second {
            None => return FormatterStep::Repeat { input: first_text },
            Some(s) => s,
        };
        match second {
            Err(f) => {
                let mut detail = owned("idempotency check failed: ");
                push_str(&mut detail, f.message().as_str());
                FormatterStep::Finished(failed_formatter_outcome(
                    self,
                    arguments,
                    None,
                    out.duration_ms,
                    &[],
                    out.stderr.as_slice(),
                    detail.as_str(),
                ))
            },
            Ok(s) => {
                let total = out.duration_ms + s.duration_ms;
                if s.exit_code != Some(0i32) {
                    return FormatterStep::Finished(failed_formatter_outcome(
                        self,
                        arguments,
                        s.exit_code,
                        total,
                        s.stdout.as_slice(),
                        s.stderr.as_slice(),
                        "formatter failed during the idempotency check",
                    ));
                }
                match decode_utf8(s.stdout.as_slice()) {
                    Err(error) => {
                        let mut detail = owned("second formatter output is not UTF-8: ");
                        push_str(&mut detail, error.as_str());
                        FormatterStep::Finished(failed_formatter_outcome(
                            self,
                            arguments,
                            s.exit_code,
                            total,
                            s.stdout.as_slice(),
                            s.stderr.as_slice(),
                            detail.as_str(),
                        ))
                    },
                    Ok(second_text) => {
                        let a = normalized_eol(first_text.as_str(), normalize_eol);
                        let b = normalized_eol(second_text.as_str(), normalize_eol);
                        let idempotent = crate::text::str_eq(a.as_str(), b.as_str());
                        let mut stderrs: Vec<String> = Vec::new();
                        stderrs.push(lossy(out.stderr.as_slice()));
                        stderrs.push(lossy(s.stderr.as_slice()));
                        let warnings = formatter_warnings(self.tool(), &stderrs);
                        proof {
                            assert forall|w: Seq<char>| #[trigger] views(warnings@).contains(w) <==> (success_stderr_text(self.tool_view(), lossy_text(out.stderr@)) == Some(w)
                                || success_stderr_text(self.tool_view(), lossy_text(s.stderr@)) == Some(w)) by {
                                if success_stderr_text(self.tool_view(), lossy_text(out.stderr@)) == Some(w) {
                                    assert(success_stderr_text(self.tool_view(), stderrs@[0]@) == Some(w));
                                }
                                if success_stderr_text(self.tool_view(), lossy_text(s.stderr@)) == Some(w) {
                                    assert(success_stderr_text(self.tool_view(), stderrs@[1]@) == Some(w));
                                }
                            }
                        }
                        FormatterStep::Finished(FormatterOutcome {
                            status: ToolFileStatus::Success,
                            tool: self.tool(),
                            executable: Some(self.resolved.executable.clone()),
                            version: Some(self.version.clone()),
                            arguments,
                            exit_code: out.exit_code,
                            duration_ms: Some(total),
                            idempotent: Some(idempotent),
                            reason: None,
                            error: None,
                            output: Some(first_text),
                            stderr: None,
                            warnings,
                        })
                    },
                }
            },
        }
    }
}

/// Compares the outcomes of both formatters for one file; a differing file gets the
/// unified diff of the two outputs.
pub fn compare_format_file(
    root: &str,
    path: &str,
    baseline: FormatterOutcome,
    candidate: FormatterOutcome,
    normalize_eol: bool,
) -> (r: crate::report::FormatFileResult)
    ensures
        r.path@ == crate::paths::spec_normalize_path(root@, path@),
        r.status == format_status(baseline, candidate, normalize_eol),
        r.baseline == baseline,
        r.candidate == candidate,
        opt_view(r.diff) == if r.status == FormatComparisonStatus::Different {
            match (opt_view(baseline.output), opt_view(candidate.output)) {
                (Some(b), Some(c)) => Some(crate::report::unified_diff_text(
                    "baseline/"@ + r.path@,
                    "candidate/"@ + r.path@,
                    3,
                    eol_normalized(b, normalize_eol),
                    eol_normalized(c, normalize_eol),
                )),
                _ => None,
            }
        } else {
            None
        },
{
    let status = classify_format(&baseline, &candidate, normalize_eol);
    let report_path = crate::paths::normalize_path(root, path);
    let diff = if status == FormatComparisonStatus::Different {
        match (&baseline.output, &candidate.output) {
            (Some(b), Some(c)) => {
                let b = normalized_eol(b.as_str(), normalize_eol);
                let c = normalized_eol(c.as_str(), normalize_eol);
                Some(crate::report::unified_diff(report_path.as_str(), b.as_str(), c.as_str()))
            },
            _ => None,
        }
    } else {
        None
    };
    crate::report::FormatFileResult { path: report_path, status, baseline, candidate, diff }
}

/// The arguments of a lint run of `tool` on `files`, when a run is needed: none for
/// a tool that is not a linter or when there are no files.
pub fn lint_invocation(tool: Tool, root: &str, files: &Vec<String>) -> (r: Option<Vec<String>>)
    ensures
        match r {
            Some(a) => spec_is_linter(tool) && files@.len() > 0 && views(a@) == lint_flags(tool)
                + views(files@).map_values(|f: Seq<char>| stripped(root@, f)),
            None => !spec_is_linter(tool) || files@.len() == 0,
        },
{
    if !tool.is_linter() || files.len() == 0 {
        None
    } else {
        Some(lint_arguments(tool, root, files))
    }
}

/// What running a linter produced: how the tool was resolved, its version query,
/// the run itself, and the texts of the files its report names that could be read,
/// keyed by their path under the root (Oxlint's positions are offsets into them; see
/// `oxlint::reported_paths`).
#[derive(Debug)]
pub struct LintExecution {
    pub resolved: Result<ResolvedTool, ToolFailure>,
    pub version: Result<String, ToolFailure>,
    pub output: Result<ProcessOutput, ToolFailure>,
    pub sources: Vec<(String, String)>,
}

/// What reading a linter's report text gives, by the linter's format.
pub open spec fn lint_output_read(
    tool: Tool,
    source: Seq<char>,
    root: Seq<char>,
    aliases: AliasTable,
    sources: Seq<(String, String)>,
    r: Result<ParsedDiagnostics, String>,
) -> bool {
    match tool {
        Tool::Eslint => crate::adapters::eslint::parsed_report(source, root, aliases, r),
        Tool::Biome => crate::adapters::biome_lint::parsed_report(source, root, aliases, r),
        _ => crate::adapters::oxlint::parsed_report(source, root, aliases, sources, r),
    }
}

/// Reads a linter's report text in the linter's format.
pub fn read_lint_output(
    tool: Tool,
    source: &str,
    root: &str,
    aliases: &AliasTable,
    sources: &Vec<(String, String)>,
) -> (r: Result<ParsedDiagnostics, String>)
    ensures
        lint_output_read(tool, source@, root@, *aliases, sources@, r),
{
    match tool {
        Tool::Eslint => crate::adapters::eslint::parse(source, root, aliases),
        Tool::Biome => crate::adapters::biome_lint::parse(source, root, aliases),
        _ => crate::adapters::oxlint::parse(source, root, aliases, sources),
    }
}

/// The version text of a tool, `unknown (<error>)` when the query failed.
pub open spec fn version_text(version: Result<String, ToolFailure>) -> Seq<char> {
    match version {
        Ok(v) => v@,
        Err(f) => "unknown ("@ + failure_message(f) + ")"@,
    }
}

fn version_of(version: &Result<String, ToolFailure>) -> (r: String)
    ensures
        r@ == version_text(*version),
{
    match version {
        Ok(v) => v.clone(),
        Err(f) => {
            let mut text = owned("unknown (");
            push_str(&mut text, f.message().as_str());
            push_str(&mut text, ")");
            text
        },
    }
}

/// The failure that reports a linter's unexpected exit.
pub open spec fn exit_failure_text(tool: Tool, executable: Seq<char>, arguments: Seq<Seq<char>>, out: ProcessOutput) -> Seq<char> {
    tool_display_name(tool) + " failed\ncommand: "@ + executable + " "@ + crate::process::shown_arguments(arguments)
        + "\nexit code: "@ + crate::error::exit_code_debug(out.exit_code) + "\nstderr: "@ + truncated(lossy_text(out.stderr@), 4096)
}

/// The failure that reports a linter output that Concord cannot read.
pub open spec fn invalid_output_text(
    tool: Tool,
    executable: Seq<char>,
    arguments: Seq<Seq<char>>,
    exit_code: Option<i32>,
    stderr: Seq<char>,
    detail: Seq<char>,
) -> Seq<char> {
    "failed to parse "@ + tool_display_name(tool) + " "@ + "JSON"@ + " output\ncommand: "@ + executable + " "@
        + crate::process::shown_arguments(arguments) + "\nexit code: "@ + crate::error::exit_code_debug(exit_code)
        + "\nstderr: "@ + truncated(stderr, 4096) + "\nerror: "@ + detail
}

/// Runs the decisions of a lint run: a tool that is not a linter is a usage error; no
/// files means nothing runs; otherwise `execution` holds what running the tool with
/// `lint_invocation`'s arguments produced, and a failed resolution or run, an exit
/// code other than 0 or 1, output that is not UTF-8, exit code 1 with blank output,
/// or output that does not parse is an operational error.
pub fn run_linter(
    tool: Tool,
    root: &str,
    files: &Vec<String>,
    aliases: &AliasTable,
    execution: Option<LintExecution>,
) -> (r: Result<crate::model::ToolRun, ConcordError>)
    requires
        spec_is_linter(tool) && files@.len() > 0 ==> execution is Some,
    ensures
        !spec_is_linter(tool) ==> (r matches Err(e) && e.kind == ErrorKind::Usage && e.message@ == unsupported_role_message(tool, "linter"@)),
        spec_is_linter(tool) && files@.len() == 0 ==> (r matches Ok(run) && run.tool == tool && run.executable@ == tool_config_key(tool)
            && run.version@ == "not executed (no comparable files)"@ && run.arguments@.len() == 0 && run.exit_code is None
            && run.duration_ms == 0 && run.diagnostics@.len() == 0 && run.warnings@.len() == 0 && run.stdout@.len() == 0
            && run.stderr@.len() == 0),
        spec_is_linter(tool) && files@.len() > 0 ==> ({
            let x = execution.unwrap();
            let args = lint_flags(tool) + views(files@).map_values(|f: Seq<char>| stripped(root@, f));
            match x.resolved {
                Err(f) => (r matches Err(e) && e.kind == ErrorKind::Operational && e.message@ == failure_message(f)),
                Ok(t) => match x.output {
                    Err(f) => (r matches Err(e) && e.kind == ErrorKind::Operational && e.message@ == failure_message(f)),
                    Ok(out) => if !(out.exit_code == Some(0i32) || out.exit_code == Some(1i32)) {
                        (r matches Err(e) && e.kind == ErrorKind::Operational && e.message@ == exit_failure_text(tool, t.executable@, args, out))
                    } else if !is_utf8(out.stdout@) {
                        (r matches Err(e) && e.kind == ErrorKind::Operational && e.message@ == invalid_output_text(tool, t.executable@, args, out.exit_code,
                            lossy_text(out.stderr@), "stdout is not UTF-8: "@ + utf8_error_text(out.stdout@)))
                    } else if out.exit_code == Some(1i32) && (exists|s: Seq<char>| vstd::utf8::encode_utf8(s) == out.stdout@ && crate::text::trim_seq(s).len() == 0) {
                        (r matches Err(e) && e.kind == ErrorKind::Operational && e.message@ == exit_failure_text(tool, t.executable@, args, out))
                    } else {
                        exists|p: Result<ParsedDiagnostics, String>|
                            #[trigger] lint_output_read(tool, vstd::utf8::decode_utf8(out.stdout@), root@, *aliases, x.sources@, p) && match p {
                            Err(detail) => (r matches Err(e) && e.kind == ErrorKind::Operational && e.message@ == invalid_output_text(tool, t.executable@, args,
                                out.exit_code, lossy_text(out.stderr@), detail@)),
                            Ok(p) => (r matches Ok(run) && run.tool == tool && run.executable@ == t.executable@ && run.version@ == version_text(x.version)
                                && views(run.arguments@) == args && run.exit_code == out.exit_code && run.duration_ms == out.duration_ms
                                && run.diagnostics@ == crate::order::stable_sort(p.diagnostics@) && run.warnings == p.warnings
                                && vstd::utf8::encode_utf8(run.stdout@) == out.stdout@ && run.stderr@ == lossy_text(out.stderr@)),
                        }
                    },
                },
            }
        }),
{
    if !tool.is_linter() {
        let mut message = tool.display_name();
        push_str(&mut message, " is not a supported ");
        push_str(&mut message, "linter");
        return Err(ConcordError { kind: ErrorKind::Usage, message });
    }
    if files.len() == 0 {
        return Ok(crate::model::ToolRun {
            tool,
            executable: tool.config_key(),
            version: owned("not executed (no comparable files)"),
            arguments: Vec::new(),
            exit_code: None,
            duration_ms: 0,
            diagnostics: Vec::new(),
            warnings: Vec::new(),
            stdout: String::new(),
            stderr: String::new(),
        });
    }
    let x = match execution {
        Some(x) => x,
        None => return Err(ConcordError::operational("the linter was not run")),
    };
    let arguments = lint_arguments(tool, root, files);
    let resolved = match x.resolved {
        Ok(t) => t,
        Err(f) => return Err(f.into_error()),
    };
    let out = match x.output {
        Ok(out) => out,
        Err(f) => return Err(f.into_error()),
    };
    let shown = crate::process::display_arguments(&arguments);
    let stderr = lossy(out.stderr.as_slice());
    let exit_ok = out.exit_code == Some(0i32) || out.exit_code == Some(1i32);
    if !exit_ok {
        let failure = ToolFailure::Exit {
            tool: tool.display_name(),
            executable: resolved.executable.clone(),
            arguments: shown,
            exit_code: out.exit_code,
            stderr: crate::process::truncate(stderr.as_str(), 4096),
        };
        return Err(failure.into_error());
    }
    let stdout = match decode_utf8(out.stdout.as_slice()) {
        Ok(text) => text,
        Err(error) => {
            let mut detail = owned("stdout is not UTF-8: ");
            push_str(&mut detail, error.as_str());
            let failure = ToolFailure::InvalidOutput {
                tool: tool.display_name(),
                format: owned("JSON"),
                executable: resolved.executable.clone(),
                arguments: shown,
                exit_code: out.exit_code,
                stderr: crate::process::truncate(stderr.as_str(), 4096),
                detail,
            };
            return Err(failure.into_error());
        },
    };
    if out.exit_code == Some(1i32) && crate::text::is_blank(stdout.as_str()) {
        let failure = ToolFailure::Exit {
            tool: tool.display_name(),
            executable: resolved.executable.clone(),
            arguments: shown,
            exit_code: out.exit_code,
            stderr: crate::process::truncate(stderr.as_str(), 4096),
        };
        return Err(failure.into_error());
    }
    proof {
        if out.exit_code == Some(1i32) && (exists|s: Seq<char>| vstd::utf8::encode_utf8(s) == out.stdout@ && crate::text::trim_seq(s).len() == 0) {
            let s = choose|s: Seq<char>| vstd::utf8::encode_utf8(s) == out.stdout@ && crate::text::trim_seq(s).len() == 0;
            vstd::utf8::encode_utf8_decode_utf8(s);
            vstd::utf8::encode_utf8_decode_utf8(stdout@);
        }
    }
    let read = read_lint_output(tool, stdout.as_str(), root, aliases, &x.sources);
    proof {
        vstd::utf8::encode_utf8_decode_utf8(stdout@);
        assert(lint_output_read(tool, vstd::utf8::decode_utf8(out.stdout@), root@, *aliases, x.sources@, read));
    }
    let parsed = match read {
        Ok(p) => p,
        Err(detail) => {
            let failure = ToolFailure::InvalidOutput {
                tool: tool.display_name(),
                format: owned("JSON"),
                executable: resolved.executable.clone(),
                arguments: shown,
                exit_code: out.exit_code,
                stderr: crate::process::truncate(stderr.as_str(), 4096),
                detail,
            };
            return Err(failure.into_error());
        },
    };
    let mut diagnostics = parsed.diagnostics;
    crate::matching::sort_diagnostics(&mut diagnostics);
    Ok(crate::model::ToolRun {
        tool,
        executable: resolved.executable,
        version: version_of(&x.version),
        arguments,
        exit_code: out.exit_code,
        duration_ms: out.duration_ms,
        diagnostics,
        warnings: parsed.warnings,
        stdout,
        stderr,
    })
}

} // verus!
