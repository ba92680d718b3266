//! The reports of plans and comparisons, and the decisions that they carry.
use vstd::prelude::*;

use crate::capabilities::{
    disposition_view, ComparisonPlan, FileDisposition, PlannedFile, PlannedToolFile,
    PlannedToolStatus,
};
use crate::matching::{kind_rank, DiagnosticMatch, MappingConfidence, MatchKind, MatchResult};
use crate::model::{clone_opt_string, opt_view, tool_display_name, tool_rank, Diagnostic, Tool, ToolRun};
use crate::order::{key_order, sorted_by_key, stable_sort, strictly_sorted_by_key, KeyPart, Keyed};
use crate::paths::views;
use crate::process::{truncate, truncated};
use crate::scoring::{ComparableLintSummary, MappingSummary, RawLintSummary};
use crate::text::{chars_of, decimal, owned, push_char, push_str, str_eq, trim_seq, Order};

verus! {

/// The version of the report format.
pub const REPORT_SCHEMA_VERSION: u32 = 2;

/// Which diagnostics a lint comparison counts.
#[derive(Debug, Clone, Copy, PartialEq, Eq, Structural)]
pub enum ComparisonProfile {
    Raw,
    Comparable,
}

/// How many configured mappings of each confidence a plan uses.
#[derive(Debug, Clone, Copy, PartialEq, Eq, Structural)]
pub struct ConfiguredMappingSummary {
    pub exact: usize,
    pub approximate: usize,
}

/// A rule mapping as a plan lists it.
#[derive(Debug)]
pub struct PlanRuleMapping {
    pub baseline_tool: Tool,
    pub baseline: String,
    pub candidate_tool: Tool,
    pub candidate: String,
    pub confidence: MappingConfidence,
    pub notes: Option<String>,
}

/// The rank of a confidence: exact first.
pub open spec fn confidence_rank(c: MappingConfidence) -> int {
    match c {
        MappingConfidence::Exact => 0,
        MappingConfidence::Approximate => 1,
    }
}

impl Keyed for PlanRuleMapping {
    /// Field by field, a mapping without notes before one with notes.
    open spec fn key(&self) -> Seq<KeyPart> {
        seq![
            KeyPart::Num(tool_rank(self.baseline_tool)),
            KeyPart::Text(self.baseline@),
            KeyPart::Num(tool_rank(self.candidate_tool)),
            KeyPart::Text(self.candidate@),
            KeyPart::Num(confidence_rank(self.confidence)),
        ] + match self.notes {
            Some(n) => seq![KeyPart::Num(1), KeyPart::Text(n@)],
            None => seq![KeyPart::Num(0)],
        }
    }

    fn compare_key(&self, other: &Self) -> (r: Order) {
        let a = crate::text::compare_u64(self.baseline_tool.rank() as u64, other.baseline_tool.rank() as u64);
        let b = crate::text::compare_text(self.baseline.as_str(), other.baseline.as_str());
        let c = crate::text::compare_u64(self.candidate_tool.rank() as u64, other.candidate_tool.rank() as u64);
        let d = crate::text::compare_text(self.candidate.as_str(), other.candidate.as_str());
        let e = crate::text::compare_u64(
            if self.confidence == MappingConfidence::Exact { 0 } else { 1 },
            if other.confidence == MappingConfidence::Exact { 0 } else { 1 },
        );
        let f = match (&self.notes, &other.notes) {
            (None, None) => Order::Equal,
            (None, Some(_)) => Order::Less,
            (Some(_), None) => Order::Greater,
            (Some(x), Some(y)) => crate::text::compare_text(x.as_str(), y.as_str()),
        };
        let r = crate::matching::chain(a, crate::matching::chain(b, crate::matching::chain(c, crate::matching::chain(d, crate::matching::chain(e, f)))));
        proof {
            let x = self.key();
            let y = other.key();
            let x5 = x.drop_first().drop_first().drop_first().drop_first().drop_first();
            let y5 = y.drop_first().drop_first().drop_first().drop_first().drop_first();
            match (opt_view(self.notes), opt_view(other.notes)) {
                (Some(n), Some(m)) => {
                    assert(x5 =~= seq![KeyPart::Num(1), KeyPart::Text(n)]);
                    assert(y5 =~= seq![KeyPart::Num(1), KeyPart::Text(m)]);
                    assert(x5.drop_first().drop_first() =~= Seq::<KeyPart>::empty());
                    assert(y5.drop_first().drop_first() =~= Seq::<KeyPart>::empty());
                },
                (Some(n), None) => {
                    assert(x5 =~= seq![KeyPart::Num(1), KeyPart::Text(n)]);
                    assert(y5 =~= seq![KeyPart::Num(0)]);
                },
                (None, Some(m)) => {
                    assert(x5 =~= seq![KeyPart::Num(0)]);
                    assert(y5 =~= seq![KeyPart::Num(1), KeyPart::Text(m)]);
                },
                (None, None) => {
                    assert(x5 =~= seq![KeyPart::Num(0)]);
                    assert(y5 =~= seq![KeyPart::Num(0)]);
                    assert(x5.drop_first() =~= Seq::<KeyPart>::empty());
                    assert(y5.drop_first() =~= Seq::<KeyPart>::empty());
                },
            }
            reveal_with_fuel(key_order, 8);
        }
        r
    }
}

/// How many mappings of `v` have confidence `c`.
pub open spec fn count_confidence(v: Seq<PlanRuleMapping>, c: MappingConfidence) -> nat
    decreases v.len(),
{
    if v.len() == 0 {
        0
    } else {
        count_confidence(v.drop_last(), c) + if v.last().confidence == c {
            1nat
        } else {
            0nat
        }
    }
}

/// The plan of a comparison, as reports show it.
#[derive(Debug)]
pub struct PlanReport {
    pub schema_version: u32,
    pub mode: String,
    pub baseline_tool: Tool,
    pub candidate_tool: Tool,
    pub plan: ComparisonPlan,
    pub configured_rule_mappings: ConfiguredMappingSummary,
    pub rule_mappings: Vec<PlanRuleMapping>,
    pub failures: Vec<String>,
}

/// How many mappings of each confidence a list holds.
fn count_confidences(v: &Vec<PlanRuleMapping>) -> (r: ConfiguredMappingSummary)
    ensures
        r.exact == count_confidence(v@, MappingConfidence::Exact),
        r.approximate == count_confidence(v@, MappingConfidence::Approximate),
{
    let mut exact: usize = 0;
    let mut approximate: usize = 0;
    let mut i: usize = 0;
    while i < v.len()
        invariant
            0 <= i <= v@.len(),
            exact == count_confidence(v@.take(i as int), MappingConfidence::Exact),
            approximate == count_confidence(v@.take(i as int), MappingConfidence::Approximate),
            exact + approximate == i,
        decreases v.len() - i,
    {
        proof {
            assert(v@.take(i + 1).drop_last() =~= v@.take(i as int));
        }
        if v[i].confidence == MappingConfidence::Exact {
            exact = exact + 1;
        } else {
            approximate = approximate + 1;
        }
        i = i + 1;
    }
    proof {
        assert(v@.take(v@.len() as int) =~= v@);
    }
    ConfiguredMappingSummary { exact, approximate }
}

impl PlanReport {
    /// A plan report whose mappings are sorted with repetitions removed.
    pub fn new(
        mode: &str,
        baseline_tool: Tool,
        candidate_tool: Tool,
        plan: ComparisonPlan,
        rule_mappings: Vec<PlanRuleMapping>,
    ) -> (r: Self)
        ensures
            r.schema_version == REPORT_SCHEMA_VERSION,
            r.mode@ == mode@,
            r.baseline_tool == baseline_tool,
            r.candidate_tool == candidate_tool,
            r.plan == plan,
            strictly_sorted_by_key(r.rule_mappings@),
            forall|i: int| 0 <= i < r.rule_mappings@.len() ==> rule_mappings@.contains(#[trigger] r.rule_mappings@[i]),
            crate::order::covers_keys(r.rule_mappings@, rule_mappings@),
            r.configured_rule_mappings.exact == count_confidence(r.rule_mappings@, MappingConfidence::Exact),
            r.configured_rule_mappings.approximate == count_confidence(r.rule_mappings@, MappingConfidence::Approximate),
            r.failures@.len() == 0,
    {
        let rule_mappings = crate::order::sort_dedup_by_key(rule_mappings);
        let configured_rule_mappings = count_confidences(&rule_mappings);
        PlanReport {
            schema_version: REPORT_SCHEMA_VERSION,
            mode: owned(mode),
            baseline_tool,
            candidate_tool,
            plan,
            configured_rule_mappings,
            rule_mappings,
            failures: Vec::new(),
        }
    }
}

/// The text with every `\` written as `/`.
pub open spec fn forward_slashes(s: Seq<char>) -> Seq<char> {
    s.map_values(|c: char| if c == '\\' { '/' } else { c })
}

/// Writes every `\` of a text as `/`.
fn to_forward_slashes(s: &str) -> (r: String)
    ensures
        r@ == forward_slashes(s@),
{
    let v = chars_of(s);
    let mut r = String::new();
    let mut i: usize = 0;
    while i < v.len()
        invariant
            0 <= i <= v@.len(),
            v@ == s@,
            r@ == forward_slashes(v@.take(i as int)),
        decreases v.len() - i,
    {
        push_char(&mut r, if v[i] == '\\' { '/' } else { v[i] });
        proof {
            assert(forward_slashes(v@.take(i + 1)) =~= forward_slashes(v@.take(i as int)).push(if v@[i as int] == '\\' { '/' } else { v@[i as int] }));
        }
        i = i + 1;
    }
    proof {
        assert(v@.take(v@.len() as int) =~= v@);
    }
    r
}

/// Text with `\r\n` and lone `\r` both written as `\n`.
pub open spec fn unix_eol(s: Seq<char>) -> Seq<char>
    decreases s.len(),
{
    if s.len() == 0 {
        Seq::empty()
    } else if s[0] == '\r' && s.len() > 1 && s[1] == '\n' {
        seq!['\n'] + unix_eol(s.subrange(2, s.len() as int))
    } else {
        seq![if s[0] == '\r' { '\n' } else { s[0] }] + unix_eol(s.drop_first())
    }
}

/// The lines of a text without `\r` (`str::lines`): cut after every newline,
/// without the newlines.
pub open spec fn text_lines(s: Seq<char>) -> Seq<Seq<char>> {
    crate::text::pieces(s).map_values(
        |p: Seq<char>|
            if p.len() > 0 && p.last() == '\n' {
                p.drop_last()
            } else {
                p
            },
    )
}

/// Lines joined by newlines.
pub open spec fn join_lines(ls: Seq<Seq<char>>) -> Seq<char>
    decreases ls.len(),
{
    if ls.len() == 0 {
        Seq::empty()
    } else if ls.len() == 1 {
        ls[0]
    } else {
        join_lines(ls.drop_last()) + seq!['\n'] + ls.last()
    }
}

/// Whether a line holds something other than white space.
pub open spec fn has_content(l: Seq<char>) -> bool {
    trim_seq(l).len() > 0
}

/// The text of a successful run's stderr: its lines from the first to the last that
/// hold something, at most 4096 characters, under a heading that names the tool;
/// nothing when every line is blank.
#[verifier::opaque]
pub open spec fn success_stderr_text(tool: Tool, stderr: Seq<char>) -> Option<Seq<char>> {
    let ls = text_lines(unix_eol(stderr));
    if exists|i: int| 0 <= i < ls.len() && #[trigger] has_content(ls[i]) {
        let first = choose|i: int| 0 <= i < ls.len() && has_content(ls[i]) && forall|j: int| 0 <= j < i ==> !#[trigger] has_content(ls[j]);
        let last = choose|i: int| 0 <= i < ls.len() && has_content(ls[i]) && forall|j: int| i < j < ls.len() ==> !#[trigger] has_content(ls[j]);
        Some(tool_display_name(tool) + " stderr:\n"@ + truncated(join_lines(ls.subrange(first, last + 1)), 4096))
    } else {
        None
    }
}

/// Writes `\r\n` and lone `\r` as `\n`.
fn to_unix_eol(s: &str) -> (r: String)
    ensures
        r@ == unix_eol(s@),
{
    let v = chars_of(s);
    let mut r = String::new();
    let mut i: usize = 0;
    proof {
        assert(v@.subrange(0, v@.len() as int) =~= v@);
    }
    while i < v.len()
        invariant
            0 <= i <= v@.len(),
            v@ == s@,
            r@ + unix_eol(v@.subrange(i as int, v@.len() as int)) == unix_eol(v@),
        decreases v.len() - i,
    {
        let ghost rest = v@.subrange(i as int, v@.len() as int);
        let ghost before = r@;
        if v[i] == '\r' && i + 1 < v.len() && v[i + 1] == '\n' {
            push_char(&mut r, '\n');
            proof {
                assert(rest.subrange(2, rest.len() as int) =~= v@.subrange(i + 2, v@.len() as int));
                assert(r@ + unix_eol(v@.subrange(i + 2, v@.len() as int)) =~= before + unix_eol(rest));
            }
            i = i + 2;
        } else {
            push_char(&mut r, if v[i] == '\r' { '\n' } else { v[i] });
            proof {
                assert(rest.drop_first() =~= v@.subrange(i + 1, v@.len() as int));
                assert(r@ + unix_eol(v@.subrange(i + 1, v@.len() as int)) =~= before + unix_eol(rest));
            }
            i = i + 1;
        }
    }
    proof {
        assert(v@.subrange(i as int, v@.len() as int) =~= Seq::<char>::empty());
        assert(r@ + Seq::<char>::empty() =~= r@);
    }
    r
}

/// The lines of a text without `\r`.
fn lines_of(s: &str) -> (r: Vec<String>)
    ensures
        views(r@) == text_lines(s@),
{
    let parts = crate::text::split_pieces(s);
    let mut r: Vec<String> = Vec::new();
    let mut i: usize = 0;
    while i < parts.len()
        invariant
            0 <= i <= parts@.len(),
            views(parts@) == crate::text::pieces(s@),
            views(r@) == text_lines(s@).take(i as int),
        decreases parts.len() - i,
    {
        let v = chars_of(parts[i].as_str());
        let line = if v.len() > 0 && v[v.len() - 1] == '\n' {
            crate::text::string_from_range(&v, 0, v.len() - 1)
        } else {
            parts[i].clone()
        };
        let ghost before = views(r@);
        r.push(line);
        proof {
            let p = crate::text::pieces(s@)[i as int];
            assert(p == parts@[i as int]@);
            if v@.len() > 0 && v@.last() == '\n' {
                assert(v@.subrange(0, v@.len() - 1) =~= p.drop_last());
            }
            assert(views(r@) =~= before.push(line@));
            assert(text_lines(s@).take(i + 1) =~= text_lines(s@).take(i as int).push(text_lines(s@)[i as int]));
        }
        i = i + 1;
    }
    proof {
        assert(text_lines(s@).take(parts@.len() as int) =~= text_lines(s@));
    }
    r
}

/// The lines at positions `from..=to`, joined by newlines.
fn join_range(ls: &Vec<String>, from: usize, to: usize) -> (r: String)
    requires
        from <= to < ls@.len(),
    ensures
        r@ == join_lines(views(ls@).subrange(from as int, to + 1)),
{
    let count = ls.len();
    let mut r = ls[from].clone();
    let mut i: usize = from + 1;
    proof {
        assert(views(ls@).subrange(from as int, from + 1) =~= seq![ls@[from as int]@]);
    }
    while i <= to
        invariant
            from < i <= to + 1,
            to < ls@.len() == count,
            r@ == join_lines(views(ls@).subrange(from as int, i as int)),
        decreases to + 1 - i,
    {
        push_char(&mut r, '\n');
        push_str(&mut r, ls[i].as_str());
        proof {
            let next = views(ls@).subrange(from as int, i + 1);
            assert(next.drop_last() =~= views(ls@).subrange(from as int, i as int));
            assert(next.len() > 1);
            assert(r@ =~= join_lines(next.drop_last()) + seq!['\n'] + next.last());
        }
        i = i + 1;
    }
    r
}

/// The stderr of a successful run, trimmed to the lines that hold something and
/// named after the tool, when any line does.
pub fn normalized_success_stderr(tool: Tool, stderr: &str) -> (r: Option<String>)
    ensures
        opt_view(r) == success_stderr_text(tool, stderr@),
{
    reveal(success_stderr_text);
    let normalized = to_unix_eol(stderr);
    let lines = lines_of(normalized.as_str());
    let ghost ls = text_lines(unix_eol(stderr@));
    let mut start: usize = 0;
    while start < lines.len() && crate::text::is_blank(lines[start].as_str())
        invariant
            0 <= start <= lines@.len(),
            views(lines@) == ls,
            forall|j: int| 0 <= j < start ==> !#[trigger] has_content(ls[j]),
        decreases lines.len() - start,
    {
        start = start + 1;
    }
    if start == lines.len() {
        proof {
            assert(!exists|i: int| 0 <= i < ls.len() && #[trigger] has_content(ls[i]));
        }
        return None;
    }
    let mut end: usize = lines.len() - 1;
    while crate::text::is_blank(lines[end].as_str())
        invariant
            start <= end < lines@.len(),
            views(lines@) == ls,
            has_content(ls[start as int]),
            forall|j: int| end < j < ls.len() ==> !#[trigger] has_content(ls[j]),
        decreases end,
    {
        end = end - 1;
    }
    let joined = join_range(&lines, start, end);
    let mut text = tool.display_name();
    push_str(&mut text, " stderr:\n");
    push_str(&mut text, truncate(joined.as_str(), 4096).as_str());
    proof {
        let first = choose|i: int| 0 <= i < ls.len() && has_content(ls[i]) && forall|j: int| 0 <= j < i ==> !#[trigger] has_content(ls[j]);
        let last = choose|i: int| 0 <= i < ls.len() && has_content(ls[i]) && forall|j: int| i < j < ls.len() ==> !#[trigger] has_content(ls[j]);
        assert(has_content(ls[start as int]));
        assert(has_content(ls[end as int]));
        assert(first == start as int) by {
            if first < start {
                assert(!has_content(ls[first]));
            }
            if first > start {
                assert(!has_content(ls[start as int]));
            }
        }
        assert(last == end as int) by {
            if last > end {
                assert(!has_content(ls[last]));
            }
            if last < end {
                assert(!has_content(ls[end as int]));
            }
        }
        assert(text@ =~= tool_display_name(tool) + " stderr:\n"@ + truncated(join_lines(ls.subrange(start as int, end + 1)), 4096));
    }
    Some(text)
}

/// `after` is the run `before` as a report shows it: same tool, executable,
/// version, arguments, exit code and duration, diagnostics in report order, its
/// stderr kept as a warning when it says something, warnings sorted without
/// repetitions, and the raw output dropped.
pub open spec fn prepared_lint_run(after: ToolRun, before: ToolRun) -> bool {
    &&& after.tool == before.tool
    &&& after.executable == before.executable
    &&& after.version == before.version
    &&& after.arguments == before.arguments
    &&& after.exit_code == before.exit_code
    &&& after.duration_ms == before.duration_ms
    &&& after.diagnostics@ == stable_sort(before.diagnostics@)
    &&& crate::order::strictly_ascending(views(after.warnings@))
    &&& views(after.warnings@).to_set() == match success_stderr_text(before.tool, before.stderr@) {
        Some(w) => views(before.warnings@).to_set().insert(w),
        None => views(before.warnings@).to_set(),
    }
    &&& after.stdout@.len() == 0
    &&& after.stderr@.len() == 0
}

/// Prepares a successful run for a report: diagnostics in report order, its stderr
/// kept as a warning when it says something, warnings sorted without repetitions,
/// and the raw output dropped.
fn prepare_successful_lint_run(run: &mut ToolRun)
    ensures
        final(run).tool == old(run).tool,
        final(run).executable == old(run).executable,
        final(run).version == old(run).version,
        final(run).arguments == old(run).arguments,
        final(run).exit_code == old(run).exit_code,
        final(run).duration_ms == old(run).duration_ms,
        final(run).diagnostics@ == stable_sort(old(run).diagnostics@),
        crate::order::strictly_ascending(views(final(run).warnings@)),
        views(final(run).warnings@).to_set() == match success_stderr_text(old(run).tool, old(run).stderr@) {
            Some(w) => views(old(run).warnings@).to_set().insert(w),
            None => views(old(run).warnings@).to_set(),
        },
        final(run).stdout@.len() == 0,
        final(run).stderr@.len() == 0,
{
    let ghost start = *run;
    let mut diagnostics: Vec<Diagnostic> = Vec::new();
    std::mem::swap(&mut diagnostics, &mut run.diagnostics);
    crate::matching::sort_diagnostics(&mut diagnostics);
    let mut warnings: Vec<String> = Vec::new();
    std::mem::swap(&mut warnings, &mut run.warnings);
    let ghost before = views(warnings@);
    let extra = normalized_success_stderr(run.tool, run.stderr.as_str());
    match extra {
        Some(warning) => {
            warnings.push(warning);
            proof {
                assert(views(warnings@) =~= before.push(warning@));
                before.lemma_push_to_set_commute(warning@);
            }
        },
        None => {},
    }
    let sorted = crate::order::sorted_unique_strings(warnings);
    run.diagnostics = diagnostics;
    run.warnings = sorted;
    run.stdout = String::new();
    run.stderr = String::new();
    assert(run.tool == start.tool);
}

/// Clones a list of dispositions.
fn clone_dispositions(v: &Vec<FileDisposition>) -> (r: Vec<FileDisposition>)
    ensures
        r@ == v@,
{
    let mut r: Vec<FileDisposition> = Vec::new();
    let mut i: usize = 0;
    while i < v.len()
        invariant
            0 <= i <= v@.len(),
            r@ == v@.take(i as int),
        decreases v.len() - i,
    {
        r.push(v[i].clone());
        proof {
            assert(v@.take(i + 1) =~= v@.take(i as int).push(v@[i as int]));
        }
        i = i + 1;
    }
    proof {
        assert(v@.take(v@.len() as int) =~= v@);
    }
    r
}

/// The report of a lint comparison.
#[derive(Debug)]
pub struct LintReport {
    pub schema_version: u32,
    pub mode: String,
    pub profile: ComparisonProfile,
    pub project_root: String,
    pub plan: ComparisonPlan,
    pub baseline: ToolRun,
    pub candidate: ToolRun,
    pub raw_summary: RawLintSummary,
    pub comparable_summary: ComparableLintSummary,
    pub mapping_summary: MappingSummary,
    pub matches: Vec<DiagnosticMatch>,
    pub baseline_only: Vec<Diagnostic>,
    pub candidate_only: Vec<Diagnostic>,
    pub unmapped_baseline: Vec<Diagnostic>,
    pub unmapped_candidate: Vec<Diagnostic>,
    pub unsupported_files: Vec<FileDisposition>,
    pub skipped_files: Vec<FileDisposition>,
    pub failures: Vec<String>,
}

/// Whether a pair counts as a difference.
pub open spec fn is_difference(kind: MatchKind, count_probable_as_match: bool) -> bool {
    match kind {
        MatchKind::ExactMatch | MatchKind::ApproximateRuleMatch => false,
        MatchKind::ProbableMatch => !count_probable_as_match,
        _ => true,
    }
}

/// Whether a lint report holds a difference: a diagnostic that only one side
/// reported, an unmapped one under the raw profile, or a pair that differs.
pub open spec fn lint_differs(r: LintReport, profile: ComparisonProfile, count_probable_as_match: bool) -> bool {
    r.baseline_only@.len() > 0 || r.candidate_only@.len() > 0 || (profile == ComparisonProfile::Raw && (
    r.unmapped_baseline@.len() > 0 || r.unmapped_candidate@.len() > 0)) || exists|i: int|
        0 <= i < r.matches@.len() && is_difference(#[trigger] r.matches@[i].kind, count_probable_as_match)
}

/// Under the comparable profile, unmapped diagnostics never decide whether a
/// comparison differs: two reports with the same pairs and as many one-sided
/// diagnostics differ alike, whatever their unmapped lists hold.
pub proof fn lemma_comparable_profile_ignores_unmapped(a: LintReport, b: LintReport, count_probable_as_match: bool)
    requires
        a.matches@ == b.matches@,
        a.baseline_only@.len() == b.baseline_only@.len(),
        a.candidate_only@.len() == b.candidate_only@.len(),
    ensures
        lint_differs(a, ComparisonProfile::Comparable, count_probable_as_match) == lint_differs(
            b,
            ComparisonProfile::Comparable,
            count_probable_as_match,
        ),
{
}

/// What makes a lint comparison differ, under every profile: a diagnostic that only
/// one side reported; a pair whose span, severity or message changed; a probable
/// pair when probable pairs do not count as matches; and under the raw profile an
/// unmapped diagnostic. A comparison with none of these, whose pairs are all exact
/// or approximate rule matches, does not differ.
pub proof fn lemma_what_makes_a_difference(r: LintReport, profile: ComparisonProfile, count_probable_as_match: bool)
    ensures
        forall|i: int|
            0 <= i < r.matches@.len() && (r.matches@[i].kind == MatchKind::RangeChanged || r.matches@[i].kind
                == MatchKind::SeverityChanged || #[trigger] r.matches@[i].kind == MatchKind::MessageChanged) ==> lint_differs(
                r,
                profile,
                count_probable_as_match,
            ),
        forall|i: int|
            0 <= i < r.matches@.len() && #[trigger] r.matches@[i].kind == MatchKind::ProbableMatch && !count_probable_as_match
                ==> lint_differs(r, profile, count_probable_as_match),
        r.baseline_only@.len() > 0 || r.candidate_only@.len() > 0 ==> lint_differs(r, profile, count_probable_as_match),
        profile == ComparisonProfile::Raw && (r.unmapped_baseline@.len() > 0 || r.unmapped_candidate@.len() > 0)
            ==> lint_differs(r, profile, count_probable_as_match),
        r.baseline_only@.len() == 0 && r.candidate_only@.len() == 0 && (profile == ComparisonProfile::Comparable || (
        r.unmapped_baseline@.len() == 0 && r.unmapped_candidate@.len() == 0)) && (forall|i: int|
            0 <= i < r.matches@.len() ==> #[trigger] r.matches@[i].kind == MatchKind::ExactMatch || r.matches@[i].kind
                == MatchKind::ApproximateRuleMatch) ==> !lint_differs(r, profile, count_probable_as_match),
{
    assert forall|i: int|
        0 <= i < r.matches@.len() && (r.matches@[i].kind == MatchKind::RangeChanged || r.matches@[i].kind
            == MatchKind::SeverityChanged || #[trigger] r.matches@[i].kind == MatchKind::MessageChanged) implies lint_differs(
            r,
            profile,
            count_probable_as_match,
        ) by {
        assert(is_difference(r.matches@[i].kind, count_probable_as_match));
    }
    assert forall|i: int|
        0 <= i < r.matches@.len() && #[trigger] r.matches@[i].kind == MatchKind::ProbableMatch && !count_probable_as_match
            implies lint_differs(r, profile, count_probable_as_match) by {
        assert(is_difference(r.matches@[i].kind, count_probable_as_match));
    }
    if r.baseline_only@.len() == 0 && r.candidate_only@.len() == 0 && (profile == ComparisonProfile::Comparable || (
    r.unmapped_baseline@.len() == 0 && r.unmapped_candidate@.len() == 0)) && (forall|i: int|
        0 <= i < r.matches@.len() ==> #[trigger] r.matches@[i].kind == MatchKind::ExactMatch || r.matches@[i].kind
            == MatchKind::ApproximateRuleMatch) {
        assert forall|i: int| 0 <= i < r.matches@.len() implies !is_difference(#[trigger] r.matches@[i].kind, count_probable_as_match) by {
            assert(r.matches@[i].kind == MatchKind::ExactMatch || r.matches@[i].kind == MatchKind::ApproximateRuleMatch);
        }
    }
}

impl LintReport {
    /// The report of a lint comparison: both runs prepared for reporting, the
    /// comparison's lists, and the plan's unsupported and skipped files.
    pub fn new(
        root: &str,
        profile: ComparisonProfile,
        plan: ComparisonPlan,
        baseline: ToolRun,
        candidate: ToolRun,
        result: MatchResult,
        raw_summary: RawLintSummary,
        comparable_summary: ComparableLintSummary,
        mapping_summary: MappingSummary,
    ) -> (r: Self)
        ensures
            r.schema_version == REPORT_SCHEMA_VERSION,
            r.mode@ == "lint"@,
            r.profile == profile,
            r.project_root@ == forward_slashes(root@),
            r.plan == plan,
            prepared_lint_run(r.baseline, baseline),
            prepared_lint_run(r.candidate, candidate),
            r.raw_summary == raw_summary,
            r.comparable_summary == comparable_summary,
            r.mapping_summary == mapping_summary,
            r.matches == result.matches,
            r.baseline_only == result.baseline_only,
            r.candidate_only == result.candidate_only,
            r.unmapped_baseline == result.unmapped_baseline,
            r.unmapped_candidate == result.unmapped_candidate,
            r.unsupported_files@ == plan.unsupported@,
            r.skipped_files@ == plan.skipped@,
            r.failures@.len() == 0,
    {
        let mut baseline = baseline;
        let mut candidate = candidate;
        prepare_successful_lint_run(&mut baseline);
        prepare_successful_lint_run(&mut candidate);
        let unsupported_files = clone_dispositions(&plan.unsupported);
        let skipped_files = clone_dispositions(&plan.skipped);
        LintReport {
            schema_version: REPORT_SCHEMA_VERSION,
            mode: "lint".to_owned(),
            profile,
            project_root: to_forward_slashes(root),
            unsupported_files,
            skipped_files,
            plan,
            baseline,
            candidate,
            raw_summary,
            comparable_summary,
            mapping_summary,
            matches: result.matches,
            baseline_only: result.baseline_only,
            candidate_only: result.candidate_only,
            unmapped_baseline: result.unmapped_baseline,
            unmapped_candidate: result.unmapped_candidate,
            failures: Vec::new(),
        }
    }

    /// Whether the comparison found a difference: a diagnostic that only one side
    /// reported, an unmapped one under the raw profile, or a pair that differs
    /// (a probable match only when it does not count as a match).
    pub fn has_differences(&self, profile: ComparisonProfile, count_probable_as_match: bool) -> (r: bool)
        ensures
            r == lint_differs(*self, profile, count_probable_as_match),
    {
        if self.baseline_only.len() > 0 || self.candidate_only.len() > 0 {
            return true;
        }
        if profile == ComparisonProfile::Raw && (self.unmapped_baseline.len() > 0
            || self.unmapped_candidate.len() > 0) {
            return true;
        }
        let mut i: usize = 0;
        while i < self.matches.len()
            invariant
                0 <= i <= self.matches@.len(),
                forall|k: int| 0 <= k < i ==> !is_difference(#[trigger] self.matches@[k].kind, count_probable_as_match),
            decreases self.matches.len() - i,
        {
            let differs = match self.matches[i].kind {
                MatchKind::ExactMatch | MatchKind::ApproximateRuleMatch => false,
                MatchKind::ProbableMatch => !count_probable_as_match,
                _ => true,
            };
            if differs {
                return true;
            }
            i = i + 1;
        }
        false
    }
}

/// What happened when one formatter handled one file.
#[derive(Debug, Clone, Copy, PartialEq, Eq, Structural)]
pub enum ToolFileStatus {
    Success,
    Unsupported,
    Skipped,
    Failed,
}

/// How the two formatters' results for one file compare.
#[derive(Debug, Clone, Copy, PartialEq, Eq, Structural)]
pub enum FormatComparisonStatus {
    Identical,
    Different,
    BaselineNonIdempotent,
    CandidateNonIdempotent,
    BothNonIdempotent,
    Unsupported,
    Skipped,
    Failed,
}

/// One formatter's result for one file.
#[derive(Debug)]
pub struct FormatterOutcome {
    pub status: ToolFileStatus,
    pub tool: Tool,
    pub executable: Option<String>,
    pub version: Option<String>,
    pub arguments: Vec<String>,
    pub exit_code: Option<i32>,
    pub duration_ms: Option<u128>,
    pub idempotent: Option<bool>,
    pub reason: Option<String>,
    pub error: Option<String>,
    pub output: Option<String>,
    pub stderr: Option<String>,
    pub warnings: Vec<String>,
}

/// The status and reason of a formatter that the plan does not run.
pub open spec fn planned_outcome(planned: PlannedToolFile, counterpart_blocks: bool) -> (ToolFileStatus, Option<Seq<char>>) {
    match planned.status {
        PlannedToolStatus::Unsupported => (ToolFileStatus::Unsupported, match opt_view(planned.reason) {
            Some(r) => Some(r),
            None => Some("unsupported"@),
        }),
        PlannedToolStatus::Skipped => (ToolFileStatus::Skipped, match opt_view(planned.reason) {
            Some(r) => Some(r),
            None => Some("skipped"@),
        }),
        _ => (ToolFileStatus::Skipped, if counterpart_blocks {
            Some("not executed because the other side is not comparable"@)
        } else {
            None
        }),
    }
}

/// An outcome that records nothing but its status, tool and reason.
pub open spec fn is_bare_outcome(o: FormatterOutcome) -> bool {
    &&& o.executable is None
    &&& o.version is None
    &&& o.arguments@.len() == 0
    &&& o.exit_code is None
    &&& o.duration_ms is None
    &&& o.idempotent is None
    &&& o.error is None
    &&& o.output is None
    &&& o.stderr is None
    &&& o.warnings@.len() == 0
}

impl FormatterOutcome {
    /// The outcome of a formatter that did not run because of the plan.
    pub fn planned(planned: &PlannedToolFile, counterpart_blocks: bool) -> (r: Self)
        ensures
            (r.status, opt_view(r.reason)) == planned_outcome(*planned, counterpart_blocks),
            r.tool == planned.tool,
            is_bare_outcome(r),
    {
        let (status, reason) = match planned.status {
            PlannedToolStatus::Unsupported => (
                ToolFileStatus::Unsupported,
                match &planned.reason {
                    Some(r) => Some(r.clone()),
                    None => Some("unsupported".to_owned()),
                },
            ),
            PlannedToolStatus::Skipped => (
                ToolFileStatus::Skipped,
                match &planned.reason {
                    Some(r) => Some(r.clone()),
                    None => Some("skipped".to_owned()),
                },
            ),
            _ => (
                ToolFileStatus::Skipped,
                if counterpart_blocks {
                    Some("not executed because the other side is not comparable".to_owned())
                } else {
                    None
                },
            ),
        };
        FormatterOutcome {
            status,
            tool: planned.tool,
            executable: None,
            version: None,
            arguments: Vec::new(),
            exit_code: None,
            duration_ms: None,
            idempotent: None,
            reason,
            error: None,
            output: None,
            stderr: None,
            warnings: Vec::new(),
        }
    }
}

/// The comparison of one file.
#[derive(Debug)]
pub struct FormatFileResult {
    pub path: String,
    pub status: FormatComparisonStatus,
    pub baseline: FormatterOutcome,
    pub candidate: FormatterOutcome,
    pub diff: Option<String>,
}

impl Keyed for FormatFileResult {
    open spec fn key(&self) -> Seq<KeyPart> {
        seq![KeyPart::Text(self.path@)]
    }

    fn compare_key(&self, other: &Self) -> (r: Order) {
        let r = crate::text::compare_text(self.path.as_str(), other.path.as_str());
        proof {
            reveal_with_fuel(key_order, 2);
            assert(self.key().drop_first() =~= Seq::<KeyPart>::empty());
            assert(other.key().drop_first() =~= Seq::<KeyPart>::empty());
        }
        r
    }
}

/// `r` is the result of a file that the plan does not compare: unsupported when
/// either side is unsupported, skipped otherwise, each side with its planned
/// status and reason, and no diff.
pub open spec fn result_of_plan(r: FormatFileResult, file: PlannedFile) -> bool {
    &&& r.path@ == file.path@
    &&& r.status == if file.baseline.status == PlannedToolStatus::Unsupported || file.candidate.status
        == PlannedToolStatus::Unsupported {
        FormatComparisonStatus::Unsupported
    } else {
        FormatComparisonStatus::Skipped
    }
    &&& (r.baseline.status, opt_view(r.baseline.reason)) == planned_outcome(file.baseline, true)
    &&& r.baseline.tool == file.baseline.tool
    &&& is_bare_outcome(r.baseline)
    &&& (r.candidate.status, opt_view(r.candidate.reason)) == planned_outcome(file.candidate, true)
    &&& r.candidate.tool == file.candidate.tool
    &&& is_bare_outcome(r.candidate)
    &&& r.diff is None
}

/// Whether the plan runs both tools on a file.
pub open spec fn compared_file(f: PlannedFile) -> bool {
    crate::capabilities::spec_is_comparable(f.baseline.status) && crate::capabilities::spec_is_comparable(
        f.candidate.status,
    )
}

impl FormatFileResult {
    /// The result of a file that the plan does not compare.
    pub fn from_plan(file: &PlannedFile) -> (r: Self)
        ensures
            result_of_plan(r, *file),
    {
        let status = if file.baseline.status == PlannedToolStatus::Unsupported
            || file.candidate.status == PlannedToolStatus::Unsupported {
            FormatComparisonStatus::Unsupported
        } else {
            FormatComparisonStatus::Skipped
        };
        FormatFileResult {
            path: file.path.clone(),
            status,
            baseline: FormatterOutcome::planned(&file.baseline, true),
            candidate: FormatterOutcome::planned(&file.candidate, true),
            diff: None,
        }
    }
}

/// The results of the files that the plan does not compare, in plan order.
pub fn unplanned_results(plan: &ComparisonPlan) -> (r: Vec<FormatFileResult>)
    ensures
        r@.len() == plan.discovered@.filter(|f: PlannedFile| !compared_file(f)).len(),
        forall|k: int| 0 <= k < r@.len() ==> result_of_plan(
            #[trigger] r@[k],
            plan.discovered@.filter(|f: PlannedFile| !compared_file(f))[k],
        ),
{
    let ghost files = plan.discovered@;
    let ghost pred = |f: PlannedFile| !compared_file(f);
    let mut r: Vec<FormatFileResult> = Vec::new();
    let mut i: usize = 0;
    while i < plan.discovered.len()
        invariant
            0 <= i <= files.len(),
            files == plan.discovered@,
            pred == (|f: PlannedFile| !compared_file(f)),
            r@.len() == files.take(i as int).filter(pred).len(),
            forall|k: int| 0 <= k < r@.len() ==> result_of_plan(#[trigger] r@[k], files.take(i as int).filter(pred)[k]),
        decreases files.len() - i,
    {
        let file = &plan.discovered[i];
        proof {
            assert(files.take(i + 1).drop_last() =~= files.take(i as int));
            reveal(Seq::filter);
        }
        if !(file.baseline.status.is_comparable() && file.candidate.status.is_comparable()) {
            r.push(FormatFileResult::from_plan(file));
        }
        i = i + 1;
    }
    proof {
        assert(files.take(files.len() as int) =~= files);
    }
    r
}

/// The file name of a report saved by default: the mode, the time in
/// nanoseconds since the Unix epoch and the process ID, which keep runs apart.
pub open spec fn saved_report_name(mode: Seq<char>, epoch_nanos: nat, process_id: nat) -> Seq<char> {
    mode + "-"@ + decimal(epoch_nanos) + "-"@ + decimal(process_id) + ".json"@
}

/// Where a report is saved by default: under the project's `.concord/reports`.
pub fn saved_report_path(root: &str, mode: &str, epoch_nanos: u128, process_id: u32) -> (r: String)
    ensures
        r@ == crate::capabilities::join_path(
            root@,
            ".concord/reports/"@ + saved_report_name(mode@, epoch_nanos as nat, process_id as nat),
        ),
{
    let mut relative = owned(".concord/reports/");
    push_str(&mut relative, mode);
    push_str(&mut relative, "-");
    crate::text::push_wide_decimal(&mut relative, epoch_nanos);
    push_str(&mut relative, "-");
    crate::text::push_decimal(&mut relative, process_id as u64);
    push_str(&mut relative, ".json");
    proof {
        reveal_strlit(".concord/reports/");
        assert(relative@ =~= ".concord/reports/"@ + saved_report_name(mode@, epoch_nanos as nat, process_id as nat));
    }
    crate::capabilities::join_path_exec(root, relative.as_str())
}

/// A unified diff of `baseline` against `candidate` with the given headers and
/// context (the `similar` crate's `TextDiff::from_lines(..).unified_diff()`).
pub uninterp spec fn unified_diff_text(
    old_header: Seq<char>,
    new_header: Seq<char>,
    radius: nat,
    baseline: Seq<char>,
    candidate: Seq<char>,
) -> Seq<char>;

/// Renders a line diff with `similar::TextDiff`.
#[verifier::external_body]
fn diff_lines(old_header: &str, new_header: &str, radius: usize, baseline: &str, candidate: &str) -> (r: String)
    ensures
        r@ == unified_diff_text(old_header@, new_header@, radius as nat, baseline@, candidate@),
{
    similar::TextDiff::from_lines(baseline, candidate).unified_diff().context_radius(radius).header(
        old_header,
        new_header,
    ).to_string()
}

/// The unified diff between the formatters' outputs for `path`, with three lines of
/// context and the headers `baseline/<path>` and `candidate/<path>`.
pub fn unified_diff(path: &str, baseline: &str, candidate: &str) -> (r: String)
    ensures
        r@ == unified_diff_text("baseline/"@ + path@, "candidate/"@ + path@, 3, baseline@, candidate@),
{
    let mut old_header = owned("baseline/");
    push_str(&mut old_header, path);
    let mut new_header = owned("candidate/");
    push_str(&mut new_header, path);
    diff_lines(old_header.as_str(), new_header.as_str(), 3, baseline, candidate)
}

/// Counts of the file results of a format comparison.
#[derive(Debug, Clone, Copy, PartialEq, Eq, Structural)]
pub struct FormatSummary {
    pub discovered: usize,
    pub compared: usize,
    pub identical: usize,
    pub different: usize,
    pub baseline_non_idempotent: usize,
    pub candidate_non_idempotent: usize,
    pub both_non_idempotent: usize,
    pub unsupported: usize,
    pub skipped: usize,
    pub failed: usize,
}

/// The report of a format comparison.
#[derive(Debug)]
pub struct FormatReport {
    pub schema_version: u32,
    pub mode: String,
    pub project_root: String,
    pub baseline_tool: Tool,
    pub candidate_tool: Tool,
    pub plan: ComparisonPlan,
    pub summary: FormatSummary,
    pub files: Vec<FormatFileResult>,
    pub failures: Vec<String>,
}

/// How many results have the given status.
pub open spec fn count_status(files: Seq<FormatFileResult>, s: FormatComparisonStatus) -> nat
    decreases files.len(),
{
    if files.len() == 0 {
        0
    } else {
        count_status(files.drop_last(), s) + if files.last().status == s {
            1nat
        } else {
            0nat
        }
    }
}

/// The statuses of files that both formatters ran on.
pub open spec fn is_compared(s: FormatComparisonStatus) -> bool {
    !(s == FormatComparisonStatus::Unsupported || s == FormatComparisonStatus::Skipped)
}

/// How many results were compared.
pub open spec fn count_compared(files: Seq<FormatFileResult>) -> nat
    decreases files.len(),
{
    if files.len() == 0 {
        0
    } else {
        count_compared(files.drop_last()) + if is_compared(files.last().status) {
            1nat
        } else {
            0nat
        }
    }
}

/// The detail of one side of a failed file, if that side has an error.
pub open spec fn side_failure(path: Seq<char>, side: Seq<char>, o: FormatterOutcome) -> Seq<Seq<char>> {
    match opt_view(o.error) {
        Some(e) => seq![
            path + " "@ + side + " "@ + tool_display_name(o.tool) + ": "@ + e + match opt_view(o.output) {
                Some(out) => "\nstdout: "@ + out,
                None => Seq::empty(),
            } + match opt_view(o.stderr) {
                Some(err) => "\nstderr: "@ + err,
                None => Seq::empty(),
            },
        ],
        None => Seq::empty(),
    }
}

/// The failure details of the failed files, baseline before candidate.
pub open spec fn failure_details(files: Seq<FormatFileResult>) -> Seq<Seq<char>>
    decreases files.len(),
{
    if files.len() == 0 {
        Seq::empty()
    } else {
        let f = files.last();
        failure_details(files.drop_last()) + if f.status == FormatComparisonStatus::Failed {
            side_failure(f.path@, "baseline"@, f.baseline) + side_failure(f.path@, "candidate"@, f.candidate)
        } else {
            Seq::empty()
        }
    }
}

/// The summary counts of a list of results.
fn summarize(files: &Vec<FormatFileResult>, discovered: usize) -> (r: FormatSummary)
    ensures
        r.discovered == discovered,
        r.compared == count_compared(files@),
        r.identical == count_status(files@, FormatComparisonStatus::Identical),
        r.different == count_status(files@, FormatComparisonStatus::Different),
        r.baseline_non_idempotent == count_status(files@, FormatComparisonStatus::BaselineNonIdempotent),
        r.candidate_non_idempotent == count_status(files@, FormatComparisonStatus::CandidateNonIdempotent),
        r.both_non_idempotent == count_status(files@, FormatComparisonStatus::BothNonIdempotent),
        r.unsupported == count_status(files@, FormatComparisonStatus::Unsupported),
        r.skipped == count_status(files@, FormatComparisonStatus::Skipped),
        r.failed == count_status(files@, FormatComparisonStatus::Failed),
{
    let mut r = FormatSummary {
        discovered,
        compared: 0,
        identical: 0,
        different: 0,
        baseline_non_idempotent: 0,
        candidate_non_idempotent: 0,
        both_non_idempotent: 0,
        unsupported: 0,
        skipped: 0,
        failed: 0,
    };
    let mut i: usize = 0;
    while i < files.len()
        invariant
            0 <= i <= files@.len(),
            r.discovered == discovered,
            r.compared == count_compared(files@.take(i as int)),
            r.identical == count_status(files@.take(i as int), FormatComparisonStatus::Identical),
            r.different == count_status(files@.take(i as int), FormatComparisonStatus::Different),
            r.baseline_non_idempotent == count_status(files@.take(i as int), FormatComparisonStatus::BaselineNonIdempotent),
            r.candidate_non_idempotent == count_status(files@.take(i as int), FormatComparisonStatus::CandidateNonIdempotent),
            r.both_non_idempotent == count_status(files@.take(i as int), FormatComparisonStatus::BothNonIdempotent),
            r.unsupported == count_status(files@.take(i as int), FormatComparisonStatus::Unsupported),
            r.skipped == count_status(files@.take(i as int), FormatComparisonStatus::Skipped),
            r.failed == count_status(files@.take(i as int), FormatComparisonStatus::Failed),
            r.compared <= i,
            r.identical + r.different + r.baseline_non_idempotent + r.candidate_non_idempotent
                + r.both_non_idempotent + r.unsupported + r.skipped + r.failed == i,
        decreases files.len() - i,
    {
        proof {
            assert(files@.take(i + 1).drop_last() =~= files@.take(i as int));
        }
        match files[i].status {
            FormatComparisonStatus::Identical => r.identical = r.identical + 1,
            FormatComparisonStatus::Different => r.different = r.different + 1,
            FormatComparisonStatus::BaselineNonIdempotent => r.baseline_non_idempotent = r.baseline_non_idempotent + 1,
            FormatComparisonStatus::CandidateNonIdempotent => r.candidate_non_idempotent = r.candidate_non_idempotent + 1,
            FormatComparisonStatus::BothNonIdempotent => r.both_non_idempotent = r.both_non_idempotent + 1,
            FormatComparisonStatus::Unsupported => r.unsupported = r.unsupported + 1,
            FormatComparisonStatus::Skipped => r.skipped = r.skipped + 1,
            FormatComparisonStatus::Failed => r.failed = r.failed + 1,
        }
        match files[i].status {
            FormatComparisonStatus::Unsupported | FormatComparisonStatus::Skipped => {},
            _ => r.compared = r.compared + 1,
        }
        i = i + 1;
    }
    proof {
        assert(files@.take(files@.len() as int) =~= files@);
    }
    r
}

/// Appends the failure detail of one side, if it has an error.
fn push_side_failure(out: &mut Vec<String>, path: &str, side: &str, o: &FormatterOutcome)
    ensures
        views(final(out)@) == views(old(out)@) + side_failure(path@, side@, *o),
{
    let ghost before = views(out@);
    match &o.error {
        Some(error) => {
            let mut detail = owned(path);
            push_str(&mut detail, " ");
            push_str(&mut detail, side);
            push_str(&mut detail, " ");
            push_str(&mut detail, o.tool.display_name().as_str());
            push_str(&mut detail, ": ");
            push_str(&mut detail, error.as_str());
            let ghost head = detail@;
            match &o.output {
                Some(stdout) => {
                    push_str(&mut detail, "\nstdout: ");
                    push_str(&mut detail, stdout.as_str());
                },
                None => {},
            }
            let ghost middle = detail@;
            match &o.stderr {
                Some(stderr) => {
                    push_str(&mut detail, "\nstderr: ");
                    push_str(&mut detail, stderr.as_str());
                },
                None => {},
            }
            proof {
                let expected = side_failure(path@, side@, *o)[0];
                assert(middle =~= head + match opt_view(o.output) {
                    Some(x) => "\nstdout: "@ + x,
                    None => Seq::<char>::empty(),
                });
                assert(detail@ =~= expected);
            }
            out.push(detail);
            proof {
                assert(views(out@) =~= before + side_failure(path@, side@, *o));
            }
        },
        None => {
            proof {
                assert(views(out@) =~= before + Seq::<Seq<char>>::empty());
            }
        },
    }
}

/// The files of a format report come out in the same order of paths whatever
/// order the workers finished them in.
pub proof fn lemma_format_files_order_independent(a: Seq<FormatFileResult>, b: Seq<FormatFileResult>)
    requires
        a.to_multiset() == b.to_multiset(),
    ensures
        stable_sort(a).map_values(|f: FormatFileResult| f.path@) == stable_sort(b).map_values(
            |f: FormatFileResult| f.path@,
        ),
{
    crate::order::lemma_stable_sort_order_independent(a, b);
    let ka = stable_sort(a).map_values(|x: FormatFileResult| x.key());
    let kb = stable_sort(b).map_values(|x: FormatFileResult| x.key());
    crate::order::lemma_stable_sort_multiset(a);
    crate::order::lemma_stable_sort_multiset(b);
    let pa = stable_sort(a).map_values(|f: FormatFileResult| f.path@);
    let pb = stable_sort(b).map_values(|f: FormatFileResult| f.path@);
    assert(ka.len() == kb.len());
    assert forall|i: int| 0 <= i < pa.len() implies pa[i] == pb[i] by {
        let x = stable_sort(a)[i];
        let y = stable_sort(b)[i];
        assert(ka[i] == x.key());
        assert(kb[i] == y.key());
        assert(x.key()[0] == KeyPart::Text(x.path@));
        assert(y.key()[0] == KeyPart::Text(y.path@));
        assert(pa[i] == x.path@);
        assert(pb[i] == y.path@);
    }
    assert(pa =~= pb);
}

impl FormatReport {
    /// The report of a format comparison: results sorted by path (equal paths keep
    /// their order), the counts of each status, and the details of every failure.
    pub fn new(
        root: &str,
        baseline_tool: Tool,
        candidate_tool: Tool,
        plan: ComparisonPlan,
        files: Vec<FormatFileResult>,
    ) -> (r: Self)
        ensures
            r.schema_version == REPORT_SCHEMA_VERSION,
            r.mode@ == "format"@,
            r.project_root@ == forward_slashes(root@),
            r.baseline_tool == baseline_tool,
            r.candidate_tool == candidate_tool,
            r.plan == plan,
            r.files@ == stable_sort(files@),
            r.summary.discovered == plan.discovered@.len(),
            r.summary.compared == count_compared(r.files@),
            r.summary.identical == count_status(r.files@, FormatComparisonStatus::Identical),
            r.summary.different == count_status(r.files@, FormatComparisonStatus::Different),
            r.summary.baseline_non_idempotent == count_status(r.files@, FormatComparisonStatus::BaselineNonIdempotent),
            r.summary.candidate_non_idempotent == count_status(r.files@, FormatComparisonStatus::CandidateNonIdempotent),
            r.summary.both_non_idempotent == count_status(r.files@, FormatComparisonStatus::BothNonIdempotent),
            r.summary.unsupported == count_status(r.files@, FormatComparisonStatus::Unsupported),
            r.summary.skipped == count_status(r.files@, FormatComparisonStatus::Skipped),
            r.summary.failed == count_status(r.files@, FormatComparisonStatus::Failed),
            views(r.failures@) == failure_details(r.files@),
    {
        let files = crate::order::sort_by_key(files);
        let summary = summarize(&files, plan.discovered.len());
        let mut failures: Vec<String> = Vec::new();
        let mut i: usize = 0;
        while i < files.len()
            invariant
                0 <= i <= files@.len(),
                views(failures@) == failure_details(files@.take(i as int)),
            decreases files.len() - i,
        {
            proof {
                assert(files@.take(i + 1).drop_last() =~= files@.take(i as int));
            }
            let ghost before = views(failures@);
            let file = &files[i];
            if file.status == FormatComparisonStatus::Failed {
                push_side_failure(&mut failures, file.path.as_str(), "baseline", &file.baseline);
                push_side_failure(&mut failures, file.path.as_str(), "candidate", &file.candidate);
                proof {
                    assert(views(failures@) =~= before + (side_failure(file.path@, "baseline"@, file.baseline) + side_failure(file.path@, "candidate"@, file.candidate)));
                }
            } else {
                proof {
                    assert(views(failures@) =~= before + Seq::<Seq<char>>::empty());
                }
            }
            i = i + 1;
        }
        proof {
            assert(files@.take(files@.len() as int) =~= files@);
        }
        FormatReport {
            schema_version: REPORT_SCHEMA_VERSION,
            mode: "format".to_owned(),
            project_root: to_forward_slashes(root),
            baseline_tool,
            candidate_tool,
            plan,
            summary,
            files,
            failures,
        }
    }

    /// Whether some file formats differently or not idempotently.
    pub fn has_differences(&self) -> (r: bool)
        ensures
            r == (self.summary.different > 0 || self.summary.baseline_non_idempotent > 0
                || self.summary.candidate_non_idempotent > 0 || self.summary.both_non_idempotent > 0),
    {
        self.summary.different > 0 || self.summary.baseline_non_idempotent > 0
            || self.summary.candidate_non_idempotent > 0 || self.summary.both_non_idempotent > 0
    }

    /// Whether a formatter failed on some file.
    pub fn has_failures(&self) -> (r: bool)
        ensures
            r == (self.summary.failed > 0),
    {
        self.summary.failed > 0
    }
}

} // verus!
