//! The reports as the terminal shows them.
use vstd::prelude::*;

use crate::adapters::biome_lint::str_lines;
use crate::capabilities::{disposition_paths, ComparisonPlan, ComparisonSide, FileDisposition};
use crate::matching::{MappingConfidence, MatchKind};
use crate::model::{opt_view, tool_config_key, tool_display_name, Diagnostic, Tool};
use crate::report::{FormatComparisonStatus, FormatReport, FormatterOutcome, LintReport, PlanReport, PlanRuleMapping};
use crate::text::{decimal, owned, push_char, push_decimal, push_str};

verus! {

/// A line of output: the text and a newline.
pub open spec fn ln(s: Seq<char>) -> Seq<char> {
    s + "\n"@
}

/// Appends a line.
fn push_line(out: &mut String, s: &str)
    ensures
        final(out)@ == old(out)@ + ln(s@),
{
    push_str(out, s);
    push_str(out, "\n");
    proof {
        assert(old(out)@ + s@ + "\n"@ =~= old(out)@ + ln(s@));
    }
}

/// Appends a label followed by a number on its own line.
fn push_count(out: &mut String, label: &str, n: usize)
    ensures
        final(out)@ == old(out)@ + ln(label@ + decimal(n as nat)),
{
    push_str(out, label);
    push_decimal(out, n as u64);
    push_str(out, "\n");
    proof {
        assert(old(out)@ + label@ + decimal(n as nat) + "\n"@ =~= old(out)@ + ln(label@ + decimal(n as nat)));
    }
}

/// The first line of a text, or `unknown` when it has none.
pub open spec fn first_line_of(value: Seq<char>) -> Seq<char> {
    if str_lines(value).len() > 0 {
        str_lines(value)[0]
    } else {
        "unknown"@
    }
}

/// The first line of a text, or `unknown`.
pub(crate) fn first_line(value: &str) -> (r: String)
    ensures
        r@ == first_line_of(value@),
{
    let pieces = crate::text::split_pieces(value);
    if pieces.len() == 0 {
        return owned("unknown");
    }
    let r = crate::text::line_text(pieces[0].as_str());
    proof {
        assert(r@ =~= str_lines(value@)[0]);
    }
    r
}

/// A text with its newlines written as spaces.
pub open spec fn one_line(s: Seq<char>) -> Seq<char> {
    s.map_values(|c: char| if c == '\n' { ' ' } else { c })
}

/// Appends a text with its newlines written as spaces.
fn push_one_line(out: &mut String, s: &str)
    ensures
        final(out)@ == old(out)@ + one_line(s@),
{
    let v = crate::text::chars_of(s);
    let ghost start = out@;
    let mut i: usize = 0;
    while i < v.len()
        invariant
            0 <= i <= v@.len(),
            v@ == s@,
            out@ == start + one_line(v@.take(i as int)),
        decreases v.len() - i,
    {
        push_char(out, if v[i] == '\n' { ' ' } else { v[i] });
        proof {
            assert(one_line(v@.take(i + 1)) =~= one_line(v@.take(i as int)).push(if v@[i as int] == '\n' { ' ' } else { v@[i as int] }));
            assert(out@ =~= start + one_line(v@.take(i + 1)));
        }
        i = i + 1;
    }
    proof {
        assert(v@.take(v@.len() as int) =~= v@);
    }
}

/// The file counts of a plan.
pub open spec fn file_counts_text(plan: ComparisonPlan) -> Seq<char> {
    ln("Files"@) + ln("  Discovered       "@ + decimal(plan.discovered@.len()))
        + ln("  Comparable       "@ + decimal(plan.comparable@.len()))
        + ln("  Unsupported      "@ + decimal(disposition_paths(plan.unsupported@).len()))
        + ln("  Skipped          "@ + decimal(disposition_paths(plan.skipped@).difference(disposition_paths(plan.unsupported@)).len()))
}

#[verifier::rlimit(40)]
fn render_file_counts(out: &mut String, plan: &ComparisonPlan)
    ensures
        final(out)@ == old(out)@ + file_counts_text(*plan),
{
    push_line(out, "Files");
    push_count(out, "  Discovered       ", plan.discovered_count());
    push_count(out, "  Comparable       ", plan.comparable_count());
    push_count(out, "  Unsupported      ", plan.unsupported_count());
    push_count(out, "  Skipped          ", plan.skipped_count());
    proof {
        assert(final(out)@ =~= old(out)@ + file_counts_text(*plan));
    }
}

/// The `Debug` name of a side.
pub open spec fn side_name(s: ComparisonSide) -> Seq<char> {
    match s {
        ComparisonSide::Baseline => "Baseline"@,
        ComparisonSide::Candidate => "Candidate"@,
    }
}

/// One disposition as the terminal lists it.
pub open spec fn disposition_text(d: FileDisposition) -> Seq<char> {
    ln("\n  "@ + d.path@) + ln("    "@ + side_name(d.side) + ": "@ + tool_display_name(d.tool)) + ln("    Reason: "@ + d.reason@)
}

/// The texts of a list of items, one after the other.
pub open spec fn dispositions_body(ds: Seq<FileDisposition>) -> Seq<char>
    decreases ds.len(),
{
    if ds.len() == 0 {
        Seq::empty()
    } else {
        dispositions_body(ds.drop_last()) + disposition_text(ds.last())
    }
}

/// A list of dispositions under a label, at most 20 of them; nothing when empty.
pub open spec fn dispositions_text(label: Seq<char>, ds: Seq<FileDisposition>) -> Seq<char> {
    if ds.len() == 0 {
        Seq::empty()
    } else {
        ln("\n"@ + label) + dispositions_body(ds.take(if ds.len() < 20 { ds.len() as int } else { 20 }))
    }
}

fn render_disposition(out: &mut String, d: &FileDisposition)
    ensures
        final(out)@ == old(out)@ + disposition_text(*d),
{
    push_str(out, "\n  ");
    push_line(out, d.path.as_str());
    let ghost a = out@;
    push_str(out, "    ");
    push_str(out, if d.side == ComparisonSide::Baseline { "Baseline" } else { "Candidate" });
    push_str(out, ": ");
    push_line(out, d.tool.display_name().as_str());
    let ghost b = out@;
    push_str(out, "    Reason: ");
    push_line(out, d.reason.as_str());
    proof {
        assert(a =~= old(out)@ + ln("\n  "@ + d.path@));
        assert(b =~= a + ln("    "@ + side_name(d.side) + ": "@ + tool_display_name(d.tool)));
        assert(final(out)@ =~= old(out)@ + disposition_text(*d));
    }
}

fn render_dispositions(out: &mut String, label: &str, ds: &Vec<FileDisposition>)
    ensures
        final(out)@ == old(out)@ + dispositions_text(label@, ds@),
{
    if ds.len() == 0 {
        proof {
            assert(old(out)@ + Seq::<char>::empty() =~= old(out)@);
        }
        return;
    }
    push_str(out, "\n");
    push_line(out, label);
    proof {
        assert(out@ =~= old(out)@ + ln("\n"@ + label@));
    }
    let ghost head = out@;
    let limit = if ds.len() < 20 { ds.len() } else { 20 };
    let mut i: usize = 0;
    while i < limit
        invariant
            0 <= i <= limit <= ds@.len(),
            out@ == head + dispositions_body(ds@.take(i as int)),
        decreases limit - i,
    {
        render_disposition(out, &ds[i]);
        proof {
            assert(ds@.take(i + 1).drop_last() =~= ds@.take(i as int));
            assert(out@ =~= head + dispositions_body(ds@.take(i + 1)));
        }
        i = i + 1;
    }
}

/// The label of a match kind.
pub open spec fn kind_label(kind: MatchKind) -> Seq<char> {
    match kind {
        MatchKind::ExactMatch => "EXACT MATCH"@,
        MatchKind::ApproximateRuleMatch => "APPROXIMATE RULE MATCH"@,
        MatchKind::ProbableMatch => "PROBABLE MATCH"@,
        MatchKind::SeverityChanged => "SEVERITY CHANGED"@,
        MatchKind::RangeChanged => "RANGE CHANGED"@,
        MatchKind::MessageChanged => "MESSAGE CHANGED"@,
    }
}

fn kind_label_of(kind: MatchKind) -> (r: &'static str)
    ensures
        r@ == kind_label(kind),
{
    match kind {
        MatchKind::ExactMatch => "EXACT MATCH",
        MatchKind::ApproximateRuleMatch => "APPROXIMATE RULE MATCH",
        MatchKind::ProbableMatch => "PROBABLE MATCH",
        MatchKind::SeverityChanged => "SEVERITY CHANGED",
        MatchKind::RangeChanged => "RANGE CHANGED",
        MatchKind::MessageChanged => "MESSAGE CHANGED",
    }
}

/// One diagnostic as the terminal shows it: its location, rule and message.
pub open spec fn diagnostic_text(d: Diagnostic) -> Seq<char> {
    ln("  "@ + location_text(d)) + ln("  "@ + match opt_view(d.code) {
        Some(c) => c,
        None => "<no rule>"@,
    }) + ln("  "@ + one_line(d.message@))
}

/// Where a diagnostic is: its path, and its start when it has a span.
pub open spec fn location_text(d: Diagnostic) -> Seq<char> {
    match d.span {
        Some(s) => d.path@ + ":"@ + decimal(s.start_line as nat) + ":"@ + decimal(s.start_column as nat),
        None => d.path@,
    }
}

fn render_location(out: &mut String, d: &Diagnostic)
    ensures
        final(out)@ == old(out)@ + ln("  "@ + location_text(*d)),
{
    push_str(out, "  ");
    push_str(out, d.path.as_str());
    match d.span {
        Some(s) => {
            push_str(out, ":");
            push_decimal(out, s.start_line as u64);
            push_str(out, ":");
            push_decimal(out, s.start_column as u64);
        },
        None => {},
    }
    push_str(out, "\n");
    proof {
        assert(final(out)@ =~= old(out)@ + ln("  "@ + location_text(*d)));
    }
}

#[verifier::rlimit(40)]
fn render_diagnostic(out: &mut String, d: &Diagnostic)
    ensures
        final(out)@ == old(out)@ + diagnostic_text(*d),
{
    render_location(out, d);
    let ghost a = out@;
    push_str(out, "  ");
    match &d.code {
        Some(c) => push_str(out, c.as_str()),
        None => push_str(out, "<no rule>"),
    }
    push_str(out, "\n");
    let ghost b = out@;
    push_str(out, "  ");
    push_one_line(out, d.message.as_str());
    push_str(out, "\n");
    proof {
        assert(b =~= a + ln("  "@ + match opt_view(d.code) {
            Some(c) => c,
            None => "<no rule>"@,
        }));
        assert(final(out)@ =~= b + ln("  "@ + one_line(d.message@)));
        assert(final(out)@ =~= old(out)@ + diagnostic_text(*d));
    }
}

/// The texts of a list of diagnostics.
pub open spec fn diagnostics_body(ds: Seq<Diagnostic>) -> Seq<char>
    decreases ds.len(),
{
    if ds.len() == 0 {
        Seq::empty()
    } else {
        diagnostics_body(ds.drop_last()) + diagnostic_text(ds.last())
    }
}

/// A list of diagnostics under a label, at most 20 of them; nothing when empty.
pub open spec fn diagnostics_text(label: Seq<char>, ds: Seq<Diagnostic>) -> Seq<char> {
    if ds.len() == 0 {
        Seq::empty()
    } else {
        ln("\n"@ + label) + diagnostics_body(ds.take(if ds.len() < 20 { ds.len() as int } else { 20 }))
    }
}

fn render_diagnostics(out: &mut String, label: &str, ds: &Vec<Diagnostic>)
    ensures
        final(out)@ == old(out)@ + diagnostics_text(label@, ds@),
{
    if ds.len() == 0 {
        proof {
            assert(old(out)@ + Seq::<char>::empty() =~= old(out)@);
        }
        return;
    }
    push_str(out, "\n");
    push_line(out, label);
    proof {
        assert(out@ =~= old(out)@ + ln("\n"@ + label@));
    }
    let ghost head = out@;
    let limit = if ds.len() < 20 { ds.len() } else { 20 };
    let mut i: usize = 0;
    while i < limit
        invariant
            0 <= i <= limit <= ds@.len(),
            out@ == head + diagnostics_body(ds@.take(i as int)),
        decreases limit - i,
    {
        render_diagnostic(out, &ds[i]);
        proof {
            assert(ds@.take(i + 1).drop_last() =~= ds@.take(i as int));
            assert(out@ =~= head + diagnostics_body(ds@.take(i + 1)));
        }
        i = i + 1;
    }
}

/// One configured mapping as the plan lists it.
pub open spec fn mapping_text(m: PlanRuleMapping) -> Seq<char> {
    ln("\n  "@ + tool_config_key(m.baseline_tool) + ":"@ + m.baseline@ + " <-> "@ + tool_config_key(m.candidate_tool) + ":"@
        + m.candidate@ + " ("@ + match m.confidence {
        MappingConfidence::Exact => "exact"@,
        MappingConfidence::Approximate => "approximate"@,
    } + ")"@) + match opt_view(m.notes) {
        Some(n) => ln("    "@ + n),
        None => Seq::empty(),
    }
}

/// The texts of a list of mappings.
pub open spec fn mappings_body(ms: Seq<PlanRuleMapping>) -> Seq<char>
    decreases ms.len(),
{
    if ms.len() == 0 {
        Seq::empty()
    } else {
        mappings_body(ms.drop_last()) + mapping_text(ms.last())
    }
}

/// A tool that was not found, as the plan lists it; nothing for an available tool.
pub open spec fn missing_tool_text(t: crate::capabilities::ToolAvailability) -> Seq<char> {
    if t.available {
        Seq::empty()
    } else {
        ln("\nMissing tool\n  "@ + tool_display_name(t.tool)) + match opt_view(t.reason) {
            Some(r) => ln("    "@ + first_line_of(r)),
            None => Seq::empty(),
        }
    }
}

/// The texts of the tools that were not found.
pub open spec fn missing_tools_body(ts: Seq<crate::capabilities::ToolAvailability>) -> Seq<char>
    decreases ts.len(),
{
    if ts.len() == 0 {
        Seq::empty()
    } else {
        missing_tools_body(ts.drop_last()) + missing_tool_text(ts.last())
    }
}

fn render_mapping(out: &mut String, m: &PlanRuleMapping)
    ensures
        final(out)@ == old(out)@ + mapping_text(*m),
{
    let mut line = owned("\n  ");
    push_str(&mut line, m.baseline_tool.config_key().as_str());
    push_str(&mut line, ":");
    push_str(&mut line, m.baseline.as_str());
    push_str(&mut line, " <-> ");
    push_str(&mut line, m.candidate_tool.config_key().as_str());
    push_str(&mut line, ":");
    push_str(&mut line, m.candidate.as_str());
    push_str(&mut line, " (");
    push_str(&mut line, if m.confidence == MappingConfidence::Exact { "exact" } else { "approximate" });
    push_str(&mut line, ")");
    let ghost first = line@;
    proof {
        assert(first =~= "\n  "@ + tool_config_key(m.baseline_tool) + ":"@ + m.baseline@ + " <-> "@ + tool_config_key(m.candidate_tool) + ":"@
            + m.candidate@ + " ("@ + match m.confidence {
            MappingConfidence::Exact => "exact"@,
            MappingConfidence::Approximate => "approximate"@,
        } + ")"@);
    }
    push_line(out, line.as_str());
    let ghost mid = out@;
    match &m.notes {
        Some(n) => {
            push_str(out, "    ");
            push_line(out, n.as_str());
            proof {
                assert(out@ =~= mid + ln("    "@ + n@));
            }
        },
        None => {},
    }
    proof {
        assert(final(out)@ =~= old(out)@ + mapping_text(*m));
    }
}

fn render_mappings(out: &mut String, ms: &Vec<PlanRuleMapping>)
    ensures
        final(out)@ == old(out)@ + mappings_body(ms@),
{
    let ghost head = out@;
    let mut i: usize = 0;
    while i < ms.len()
        invariant
            0 <= i <= ms@.len(),
            out@ == head + mappings_body(ms@.take(i as int)),
        decreases ms.len() - i,
    {
        render_mapping(out, &ms[i]);
        proof {
            assert(ms@.take(i + 1).drop_last() =~= ms@.take(i as int));
            assert(out@ =~= head + mappings_body(ms@.take(i + 1)));
        }
        i = i + 1;
    }
    proof {
        assert(ms@.take(ms@.len() as int) =~= ms@);
    }
}

#[verifier::rlimit(40)]
fn render_missing_tools(out: &mut String, ts: &Vec<crate::capabilities::ToolAvailability>)
    ensures
        final(out)@ == old(out)@ + missing_tools_body(ts@),
{
    let ghost head = out@;
    let mut k: usize = 0;
    while k < ts.len()
        invariant
            0 <= k <= ts@.len(),
            out@ == head + missing_tools_body(ts@.take(k as int)),
        decreases ts.len() - k,
    {
        let t = &ts[k];
        let ghost before = out@;
        if !t.available {
            push_str(out, "\nMissing tool\n  ");
            push_line(out, t.tool.display_name().as_str());
            let ghost mid = out@;
            match &t.reason {
                Some(reason) => {
                    push_str(out, "    ");
                    push_line(out, first_line(reason.as_str()).as_str());
                    proof {
                        assert(out@ =~= mid + ln("    "@ + first_line_of(reason@)));
                    }
                },
                None => {},
            }
            proof {
                assert(out@ =~= before + missing_tool_text(*t));
            }
        }
        proof {
            assert(ts@.take(k + 1).drop_last() =~= ts@.take(k as int));
            assert(out@ =~= head + missing_tools_body(ts@.take(k + 1)));
        }
        k = k + 1;
    }
    proof {
        assert(ts@.take(ts@.len() as int) =~= ts@);
    }
}

/// The heading of a plan.
pub open spec fn plan_heading(r: PlanReport) -> Seq<char> {
    ln("Concord comparison plan\n"@) + ln("Mode        "@ + r.mode@) + ln("Baseline    "@ + tool_display_name(r.baseline_tool))
        + ln("Candidate   "@ + tool_display_name(r.candidate_tool) + "\n"@)
}

fn render_plan_heading(out: &mut String, report: &PlanReport)
    ensures
        final(out)@ == old(out)@ + plan_heading(*report),
{
    push_line(out, "Concord comparison plan\n");
    push_str(out, "Mode        ");
    push_line(out, report.mode.as_str());
    push_str(out, "Baseline    ");
    push_line(out, report.baseline_tool.display_name().as_str());
    push_str(out, "Candidate   ");
    push_str(out, report.candidate_tool.display_name().as_str());
    push_line(out, "\n");
    proof {
        assert(final(out)@ =~= old(out)@ + plan_heading(*report));
    }
}

/// The rule mapping section of a lint plan.
pub open spec fn plan_mappings_text(r: PlanReport) -> Seq<char> {
    if r.mode@ == "lint"@ {
        ln("\nRule mappings"@) + ln("  Exact mappings         "@ + decimal(r.configured_rule_mappings.exact as nat))
            + ln("  Approximate mappings   "@ + decimal(r.configured_rule_mappings.approximate as nat))
            + mappings_body(r.rule_mappings@)
    } else {
        Seq::empty()
    }
}

/// The terminal text of a plan.
pub open spec fn plan_text(r: PlanReport) -> Seq<char> {
    plan_heading(r) + file_counts_text(r.plan) + plan_mappings_text(r) + missing_tools_body(r.plan.tools@)
        + dispositions_text("Unsupported"@, r.plan.unsupported@) + dispositions_text("Skipped by configuration"@, r.plan.skipped@)
}

/// The terminal text of a plan.
#[verifier::rlimit(40)]
pub fn plan(report: &PlanReport) -> (r: String)
    ensures
        r@ == plan_text(*report),
{
    let mut out = String::new();
    render_plan_heading(&mut out, report);
    let ghost a = out@;
    render_file_counts(&mut out, &report.plan);
    let ghost b = out@;
    if crate::text::str_eq(report.mode.as_str(), "lint") {
        push_line(&mut out, "\nRule mappings");
        push_count(&mut out, "  Exact mappings         ", report.configured_rule_mappings.exact);
        push_count(&mut out, "  Approximate mappings   ", report.configured_rule_mappings.approximate);
        render_mappings(&mut out, &report.rule_mappings);
        proof {
            assert(out@ =~= b + plan_mappings_text(*report));
        }
    } else {
        proof {
            assert(out@ =~= b + plan_mappings_text(*report));
        }
    }
    let ghost c = out@;
    render_missing_tools(&mut out, &report.plan.tools);
    let ghost d = out@;
    render_dispositions(&mut out, "Unsupported", &report.plan.unsupported);
    let ghost e = out@;
    render_dispositions(&mut out, "Skipped by configuration", &report.plan.skipped);
    proof {
        assert(a =~= plan_heading(*report));
        assert(out@ =~= plan_text(*report));
    }
    out
}

/// The `Debug` name of a file status.
pub open spec fn status_name(s: FormatComparisonStatus) -> Seq<char> {
    match s {
        FormatComparisonStatus::Identical => "Identical"@,
        FormatComparisonStatus::Different => "Different"@,
        FormatComparisonStatus::BaselineNonIdempotent => "BaselineNonIdempotent"@,
        FormatComparisonStatus::CandidateNonIdempotent => "CandidateNonIdempotent"@,
        FormatComparisonStatus::BothNonIdempotent => "BothNonIdempotent"@,
        FormatComparisonStatus::Unsupported => "Unsupported"@,
        FormatComparisonStatus::Skipped => "Skipped"@,
        FormatComparisonStatus::Failed => "Failed"@,
    }
}

fn status_name_of(s: FormatComparisonStatus) -> (r: &'static str)
    ensures
        r@ == status_name(s),
{
    match s {
        FormatComparisonStatus::Identical => "Identical",
        FormatComparisonStatus::Different => "Different",
        FormatComparisonStatus::BaselineNonIdempotent => "BaselineNonIdempotent",
        FormatComparisonStatus::CandidateNonIdempotent => "CandidateNonIdempotent",
        FormatComparisonStatus::BothNonIdempotent => "BothNonIdempotent",
        FormatComparisonStatus::Unsupported => "Unsupported",
        FormatComparisonStatus::Skipped => "Skipped",
        FormatComparisonStatus::Failed => "Failed",
    }
}

/// The notes of one side's outcome: its reason, error and stderr.
pub open spec fn outcome_text(side: Seq<char>, o: FormatterOutcome) -> Seq<char> {
    note_text(side, ": "@, opt_view(o.reason)) + note_text(side, " error: "@, opt_view(o.error))
        + note_text(side, " stderr: "@, opt_view(o.stderr))
}

/// One note of an outcome, when present.
pub open spec fn note_text(side: Seq<char>, infix: Seq<char>, o: Option<Seq<char>>) -> Seq<char> {
    match o {
        Some(x) => ln("  "@ + side + infix + x),
        None => Seq::empty(),
    }
}

fn render_note(out: &mut String, side: &str, infix: &str, o: &Option<String>)
    ensures
        final(out)@ == old(out)@ + note_text(side@, infix@, opt_view(*o)),
{
    match o {
        Some(x) => {
            push_str(out, "  ");
            push_str(out, side);
            push_str(out, infix);
            push_line(out, x.as_str());
            proof {
                assert(final(out)@ =~= old(out)@ + note_text(side@, infix@, opt_view(*o)));
            }
        },
        None => {
            proof {
                assert(old(out)@ + Seq::<char>::empty() =~= old(out)@);
            }
        },
    }
}

#[verifier::rlimit(40)]
fn render_outcome(out: &mut String, side: &str, o: &FormatterOutcome)
    ensures
        final(out)@ == old(out)@ + outcome_text(side@, *o),
{
    let ghost start = out@;
    render_note(out, side, ": ", &o.reason);
    let ghost a = out@;
    render_note(out, side, " error: ", &o.error);
    let ghost b = out@;
    render_note(out, side, " stderr: ", &o.stderr);
    proof {
        assert(final(out)@ =~= old(out)@ + outcome_text(side@, *o));
    }
}

/// A file that did not format identically, as the terminal shows it.
pub open spec fn file_text(f: crate::report::FormatFileResult) -> Seq<char> {
    ln("\n"@ + f.path@ + "  "@ + status_name(f.status)) + match opt_view(f.diff) {
        Some(d) => ln(d),
        None => Seq::empty(),
    } + outcome_text("baseline"@, f.baseline) + outcome_text("candidate"@, f.candidate)
}

/// The first 20 files that did not format identically.
pub open spec fn files_body(fs: Seq<crate::report::FormatFileResult>, budget: nat) -> Seq<char>
    decreases fs.len(),
{
    if fs.len() == 0 || budget == 0 {
        Seq::empty()
    } else if fs[0].status == FormatComparisonStatus::Identical {
        files_body(fs.drop_first(), budget)
    } else {
        file_text(fs[0]) + files_body(fs.drop_first(), (budget - 1) as nat)
    }
}

/// The terminal text of a format comparison.
pub open spec fn format_text(r: FormatReport) -> Seq<char> {
    ln("Concord format comparison\n"@) + ln("Baseline   "@ + tool_display_name(r.baseline_tool))
        + ln("Candidate  "@ + tool_display_name(r.candidate_tool) + "\n"@) + ln("Files"@)
        + ln("  Discovered      "@ + decimal(r.summary.discovered as nat)) + ln("  Compared        "@ + decimal(r.summary.compared as nat))
        + ln("  Identical       "@ + decimal(r.summary.identical as nat)) + ln("  Different       "@ + decimal(r.summary.different as nat))
        + ln("  Unsupported     "@ + decimal(r.summary.unsupported as nat)) + ln("  Skipped         "@ + decimal(r.summary.skipped as nat))
        + ln("  Failed          "@ + decimal(r.summary.failed as nat)) + files_body(r.files@, 20)
}

/// One step of `files_body` on a non-empty list with budget left.
proof fn lemma_files_body_step(fs: Seq<crate::report::FormatFileResult>, budget: nat)
    requires
        fs.len() > 0,
        budget > 0,
    ensures
        files_body(fs, budget) == if fs[0].status == FormatComparisonStatus::Identical {
            files_body(fs.drop_first(), budget)
        } else {
            file_text(fs[0]) + files_body(fs.drop_first(), (budget - 1) as nat)
        },
{
}

fn push_file(out: &mut String, f: &crate::report::FormatFileResult)
    ensures
        final(out)@ == old(out)@ + file_text(*f),
{
    let ghost before = out@;
    push_str(out, "\n");
    push_str(out, f.path.as_str());
    push_str(out, "  ");
    push_line(out, status_name_of(f.status));
    match &f.diff {
        Some(d) => push_line(out, d.as_str()),
        None => {},
    }
    render_outcome(out, "baseline", &f.baseline);
    render_outcome(out, "candidate", &f.candidate);
    proof {
        assert(out@ =~= before + file_text(*f));
    }
}

/// The terminal text of a format comparison.
#[verifier::rlimit(40)]
pub fn format(report: &FormatReport) -> (r: String)
    ensures
        r@ == format_text(*report),
{
    let mut out = String::new();
    push_line(&mut out, "Concord format comparison\n");
    push_str(&mut out, "Baseline   ");
    push_line(&mut out, report.baseline_tool.display_name().as_str());
    push_str(&mut out, "Candidate  ");
    push_str(&mut out, report.candidate_tool.display_name().as_str());
    push_line(&mut out, "\n");
    push_line(&mut out, "Files");
    push_count(&mut out, "  Discovered      ", report.summary.discovered);
    push_count(&mut out, "  Compared        ", report.summary.compared);
    push_count(&mut out, "  Identical       ", report.summary.identical);
    push_count(&mut out, "  Different       ", report.summary.different);
    push_count(&mut out, "  Unsupported     ", report.summary.unsupported);
    push_count(&mut out, "  Skipped         ", report.summary.skipped);
    push_count(&mut out, "  Failed          ", report.summary.failed);
    let ghost head = out@;
    let ghost fs = report.files@;
    let mut shown: usize = 0;
    let mut i: usize = 0;
    proof {
        assert(fs.subrange(0, fs.len() as int) =~= fs);
    }
    while i < report.files.len() && shown < 20
        invariant
            0 <= i <= fs.len(),
            fs == report.files@,
            shown <= 20,
            head + files_body(fs, 20) == out@ + files_body(fs.subrange(i as int, fs.len() as int), (20 - shown) as nat),
        decreases fs.len() - i,
    {
        let f = &report.files[i];
        let ghost rest = fs.subrange(i as int, fs.len() as int);
        let ghost old_shown = shown;
        proof {
            assert(rest.drop_first() =~= fs.subrange(i + 1, fs.len() as int));
            assert(rest[0] == *f);
        }
        if f.status != FormatComparisonStatus::Identical {
            push_file(&mut out, f);
            shown = shown + 1;
        }
        proof {
            lemma_files_body_step(rest, (20 - old_shown) as nat);
        }
        i = i + 1;
    }
    proof {
        let rest = fs.subrange(i as int, fs.len() as int);
        assert(files_body(rest, (20 - shown) as nat) =~= Seq::<char>::empty());
        assert(out@ + Seq::<char>::empty() =~= out@);
        assert(out@ =~= format_text(*report));
    }
    out
}

/// The percentages of a lint report, each as text with one decimal.
#[derive(Debug)]
pub struct PercentTexts {
    pub observed_mapping_coverage: String,
    pub comparable_file_coverage: String,
    pub exact_agreement: String,
    pub comparable_agreement: String,
}

/// The heading of a lint report.
pub open spec fn lint_heading(r: LintReport) -> Seq<char> {
    ln("Concord lint comparison\n"@) + ln("Profile      "@ + match r.profile {
        crate::report::ComparisonProfile::Raw => "raw"@,
        crate::report::ComparisonProfile::Comparable => "comparable"@,
    }) + ln("Baseline     "@ + tool_display_name(r.baseline.tool) + " "@ + first_line_of(r.baseline.version@))
        + ln("Candidate    "@ + tool_display_name(r.candidate.tool) + " "@ + first_line_of(r.candidate.version@) + "\n"@)
}

fn push_tool_line(out: &mut String, label: &str, tool: Tool, version: &str, suffix: &str)
    ensures
        final(out)@ == old(out)@ + ln(label@ + tool_display_name(tool) + " "@ + first_line_of(version@) + suffix@),
{
    let ghost before = out@;
    push_str(out, label);
    push_str(out, tool.display_name().as_str());
    push_str(out, " ");
    push_str(out, first_line(version).as_str());
    push_str(out, suffix);
    push_str(out, "\n");
    proof {
        assert(out@ =~= before + ln(label@ + tool_display_name(tool) + " "@ + first_line_of(version@) + suffix@));
    }
}

#[verifier::rlimit(40)]
fn render_lint_heading(out: &mut String, report: &LintReport)
    ensures
        final(out)@ == old(out)@ + lint_heading(*report),
{
    push_line(out, "Concord lint comparison\n");
    push_str(out, "Profile      ");
    push_line(out, match report.profile {
        crate::report::ComparisonProfile::Raw => "raw",
        crate::report::ComparisonProfile::Comparable => "comparable",
    });
    let ghost a = out@;
    push_tool_line(out, "Baseline     ", report.baseline.tool, report.baseline.version.as_str(), "");
    push_tool_line(out, "Candidate    ", report.candidate.tool, report.candidate.version.as_str(), "\n");
    proof {
        reveal_strlit("");
        assert("Baseline     "@ + tool_display_name(report.baseline.tool) + " "@ + first_line_of(report.baseline.version@) + ""@
            =~= "Baseline     "@ + tool_display_name(report.baseline.tool) + " "@ + first_line_of(report.baseline.version@));
        assert(final(out)@ =~= old(out)@ + lint_heading(*report));
    }
}

/// The counts of observed and mapped rules.
pub open spec fn observed_rules_text(r: LintReport) -> Seq<char> {
    let m = r.mapping_summary;
    ln("\nObserved rules"@) + ln("  Baseline             "@ + decimal(m.observed_baseline_rule_ids@.len()))
        + ln("  Candidate            "@ + decimal(m.observed_candidate_rule_ids@.len()))
        + ln("  Exact mapped         "@ + decimal(m.exact_mapped_rule_ids@.len()))
        + ln("  Approximate mapped   "@ + decimal(m.approximate_mapped_rule_ids@.len()))
        + ln("  Unmapped baseline    "@ + decimal(m.unmapped_baseline_rule_ids@.len()))
        + ln("  Unmapped candidate   "@ + decimal(m.unmapped_candidate_rule_ids@.len()))
}

#[verifier::rlimit(40)]
fn render_observed_rules(out: &mut String, report: &LintReport)
    ensures
        final(out)@ == old(out)@ + observed_rules_text(*report),
{
    let m = &report.mapping_summary;
    push_line(out, "\nObserved rules");
    push_count(out, "  Baseline             ", m.observed_baseline_rule_ids.len());
    push_count(out, "  Candidate            ", m.observed_candidate_rule_ids.len());
    push_count(out, "  Exact mapped         ", m.exact_mapped_rule_ids.len());
    push_count(out, "  Approximate mapped   ", m.approximate_mapped_rule_ids.len());
    push_count(out, "  Unmapped baseline    ", m.unmapped_baseline_rule_ids.len());
    push_count(out, "  Unmapped candidate   ", m.unmapped_candidate_rule_ids.len());
    proof {
        assert(final(out)@ =~= old(out)@ + observed_rules_text(*report));
    }
}

/// The comparable counts, and the raw ones under the raw profile.
pub open spec fn counts_text(r: LintReport) -> Seq<char> {
    let s = r.comparable_summary;
    let raw = r.raw_summary;
    ln("\nComparable diagnostics"@) + ln("  Exact matches         "@ + decimal(s.exact_matches as nat))
        + ln("  Approximate matches   "@ + decimal(s.approximate_matches as nat))
        + ln("  Baseline only         "@ + decimal(s.baseline_only as nat))
        + ln("  Candidate only        "@ + decimal(s.candidate_only as nat)) + if r.profile == crate::report::ComparisonProfile::Raw {
        ln("\nRaw diagnostics"@) + ln("  Baseline              "@ + decimal(raw.baseline_diagnostics as nat))
            + ln("  Candidate             "@ + decimal(raw.candidate_diagnostics as nat))
            + ln("  Unmapped baseline     "@ + decimal(raw.unmapped_baseline as nat))
            + ln("  Unmapped candidate    "@ + decimal(raw.unmapped_candidate as nat))
    } else {
        Seq::empty()
    }
}

#[verifier::rlimit(40)]
fn render_counts(out: &mut String, report: &LintReport)
    ensures
        final(out)@ == old(out)@ + counts_text(*report),
{
    let s = &report.comparable_summary;
    push_line(out, "\nComparable diagnostics");
    push_count(out, "  Exact matches         ", s.exact_matches);
    push_count(out, "  Approximate matches   ", s.approximate_matches);
    push_count(out, "  Baseline only         ", s.baseline_only);
    push_count(out, "  Candidate only        ", s.candidate_only);
    let ghost a = out@;
    if report.profile == crate::report::ComparisonProfile::Raw {
        let raw = &report.raw_summary;
        push_line(out, "\nRaw diagnostics");
        push_count(out, "  Baseline              ", raw.baseline_diagnostics);
        push_count(out, "  Candidate             ", raw.candidate_diagnostics);
        push_count(out, "  Unmapped baseline     ", raw.unmapped_baseline);
        push_count(out, "  Unmapped candidate    ", raw.unmapped_candidate);
    }
    proof {
        assert(final(out)@ =~= old(out)@ + counts_text(*report));
    }
}

/// The four percentages.
pub open spec fn percentages_text(p: PercentTexts) -> Seq<char> {
    ln("\nObserved mapping coverage: "@ + p.observed_mapping_coverage@ + "%"@)
        + ln("Comparable file coverage: "@ + p.comparable_file_coverage@ + "%"@)
        + ln("Exact agreement: "@ + p.exact_agreement@ + "%"@)
        + ln("Comparable agreement: "@ + p.comparable_agreement@ + "%"@)
}

#[verifier::rlimit(40)]
fn render_percentages(out: &mut String, p: &PercentTexts)
    ensures
        final(out)@ == old(out)@ + percentages_text(*p),
{
    push_str(out, "\nObserved mapping coverage: ");
    push_str(out, p.observed_mapping_coverage.as_str());
    push_line(out, "%");
    push_str(out, "Comparable file coverage: ");
    push_str(out, p.comparable_file_coverage.as_str());
    push_line(out, "%");
    push_str(out, "Exact agreement: ");
    push_str(out, p.exact_agreement.as_str());
    push_line(out, "%");
    push_str(out, "Comparable agreement: ");
    push_str(out, p.comparable_agreement.as_str());
    push_line(out, "%");
    proof {
        assert(final(out)@ =~= old(out)@ + percentages_text(*p));
    }
}

/// A pair that is not an exact match, as the terminal shows it.
pub open spec fn change_text(m: crate::matching::DiagnosticMatch) -> Seq<char> {
    ln("\n"@ + kind_label(m.kind)) + diagnostic_text(m.baseline) + ln("  candidate: "@ + one_line(m.candidate.message@))
}

/// The first 20 pairs that are not exact matches.
pub open spec fn changes_body(ms: Seq<crate::matching::DiagnosticMatch>, budget: nat) -> Seq<char>
    decreases ms.len(),
{
    if ms.len() == 0 || budget == 0 {
        Seq::empty()
    } else if ms[0].kind == MatchKind::ExactMatch {
        changes_body(ms.drop_first(), budget)
    } else {
        change_text(ms[0]) + changes_body(ms.drop_first(), (budget - 1) as nat)
    }
}

fn render_change(out: &mut String, m: &crate::matching::DiagnosticMatch)
    ensures
        final(out)@ == old(out)@ + change_text(*m),
{
    push_str(out, "\n");
    push_line(out, kind_label_of(m.kind));
    let ghost a = out@;
    render_diagnostic(out, &m.baseline);
    let ghost b = out@;
    push_str(out, "  candidate: ");
    push_one_line(out, m.candidate.message.as_str());
    push_str(out, "\n");
    proof {
        assert(a =~= old(out)@ + ln("\n"@ + kind_label(m.kind)));
        assert(final(out)@ =~= old(out)@ + change_text(*m));
    }
}

#[verifier::rlimit(40)]
fn render_changes(out: &mut String, ms: &Vec<crate::matching::DiagnosticMatch>)
    ensures
        final(out)@ == old(out)@ + changes_body(ms@, 20),
{
    let ghost head = out@;
    let ghost all = ms@;
    let mut shown: usize = 0;
    let mut i: usize = 0;
    proof {
        assert(all.subrange(0, all.len() as int) =~= all);
    }
    while i < ms.len() && shown < 20
        invariant
            0 <= i <= all.len(),
            all == ms@,
            shown <= 20,
            head + changes_body(all, 20) == out@ + changes_body(all.subrange(i as int, all.len() as int), (20 - shown) as nat),
        decreases all.len() - i,
    {
        let m = &ms[i];
        let ghost rest = all.subrange(i as int, all.len() as int);
        proof {
            assert(rest.drop_first() =~= all.subrange(i + 1, all.len() as int));
            assert(rest[0] == *m);
        }
        if m.kind != MatchKind::ExactMatch {
            render_change(out, m);
            shown = shown + 1;
        }
        i = i + 1;
    }
    proof {
        let rest = all.subrange(i as int, all.len() as int);
        assert(changes_body(rest, (20 - shown) as nat) =~= Seq::<char>::empty());
        assert(out@ + Seq::<char>::empty() =~= out@);
    }
}

/// The terminal text of a lint comparison, with its percentages already rendered.
pub open spec fn lint_text(r: LintReport, p: PercentTexts) -> Seq<char> {
    lint_heading(r) + file_counts_text(r.plan) + observed_rules_text(r) + counts_text(r) + percentages_text(p)
        + diagnostics_text("BASELINE ONLY"@, r.baseline_only@) + diagnostics_text("CANDIDATE ONLY"@, r.candidate_only@)
        + diagnostics_text("UNMAPPED BASELINE"@, r.unmapped_baseline@) + diagnostics_text("UNMAPPED CANDIDATE"@, r.unmapped_candidate@)
        + changes_body(r.matches@, 20) + dispositions_text("Unsupported"@, r.unsupported_files@)
        + dispositions_text("Skipped by configuration"@, r.skipped_files@)
}

proof fn lemma_regroup_twelve(
    a1: Seq<char>,
    a2: Seq<char>,
    a3: Seq<char>,
    a4: Seq<char>,
    a5: Seq<char>,
    a6: Seq<char>,
    a7: Seq<char>,
    a8: Seq<char>,
    a9: Seq<char>,
    a10: Seq<char>,
    a11: Seq<char>,
    a12: Seq<char>,
)
    ensures
        a1 + a2 + a3 + a4 + a5 + a6 + a7 + a8 + a9 + a10 + a11 + a12 == (a1 + a2 + a3) + a4 + (a5 + a6 + a7 + a8 + a9
            + a10 + a11 + a12),
{
    assert(a1 + a2 + a3 + a4 + a5 + a6 + a7 + a8 + a9 + a10 + a11 + a12 =~= (a1 + a2 + a3) + a4 + (a5 + a6 + a7 + a8
        + a9 + a10 + a11 + a12));
}

proof fn lemma_regroup_counts(h: Seq<char>, e: Seq<char>, x: Seq<char>, bl: Seq<char>, bn: Seq<char>, cl: Seq<char>, cn: Seq<char>, t: Seq<char>)
    ensures
        ln(h) + ln(e) + ln(x) + ln(bl + bn) + ln(cl + cn) + t == (ln(h) + ln(e) + ln(x)) + bl + bn + "\n"@ + cl + cn
            + "\n"@ + t,
{
    assert(ln(h) + ln(e) + ln(x) + ln(bl + bn) + ln(cl + cn) + t =~= (ln(h) + ln(e) + ln(x)) + bl + bn + "\n"@ + cl
        + cn + "\n"@ + t);
}

proof fn lemma_place(pre: Seq<char>, c: Seq<char>, post: Seq<char>, x: Seq<char>, mid: Seq<char>, t: Seq<char>)
    requires
        c == x + mid + t,
    ensures
        pre + c + post == (pre + x) + mid + (t + post),
{
    assert(pre + c + post =~= (pre + x) + mid + (t + post));
}

/// The terminal text of a lint comparison shows the one-sided counts of the
/// comparable summary, each beside its own label: the line `Baseline only` with the
/// number of baseline-only diagnostics, followed by the line `Candidate only` with
/// the number of candidate-only ones.
pub proof fn lemma_lint_text_shows_one_sided_counts(r: LintReport, p: PercentTexts)
    ensures
        exists|before: Seq<char>, after: Seq<char>|
            lint_text(r, p) == before + ("  Baseline only         "@ + decimal(r.comparable_summary.baseline_only as nat)
                + "\n"@ + "  Candidate only        "@ + decimal(r.comparable_summary.candidate_only as nat) + "\n"@)
                + after,
{
    let s = r.comparable_summary;
    let bl = "  Baseline only         "@;
    let bn = decimal(s.baseline_only as nat);
    let cl = "  Candidate only        "@;
    let cn = decimal(s.candidate_only as nat);
    let mid = bl + bn + "\n"@ + cl + cn + "\n"@;
    let tail = if r.profile == crate::report::ComparisonProfile::Raw {
        let raw = r.raw_summary;
        ln("\nRaw diagnostics"@) + ln("  Baseline              "@ + decimal(raw.baseline_diagnostics as nat))
            + ln("  Candidate             "@ + decimal(raw.candidate_diagnostics as nat))
            + ln("  Unmapped baseline     "@ + decimal(raw.unmapped_baseline as nat))
            + ln("  Unmapped candidate    "@ + decimal(raw.unmapped_candidate as nat))
    } else {
        Seq::empty()
    };
    let x = ln("\nComparable diagnostics"@) + ln("  Exact matches         "@ + decimal(s.exact_matches as nat)) + ln(
        "  Approximate matches   "@ + decimal(s.approximate_matches as nat),
    );
    lemma_regroup_counts(
        "\nComparable diagnostics"@,
        "  Exact matches         "@ + decimal(s.exact_matches as nat),
        "  Approximate matches   "@ + decimal(s.approximate_matches as nat),
        bl,
        bn,
        cl,
        cn,
        tail,
    );
    assert(counts_text(r) == x + bl + bn + "\n"@ + cl + cn + "\n"@ + tail);
    assert(x + bl + bn + "\n"@ + cl + cn + "\n"@ + tail =~= x + mid + tail);
    let pre = lint_heading(r) + file_counts_text(r.plan) + observed_rules_text(r);
    let post = percentages_text(p) + diagnostics_text("BASELINE ONLY"@, r.baseline_only@) + diagnostics_text(
        "CANDIDATE ONLY"@,
        r.candidate_only@,
    ) + diagnostics_text("UNMAPPED BASELINE"@, r.unmapped_baseline@) + diagnostics_text(
        "UNMAPPED CANDIDATE"@,
        r.unmapped_candidate@,
    ) + changes_body(r.matches@, 20) + dispositions_text("Unsupported"@, r.unsupported_files@) + dispositions_text(
        "Skipped by configuration"@,
        r.skipped_files@,
    );
    lemma_regroup_twelve(
        lint_heading(r),
        file_counts_text(r.plan),
        observed_rules_text(r),
        counts_text(r),
        percentages_text(p),
        diagnostics_text("BASELINE ONLY"@, r.baseline_only@),
        diagnostics_text("CANDIDATE ONLY"@, r.candidate_only@),
        diagnostics_text("UNMAPPED BASELINE"@, r.unmapped_baseline@),
        diagnostics_text("UNMAPPED CANDIDATE"@, r.unmapped_candidate@),
        changes_body(r.matches@, 20),
        dispositions_text("Unsupported"@, r.unsupported_files@),
        dispositions_text("Skipped by configuration"@, r.skipped_files@),
    );
    assert(lint_text(r, p) == pre + counts_text(r) + post);
    lemma_place(pre, counts_text(r), post, x, mid, tail);
    assert(lint_text(r, p) == (pre + x) + mid + (tail + post));
}

/// The terminal text of a lint comparison; `percentages` are the report's four
/// percentages rendered with one decimal.
#[verifier::rlimit(40)]
pub fn lint(report: &LintReport, percentages: &PercentTexts) -> (r: String)
    ensures
        r@ == lint_text(*report, *percentages),
{
    let mut out = String::new();
    render_lint_heading(&mut out, report);
    let ghost a = out@;
    render_file_counts(&mut out, &report.plan);
    let ghost b = out@;
    render_observed_rules(&mut out, report);
    let ghost c = out@;
    render_counts(&mut out, report);
    let ghost d = out@;
    render_percentages(&mut out, percentages);
    let ghost e = out@;
    render_diagnostics(&mut out, "BASELINE ONLY", &report.baseline_only);
    let ghost f = out@;
    render_diagnostics(&mut out, "CANDIDATE ONLY", &report.candidate_only);
    let ghost g = out@;
    render_diagnostics(&mut out, "UNMAPPED BASELINE", &report.unmapped_baseline);
    let ghost h = out@;
    render_diagnostics(&mut out, "UNMAPPED CANDIDATE", &report.unmapped_candidate);
    let ghost i = out@;
    render_changes(&mut out, &report.matches);
    let ghost j = out@;
    render_dispositions(&mut out, "Unsupported", &report.unsupported_files);
    let ghost k = out@;
    render_dispositions(&mut out, "Skipped by configuration", &report.skipped_files);
    proof {
        assert(a =~= lint_heading(*report));
        assert(out@ =~= lint_text(*report, *percentages));
    }
    out
}

} // verus!
