//! The decisions of the command line: argument checks, outcomes and exit codes.
use vstd::prelude::*;

use crate::capabilities::{join_path, join_path_exec, ToolAvailability, UnsupportedPolicy};
use crate::config::{AliasConfig, Config, RuleMappingConfig};
use crate::matching::MappingConfidence;
use crate::model::{clone_opt_string, opt_view, tool_display_name, tool_rank};
use crate::error::{failure_message, ToolFailure};
use crate::terminal::first_line_of;
use crate::order::{has_key_of, KeyPart, same_key, sort_dedup_by_key, strictly_sorted_by_key, Keyed};
use crate::error::{ConcordError, ErrorKind};
use crate::model::{spec_is_formatter, spec_is_linter, Tool};
use crate::process::ResolvedTool;
use crate::reduce::{ReduceMode, ReductionRequest};
use crate::report::{ComparisonProfile, FormatReport, LintReport, PlanRuleMapping};
use crate::text::{decimal, owned, push_decimal, push_str};

verus! {

/// How a command that ran to its end came out.
#[derive(Debug, Clone, Copy, PartialEq, Eq, Structural)]
pub enum Outcome {
    Clean,
    Differences,
}

/// The exit status of a command: 0 clean, 1 differences, 2 a usage or
/// configuration error, 3 any other failure.
pub open spec fn spec_exit_code(result: Result<Outcome, ConcordError>) -> u8 {
    match result {
        Ok(Outcome::Clean) => 0,
        Ok(Outcome::Differences) => 1,
        Err(e) => if e.kind == ErrorKind::Usage {
            2
        } else {
            3
        },
    }
}

/// The exit status of a command's result.
pub fn exit_code(result: &Result<Outcome, ConcordError>) -> (r: u8)
    ensures
        r == spec_exit_code(*result),
{
    match result {
        Ok(Outcome::Clean) => 0,
        Ok(Outcome::Differences) => 1,
        Err(error) => if error.kind == ErrorKind::Usage {
            2
        } else {
            3
        },
    }
}

/// The linters that lint commands accept.
#[derive(Debug, Clone, Copy, PartialEq, Eq, Structural)]
pub enum LinterName {
    Eslint,
    Biome,
    Oxlint,
}

/// The formatters that format commands accept.
#[derive(Debug, Clone, Copy, PartialEq, Eq, Structural)]
pub enum FormatterName {
    Prettier,
    Biome,
    Oxfmt,
}

/// The tool of a linter name.
pub open spec fn linter_tool(n: LinterName) -> Tool {
    match n {
        LinterName::Eslint => Tool::Eslint,
        LinterName::Biome => Tool::Biome,
        LinterName::Oxlint => Tool::Oxlint,
    }
}

/// The tool of a formatter name.
pub open spec fn formatter_tool(n: FormatterName) -> Tool {
    match n {
        FormatterName::Prettier => Tool::Prettier,
        FormatterName::Biome => Tool::Biome,
        FormatterName::Oxfmt => Tool::Oxfmt,
    }
}

impl From<LinterName> for Tool {
    fn from(value: LinterName) -> (r: Self) {
        match value {
            LinterName::Eslint => Tool::Eslint,
            LinterName::Biome => Tool::Biome,
            LinterName::Oxlint => Tool::Oxlint,
        }
    }
}

impl vstd::std_specs::convert::FromSpecImpl<LinterName> for Tool {
    open spec fn obeys_from_spec() -> bool {
        true
    }

    open spec fn from_spec(v: LinterName) -> Tool {
        linter_tool(v)
    }
}

impl From<FormatterName> for Tool {
    fn from(value: FormatterName) -> (r: Self) {
        match value {
            FormatterName::Prettier => Tool::Prettier,
            FormatterName::Biome => Tool::Biome,
            FormatterName::Oxfmt => Tool::Oxfmt,
        }
    }
}

impl vstd::std_specs::convert::FromSpecImpl<FormatterName> for Tool {
    open spec fn obeys_from_spec() -> bool {
        true
    }

    open spec fn from_spec(v: FormatterName) -> Tool {
        formatter_tool(v)
    }
}

/// Where a report is written.
#[derive(Debug, Clone, Copy, PartialEq, Eq, Structural)]
pub enum OutputKind {
    Terminal,
    Json,
}

/// The report options that comparisons and plans share.
#[derive(Debug, Clone)]
pub struct ReportArgs {
    pub output: OutputKind,
    pub report_file: Option<String>,
    pub no_save_report: bool,
}

/// The error of two commands that cannot both be used.
pub open spec fn report_conflict_message() -> Seq<char> {
    "--report-file cannot be used with --no-save-report"@
}

/// Checks that the two tools of a comparison differ.
pub fn validate_pair(baseline: Tool, candidate: Tool) -> (r: Result<(), ConcordError>)
    ensures
        r is Ok <==> baseline != candidate,
        r matches Err(e) ==> (e.kind == ErrorKind::Usage && e.message@ == "baseline and candidate must be different tools"@),
{
    if baseline == candidate {
        Err(ConcordError::usage("baseline and candidate must be different tools"))
    } else {
        Ok(())
    }
}

/// Checks that an explicit report file is not combined with not saving.
pub fn validate_report_args(arguments: &ReportArgs) -> (r: Result<(), ConcordError>)
    ensures
        r is Ok <==> !(arguments.report_file is Some && arguments.no_save_report),
        r matches Err(e) ==> (e.kind == ErrorKind::Usage && e.message@ == report_conflict_message()),
{
    if arguments.report_file.is_some() && arguments.no_save_report {
        Err(ConcordError::usage("--report-file cannot be used with --no-save-report"))
    } else {
        Ok(())
    }
}

/// A path given on the command line, under the root unless absolute.
pub fn absolute_from_root(root: &str, path: &str) -> (r: String)
    ensures
        r@ == join_path(root@, path@),
{
    join_path_exec(root, path)
}

/// The explicit report file, under the root unless absolute.
pub fn resolved_report_path(root: &str, path: Option<&str>) -> (r: Option<String>)
    ensures
        match path {
            Some(p) => (r matches Some(x) && x@ == join_path(root@, p@)),
            None => r is None,
        },
{
    match path {
        Some(p) => Some(join_path_exec(root, p)),
        None => None,
    }
}

/// The error of unsupported files under the error policy.
pub open spec fn unsupported_error_message(count: nat) -> Seq<char> {
    decimal(count) + " unsupported file(s) encountered under the error policy"@
}

/// Fails when files were unsupported and the policy makes that an error.
pub fn apply_unsupported_policy(count: usize, policy: UnsupportedPolicy) -> (r: Result<(), ConcordError>)
    ensures
        r is Ok <==> !(count > 0 && policy == UnsupportedPolicy::Error),
        r matches Err(e) ==> (e.kind == ErrorKind::Operational && e.message@ == unsupported_error_message(count as nat)),
{
    if count > 0 && policy == UnsupportedPolicy::Error {
        let mut message = String::new();
        push_decimal(&mut message, count as u64);
        push_str(&mut message, " unsupported file(s) encountered under the error policy");
        proof {
            assert(message@ =~= unsupported_error_message(count as nat));
        }
        Err(ConcordError { kind: ErrorKind::Operational, message })
    } else {
        Ok(())
    }
}

/// How a comparison that found `differences` and `unsupported` unsupported files
/// ends under `policy`.
pub open spec fn policy_outcome(differences: bool, unsupported: nat, policy: UnsupportedPolicy) -> Result<Outcome, Seq<char>> {
    if unsupported > 0 && policy == UnsupportedPolicy::Error {
        Err(unsupported_error_message(unsupported))
    } else if differences || (unsupported > 0 && policy == UnsupportedPolicy::Difference) {
        Ok(Outcome::Differences)
    } else {
        Ok(Outcome::Clean)
    }
}

/// An outcome or an error, seen as an outcome or the error's message.
pub open spec fn outcome_view(r: Result<Outcome, ConcordError>) -> Result<Outcome, Seq<char>> {
    match r {
        Ok(o) => Ok(o),
        Err(e) => Err(e.message@),
    }
}

fn decide(differences: bool, unsupported: usize, policy: UnsupportedPolicy) -> (r: Result<Outcome, ConcordError>)
    ensures
        outcome_view(r) == policy_outcome(differences, unsupported as nat, policy),
        r matches Err(e) ==> e.kind == ErrorKind::Operational,
{
    match apply_unsupported_policy(unsupported, policy) {
        Err(e) => Err(e),
        Ok(()) => {
            if differences || (unsupported > 0 && policy == UnsupportedPolicy::Difference) {
                Ok(Outcome::Differences)
            } else {
                Ok(Outcome::Clean)
            }
        },
    }
}

/// How a lint comparison ends: an error when unsupported files meet the error
/// policy, differences when the report has some or unsupported files count as
/// differences, clean otherwise.
pub fn lint_outcome(
    report: &LintReport,
    profile: ComparisonProfile,
    count_probable_as_match: bool,
    policy: UnsupportedPolicy,
) -> (r: Result<Outcome, ConcordError>)
    ensures
        outcome_view(r) == policy_outcome(
            crate::report::lint_differs(*report, profile, count_probable_as_match),
            crate::capabilities::disposition_paths(report.plan.unsupported@).len(),
            policy,
        ),
        r matches Err(e) ==> e.kind == ErrorKind::Operational,
{
    let differences = report.has_differences(profile, count_probable_as_match);
    decide(differences, report.plan.unsupported_count(), policy)
}

/// A lint comparison that pairs two diagnostics whose span, severity or message
/// changed ends in differences, with exit status 1, when no file is unsupported:
/// every outcome that `lint_outcome` may give for such a report is that one.
pub proof fn lemma_changed_pair_exits_one(
    report: LintReport,
    profile: ComparisonProfile,
    count_probable_as_match: bool,
    policy: UnsupportedPolicy,
    i: int,
    r: Result<Outcome, ConcordError>,
)
    requires
        0 <= i < report.matches@.len(),
        report.matches@[i].kind == crate::matching::MatchKind::RangeChanged || report.matches@[i].kind
            == crate::matching::MatchKind::SeverityChanged || report.matches@[i].kind
            == crate::matching::MatchKind::MessageChanged,
        crate::capabilities::disposition_paths(report.plan.unsupported@).len() == 0,
        outcome_view(r) == policy_outcome(
            crate::report::lint_differs(report, profile, count_probable_as_match),
            crate::capabilities::disposition_paths(report.plan.unsupported@).len(),
            policy,
        ),
    ensures
        r == Ok::<Outcome, ConcordError>(Outcome::Differences),
        spec_exit_code(r) == 1,
{
    crate::report::lemma_what_makes_a_difference(report, profile, count_probable_as_match);
    assert(report.matches@[i].kind == report.matches@[i].kind);
}

/// The error of a format comparison in which a formatter failed.
pub open spec fn formatter_failure_message() -> Seq<char> {
    "one or more formatter executions failed; see the report above"@
}

/// How a format comparison ends: an error when a formatter failed, else as a
/// lint comparison does, with the report's differences and unsupported files.
pub fn format_outcome(report: &FormatReport, policy: UnsupportedPolicy) -> (r: Result<Outcome, ConcordError>)
    ensures
        report.summary.failed > 0 ==> outcome_view(r) == Err::<Outcome, Seq<char>>(formatter_failure_message()),
        report.summary.failed == 0 ==> outcome_view(r) == policy_outcome(
            report.summary.different > 0 || report.summary.baseline_non_idempotent > 0
                || report.summary.candidate_non_idempotent > 0 || report.summary.both_non_idempotent > 0,
            report.summary.unsupported as nat,
            policy,
        ),
        r matches Err(e) ==> e.kind == ErrorKind::Operational,
{
    if report.has_failures() {
        return Err(ConcordError::operational("one or more formatter executions failed; see the report above"));
    }
    decide(report.has_differences(), report.summary.unsupported, policy)
}

/// Whether a tool was found, from the result of resolving it.
pub fn availability(tool: Tool, resolved: Result<ResolvedTool, crate::error::ToolFailure>) -> (r: ToolAvailability)
    ensures
        r.tool == tool,
        match resolved {
            Ok(t) => r.available && crate::model::opt_view(r.executable) == Some(t.executable@) && r.reason is None,
            Err(f) => !r.available && r.executable is None && crate::model::opt_view(r.reason) == Some(
                crate::error::failure_message(f),
            ),
        },
{
    match resolved {
        Ok(t) => ToolAvailability { tool, available: true, executable: Some(t.executable), reason: None },
        Err(f) => ToolAvailability { tool, available: false, executable: None, reason: Some(f.message()) },
    }
}

/// A plan mapping as plain values: tools, rules, confidence and notes.
pub type PlanMappingView = (Tool, Seq<char>, Tool, Seq<char>, MappingConfidence, Option<Seq<char>>);

/// The plain values of a plan mapping.
pub open spec fn plan_view(m: PlanRuleMapping) -> PlanMappingView {
    (m.baseline_tool, m.baseline@, m.candidate_tool, m.candidate@, m.confidence, opt_view(m.notes))
}

/// A configured rule mapping seen from `baseline` towards `candidate`, when it
/// joins those two tools in either direction.
pub open spec fn rule_entry(m: RuleMappingConfig, baseline: Tool, candidate: Tool) -> Seq<PlanMappingView> {
    if m.baseline_tool == baseline && m.candidate_tool == candidate {
        seq![(baseline, m.baseline@, candidate, m.candidate@, m.confidence, opt_view(m.notes))]
    } else if m.baseline_tool == candidate && m.candidate_tool == baseline {
        seq![(baseline, m.candidate@, candidate, m.baseline@, m.confidence, opt_view(m.notes))]
    } else {
        Seq::empty()
    }
}

/// The configured rule mappings between two tools, in configuration order.
pub open spec fn rule_entries(rules: Seq<RuleMappingConfig>, baseline: Tool, candidate: Tool) -> Seq<PlanMappingView>
    decreases rules.len(),
{
    if rules.len() == 0 {
        Seq::empty()
    } else {
        rule_entries(rules.drop_last(), baseline, candidate) + rule_entry(rules.last(), baseline, candidate)
    }
}

/// The rule that an alias group names for a tool.
pub open spec fn alias_code(a: AliasConfig, tool: Tool) -> Option<Seq<char>> {
    match tool {
        Tool::Eslint => opt_view(a.eslint),
        Tool::Biome => opt_view(a.biome),
        Tool::Oxlint => opt_view(a.oxlint),
        _ => None,
    }
}

/// The note of a mapping that comes from an alias group.
pub open spec fn alias_note() -> Seq<char> {
    "converted from deprecated matching.aliases"@
}

/// An alias group as an exact mapping, when it names a rule for both tools.
pub open spec fn alias_entry(a: AliasConfig, baseline: Tool, candidate: Tool) -> Seq<PlanMappingView> {
    match (alias_code(a, baseline), alias_code(a, candidate)) {
        (Some(x), Some(y)) => seq![(baseline, x, candidate, y, MappingConfidence::Exact, Some(alias_note()))],
        _ => Seq::empty(),
    }
}

/// The alias groups as mappings between two tools, in configuration order.
pub open spec fn alias_entries(aliases: Seq<AliasConfig>, baseline: Tool, candidate: Tool) -> Seq<PlanMappingView>
    decreases aliases.len(),
{
    if aliases.len() == 0 {
        Seq::empty()
    } else {
        alias_entries(aliases.drop_last(), baseline, candidate) + alias_entry(aliases.last(), baseline, candidate)
    }
}

/// Every mapping that the configuration declares between two tools.
pub open spec fn declared_plan_mappings(config: Config, baseline: Tool, candidate: Tool) -> Seq<PlanMappingView> {
    rule_entries(config.matching.rules@, baseline, candidate) + alias_entries(config.matching.aliases@, baseline, candidate)
}

/// Two plan mappings with the same sort key are the same mapping.
pub proof fn lemma_plan_key_determines_mapping(a: PlanRuleMapping, b: PlanRuleMapping)
    requires
        a.key() == b.key(),
    ensures
        plan_view(a) == plan_view(b),
{
    let head_a = seq![
        KeyPart::Num(tool_rank(a.baseline_tool)),
        KeyPart::Text(a.baseline@),
        KeyPart::Num(tool_rank(a.candidate_tool)),
        KeyPart::Text(a.candidate@),
        KeyPart::Num(crate::report::confidence_rank(a.confidence)),
    ];
    let head_b = seq![
        KeyPart::Num(tool_rank(b.baseline_tool)),
        KeyPart::Text(b.baseline@),
        KeyPart::Num(tool_rank(b.candidate_tool)),
        KeyPart::Text(b.candidate@),
        KeyPart::Num(crate::report::confidence_rank(b.confidence)),
    ];
    assert(a.key().subrange(0, 5) =~= head_a);
    assert(b.key().subrange(0, 5) =~= head_b);
    assert(head_a[0] == head_b[0]);
    assert(head_a[1] == head_b[1]);
    assert(head_a[2] == head_b[2]);
    assert(head_a[3] == head_b[3]);
    assert(head_a[4] == head_b[4]);
    assert(a.key()[5] == b.key()[5]);
    assert(tool_rank(a.baseline_tool) == tool_rank(b.baseline_tool));
    assert(tool_rank(a.candidate_tool) == tool_rank(b.candidate_tool));
    assert(crate::report::confidence_rank(a.confidence) == crate::report::confidence_rank(b.confidence));
    assert(a.baseline@ == b.baseline@);
    assert(a.candidate@ == b.candidate@);
    match (a.notes, b.notes) {
        (Some(x), Some(y)) => {
            assert(a.key().subrange(5, 7) =~= seq![KeyPart::Num(1), KeyPart::Text(x@)]);
            assert(b.key().subrange(5, 7) =~= seq![KeyPart::Num(1), KeyPart::Text(y@)]);
            assert(a.key()[6] == b.key()[6]);
        },
        (None, None) => {},
        (Some(x), None) => {
            assert(a.key()[5] == KeyPart::Num(1));
            assert(b.key()[5] == KeyPart::Num(0));
        },
        (None, Some(y)) => {
            assert(a.key()[5] == KeyPart::Num(0));
            assert(b.key()[5] == KeyPart::Num(1));
        },
    }
}

fn plan_mapping(
    baseline_tool: Tool,
    baseline: &String,
    candidate_tool: Tool,
    candidate: &String,
    confidence: MappingConfidence,
    notes: &Option<String>,
) -> (r: PlanRuleMapping)
    ensures
        plan_view(r) == (baseline_tool, baseline@, candidate_tool, candidate@, confidence, opt_view(*notes)),
{
    PlanRuleMapping {
        baseline_tool,
        baseline: baseline.clone(),
        candidate_tool,
        candidate: candidate.clone(),
        confidence,
        notes: clone_opt_string(notes),
    }
}

fn alias_code_of(a: &AliasConfig, tool: Tool) -> (r: Option<String>)
    ensures
        opt_view(r) == alias_code(*a, tool),
{
    match tool {
        Tool::Eslint => clone_opt_string(&a.eslint),
        Tool::Biome => clone_opt_string(&a.biome),
        Tool::Oxlint => clone_opt_string(&a.oxlint),
        _ => None,
    }
}

/// The configured mappings between the compared tools, each seen from the
/// baseline, alias groups included as exact mappings; sorted, each once.
pub fn configured_plan_mappings(config: &Config, baseline: Tool, candidate: Tool) -> (r: Vec<PlanRuleMapping>)
    ensures
        strictly_sorted_by_key(r@),
        r@.map_values(|m: PlanRuleMapping| plan_view(m)).to_set() == declared_plan_mappings(*config, baseline, candidate).to_set(),
{
    let rules = &config.matching.rules;
    let aliases = &config.matching.aliases;
    let mut raw: Vec<PlanRuleMapping> = Vec::new();
    let mut i: usize = 0;
    while i < rules.len()
        invariant
            0 <= i <= rules@.len(),
            rules@ == config.matching.rules@,
            raw@.map_values(|m: PlanRuleMapping| plan_view(m)) == rule_entries(rules@.take(i as int), baseline, candidate),
        decreases rules.len() - i,
    {
        let m = &rules[i];
        let ghost before = raw@.map_values(|m: PlanRuleMapping| plan_view(m));
        proof {
            assert(rules@.take(i + 1).drop_last() =~= rules@.take(i as int));
            assert(rules@.take(i + 1).last() == rules@[i as int]);
        }
        if m.baseline_tool == baseline && m.candidate_tool == candidate {
            raw.push(plan_mapping(baseline, &m.baseline, candidate, &m.candidate, m.confidence, &m.notes));
        } else if m.baseline_tool == candidate && m.candidate_tool == baseline {
            raw.push(plan_mapping(baseline, &m.candidate, candidate, &m.baseline, m.confidence, &m.notes));
        }
        proof {
            assert(raw@.map_values(|m: PlanRuleMapping| plan_view(m)) =~= before + rule_entry(rules@[i as int], baseline, candidate));
        }
        i = i + 1;
    }
    proof {
        assert(rules@.take(rules@.len() as int) =~= rules@);
    }
    let ghost from_rules = raw@.map_values(|m: PlanRuleMapping| plan_view(m));
    let note = owned("converted from deprecated matching.aliases");
    proof {
        reveal_strlit("converted from deprecated matching.aliases");
    }
    let mut g: usize = 0;
    while g < aliases.len()
        invariant
            0 <= g <= aliases@.len(),
            aliases@ == config.matching.aliases@,
            note@ == alias_note(),
            raw@.map_values(|m: PlanRuleMapping| plan_view(m)) == from_rules + alias_entries(aliases@.take(g as int), baseline, candidate),
        decreases aliases.len() - g,
    {
        let a = &aliases[g];
        let ghost before = raw@.map_values(|m: PlanRuleMapping| plan_view(m));
        proof {
            assert(aliases@.take(g + 1).drop_last() =~= aliases@.take(g as int));
            assert(aliases@.take(g + 1).last() == aliases@[g as int]);
            assert(from_rules + alias_entries(aliases@.take(g + 1), baseline, candidate) =~= before + alias_entry(aliases@[g as int], baseline, candidate));
        }
        let b = alias_code_of(a, baseline);
        let c = alias_code_of(a, candidate);
        match (b, c) {
            (Some(x), Some(y)) => {
                raw.push(plan_mapping(baseline, &x, candidate, &y, MappingConfidence::Exact, &Some(note.clone())));
            },
            _ => {},
        }
        proof {
            assert(raw@.map_values(|m: PlanRuleMapping| plan_view(m)) =~= before + alias_entry(aliases@[g as int], baseline, candidate));
        }
        g = g + 1;
    }
    proof {
        assert(aliases@.take(aliases@.len() as int) =~= aliases@);
    }
    let ghost declared = declared_plan_mappings(*config, baseline, candidate);
    let ghost all = raw@;
    assert(all.map_values(|m: PlanRuleMapping| plan_view(m)) == declared);
    let r = sort_dedup_by_key(raw);
    proof {
        let views = r@.map_values(|m: PlanRuleMapping| plan_view(m));
        assert forall|x: PlanMappingView| views.to_set().contains(x) implies declared.to_set().contains(x) by {
            let i = choose|i: int| 0 <= i < views.len() && views[i] == x;
            assert(all.contains(r@[i]));
            let k = choose|k: int| 0 <= k < all.len() && all[k] == r@[i];
            assert(declared[k] == plan_view(all[k]));
        }
        assert forall|x: PlanMappingView| declared.to_set().contains(x) implies views.to_set().contains(x) by {
            let j = choose|j: int| 0 <= j < declared.len() && declared[j] == x;
            assert(declared[j] == plan_view(all[j]));
            assert(has_key_of(r@, all[j]));
            let i = choose|i: int| 0 <= i < r@.len() && same_key(#[trigger] r@[i], all[j]);
            lemma_plan_key_determines_mapping(r@[i], all[j]);
            assert(views[i] == x);
        }
        assert(views.to_set() =~= declared.to_set());
    }
    r
}

/// What probing one tool found.
#[derive(Debug)]
pub enum ToolProbe {
    /// No executable was found.
    Missing(ToolFailure),
    /// An executable was found; asking it for its version answered or failed.
    Resolved(ResolvedTool, Result<String, ToolFailure>),
}

/// `n` spaces.
pub open spec fn spaces(n: nat) -> Seq<char> {
    Seq::new(n, |i: int| ' ')
}

/// A text padded with spaces on the right to `width` characters.
pub open spec fn padded(text: Seq<char>, width: nat) -> Seq<char> {
    if text.len() >= width {
        text
    } else {
        text + spaces((width - text.len()) as nat)
    }
}

/// The line of one tool in the doctor's list.
pub open spec fn probe_line(tool: Tool, probe: ToolProbe, configured: bool) -> Seq<char> {
    let name = "  "@ + padded(tool_display_name(tool), 9);
    match probe {
        ToolProbe::Resolved(t, Ok(version)) => name + " found    "@ + t.executable@ + " ("@ + first_line_of(version@)
            + ")\n"@,
        ToolProbe::Resolved(t, Err(f)) => name + " unusable "@ + t.executable@ + " ("@ + failure_message(f)
            + ")\n"@,
        ToolProbe::Missing(f) => name + " missing\n"@ + if configured {
            "    "@ + failure_message(f) + "\n"@
        } else {
            Seq::empty()
        },
    }
}

/// Whether a probe shows that a tool the user configured cannot be used.
pub open spec fn probe_fails(probe: ToolProbe, configured: bool) -> bool {
    match probe {
        ToolProbe::Resolved(t, Ok(_)) => false,
        ToolProbe::Resolved(t, Err(_)) => t.explicitly_configured,
        ToolProbe::Missing(_) => configured,
    }
}

/// Whether the configuration names a command for a tool.
pub open spec fn configures(config: Config, tool: Tool) -> bool {
    crate::config::tool_config(config.tools, tool).command is Some
}

/// The doctor's list of tools.
pub open spec fn probe_lines(probes: Seq<(Tool, ToolProbe)>, config: Config) -> Seq<char>
    decreases probes.len(),
{
    if probes.len() == 0 {
        Seq::empty()
    } else {
        probe_lines(probes.drop_last(), config) + probe_line(
            probes.last().0,
            probes.last().1,
            configures(config, probes.last().0),
        )
    }
}

/// The doctor's heading: the project root and the configuration file in use.
pub open spec fn doctor_heading(root: Seq<char>, config_path: Option<Seq<char>>) -> Seq<char> {
    "Concord doctor\n\nProject root  "@ + root + "\nConfiguration "@ + match config_path {
        Some(p) => p,
        None => "<not found; using defaults>"@,
    } + "\n\nTools\n"@
}

/// The error of a doctor that found a configured tool unusable.
pub open spec fn doctor_failure_message() -> Seq<char> {
    "one or more explicitly configured tools are unavailable"@
}

fn push_probe_line(out: &mut String, tool: Tool, probe: &ToolProbe, configured: bool)
    ensures
        final(out)@ == old(out)@ + probe_line(tool, *probe, configured),
{
    let name = tool.display_name();
    let ghost start = out@;
    push_str(out, "  ");
    push_str(out, name.as_str());
    let mut k: usize = crate::text::chars_of(name.as_str()).len();
    proof {
        assert(name@.len() <= 8);
        assert(out@ =~= start + "  "@ + name@ + spaces((k - name@.len()) as nat));
    }
    while k < 9
        invariant
            name@ == tool_display_name(tool),
            name@.len() <= k <= 9,
            out@ == start + "  "@ + name@ + spaces((k - name@.len()) as nat),
        decreases 9 - k,
    {
        crate::text::push_char(out, ' ');
        proof {
            assert(spaces((k + 1 - name@.len()) as nat) =~= spaces((k - name@.len()) as nat).push(' '));
        }
        k = k + 1;
    }
    let ghost head = out@;
    assert(head == start + ("  "@ + padded(tool_display_name(tool), 9)));
    match probe {
        ToolProbe::Resolved(t, Ok(version)) => {
            push_str(out, " found    ");
            push_str(out, t.executable.as_str());
            push_str(out, " (");
            let line = crate::terminal::first_line(version.as_str());
            push_str(out, line.as_str());
            push_str(out, ")\n");
            proof {
                assert(out@ =~= start + probe_line(tool, *probe, configured));
            }
        },
        ToolProbe::Resolved(t, Err(f)) => {
            push_str(out, " unusable ");
            push_str(out, t.executable.as_str());
            push_str(out, " (");
            let message = f.message();
            push_str(out, message.as_str());
            push_str(out, ")\n");
            proof {
                assert(out@ =~= start + probe_line(tool, *probe, configured));
            }
        },
        ToolProbe::Missing(f) => {
            push_str(out, " missing\n");
            if configured {
                push_str(out, "    ");
                let message = f.message();
                push_str(out, message.as_str());
                push_str(out, "\n");
            }
            proof {
                assert(out@ =~= start + probe_line(tool, *probe, configured));
            }
        },
    }
}

/// The doctor's report of every probed tool, and its outcome: an error when a
/// tool that the user configured cannot be used, clean otherwise.
pub fn doctor(
    root: &str,
    config_path: Option<&str>,
    config: &Config,
    probes: &Vec<(Tool, ToolProbe)>,
) -> (r: (String, Result<Outcome, ConcordError>))
    ensures
        r.0@ == doctor_heading(root@, match config_path {
            Some(p) => Some(p@),
            None => None,
        }) + probe_lines(probes@, *config),
        (exists|i: int| 0 <= i < probes@.len() && probe_fails(#[trigger] probes@[i].1, configures(*config, probes@[i].0)))
            ==> (r.1 matches Err(e) && e.kind == ErrorKind::Operational && e.message@ == doctor_failure_message()),
        !(exists|i: int| 0 <= i < probes@.len() && probe_fails(#[trigger] probes@[i].1, configures(*config, probes@[i].0)))
            ==> r.1 == Ok::<Outcome, ConcordError>(Outcome::Clean),
{
    let mut out = owned("Concord doctor\n\nProject root  ");
    push_str(&mut out, root);
    push_str(&mut out, "\nConfiguration ");
    match config_path {
        Some(p) => push_str(&mut out, p),
        None => push_str(&mut out, "<not found; using defaults>"),
    }
    push_str(&mut out, "\n\nTools\n");
    let ghost heading = out@;
    proof {
        reveal_strlit("Concord doctor\n\nProject root  ");
        assert(heading =~= doctor_heading(root@, match config_path {
            Some(p) => Some(p@),
            None => None,
        }));
    }
    let mut failure = false;
    let mut i: usize = 0;
    while i < probes.len()
        invariant
            0 <= i <= probes@.len(),
            out@ == heading + probe_lines(probes@.take(i as int), *config),
            failure == exists|k: int| 0 <= k < i && probe_fails(#[trigger] probes@[k].1, configures(*config, probes@[k].0)),
        decreases probes.len() - i,
    {
        let (tool, probe) = (&probes[i].0, &probes[i].1);
        let configured = config.tools.get(*tool).command.is_some();
        push_probe_line(&mut out, *tool, probe, configured);
        let fails = match probe {
            ToolProbe::Resolved(t, Ok(_)) => false,
            ToolProbe::Resolved(t, Err(_)) => t.explicitly_configured,
            ToolProbe::Missing(_) => configured,
        };
        proof {
            assert(probes@.take(i + 1).drop_last() =~= probes@.take(i as int));
            assert(probes@.take(i + 1).last() == probes@[i as int]);
            assert(heading + probe_lines(probes@.take(i + 1), *config) =~= heading + probe_lines(probes@.take(i as int), *config)
                + probe_line(*tool, *probe, configured));
            if fails {
                assert(probe_fails(probes@[i as int].1, configures(*config, probes@[i as int].0)));
            }
        }
        failure = failure || fails;
        i = i + 1;
    }
    proof {
        assert(probes@.take(probes@.len() as int) =~= probes@);
    }
    if failure {
        (out, Err(ConcordError::operational("one or more explicitly configured tools are unavailable")))
    } else {
        (out, Ok(Outcome::Clean))
    }
}

/// The modes that the reduce command accepts.
#[derive(Debug, Clone, Copy, PartialEq, Eq, Structural)]
pub enum ReduceModeArg {
    Lint,
    Format,
}

/// The reduction mode of a mode argument.
pub open spec fn reduce_mode(m: ReduceModeArg) -> ReduceMode {
    match m {
        ReduceModeArg::Lint => ReduceMode::Lint,
        ReduceModeArg::Format => ReduceMode::Format,
    }
}

impl From<ReduceModeArg> for ReduceMode {
    fn from(value: ReduceModeArg) -> (r: Self) {
        match value {
            ReduceModeArg::Lint => ReduceMode::Lint,
            ReduceModeArg::Format => ReduceMode::Format,
        }
    }
}

impl vstd::std_specs::convert::FromSpecImpl<ReduceModeArg> for ReduceMode {
    open spec fn obeys_from_spec() -> bool {
        true
    }

    open spec fn from_spec(v: ReduceModeArg) -> ReduceMode {
        reduce_mode(v)
    }
}

/// The arguments of the reduce command.
#[derive(Debug, Clone)]
pub struct ReduceArgs {
    pub mode: ReduceModeArg,
    pub baseline: Tool,
    pub candidate: Tool,
    pub path: String,
    pub output: Option<String>,
    pub timeout: Option<u64>,
    pub mismatch: usize,
    pub report_file: Option<String>,
    pub no_save_report: bool,
}

/// The usage error that the reduce command's arguments raise, checked in this
/// order, if any.
pub open spec fn reduction_error(a: ReduceArgs) -> Option<Seq<char>> {
    if a.report_file is Some && a.no_save_report {
        Some(report_conflict_message())
    } else if a.baseline == a.candidate {
        Some("baseline and candidate must be different tools"@)
    } else if a.timeout == Some(0u64) {
        Some("timeout must be greater than zero seconds"@)
    } else if a.mode == ReduceModeArg::Lint && !(spec_is_linter(a.baseline) && spec_is_linter(a.candidate)) {
        Some("lint reduction supports eslint, biome, and oxlint"@)
    } else if a.mode == ReduceModeArg::Format && !(spec_is_formatter(a.baseline) && spec_is_formatter(a.candidate)) {
        Some("format reduction supports prettier, biome, and oxfmt"@)
    } else {
        None
    }
}

/// Checks the reduce command's arguments and turns them into a request whose
/// paths lie under `root` unless absolute.
pub fn reduction_request(root: &str, arguments: &ReduceArgs) -> (r: Result<ReductionRequest, ConcordError>)
    ensures
        match reduction_error(*arguments) {
            Some(m) => (r matches Err(e) && e.kind == ErrorKind::Usage && e.message@ == m),
            None => (r matches Ok(q) && q.mode == reduce_mode(arguments.mode) && q.baseline == arguments.baseline
                && q.candidate == arguments.candidate && q.input@ == join_path(root@, arguments.path@)
                && opt_view(q.output) == match arguments.output {
                Some(o) => Some(join_path(root@, o@)),
                None => None,
            } && q.mismatch == arguments.mismatch && q.timeout_seconds == arguments.timeout),
        },
{
    if arguments.report_file.is_some() && arguments.no_save_report {
        return Err(ConcordError::usage("--report-file cannot be used with --no-save-report"));
    }
    match validate_pair(arguments.baseline, arguments.candidate) {
        Err(e) => return Err(e),
        Ok(()) => {},
    }
    if arguments.timeout == Some(0u64) {
        return Err(ConcordError::usage("timeout must be greater than zero seconds"));
    }
    let mode = match arguments.mode {
        ReduceModeArg::Lint => ReduceMode::Lint,
        ReduceModeArg::Format => ReduceMode::Format,
    };
    if arguments.mode == ReduceModeArg::Lint && !(arguments.baseline.is_linter() && arguments.candidate.is_linter()) {
        return Err(ConcordError::usage("lint reduction supports eslint, biome, and oxlint"));
    }
    if arguments.mode == ReduceModeArg::Format && !(arguments.baseline.is_formatter()
        && arguments.candidate.is_formatter()) {
        return Err(ConcordError::usage("format reduction supports prettier, biome, and oxfmt"));
    }
    let output = match &arguments.output {
        Some(o) => Some(join_path_exec(root, o.as_str())),
        None => None,
    };
    Ok(ReductionRequest {
        mode,
        baseline: arguments.baseline,
        candidate: arguments.candidate,
        input: join_path_exec(root, arguments.path.as_str()),
        output,
        mismatch: arguments.mismatch,
        timeout_seconds: arguments.timeout,
    })
}

/// Where a command's report goes besides its output.
#[derive(Debug, Clone, PartialEq, Eq)]
pub enum ReportTarget {
    /// The file that `--report-file` names, under the root unless absolute.
    File(String),
    /// A new file under the project's report directory.
    Saved,
    /// Nowhere: `--no-save-report`.
    Unsaved,
}

/// Where a report goes: the explicit report file, else the report directory
/// unless saving is switched off.
pub fn report_target(root: &str, arguments: &ReportArgs) -> (r: ReportTarget)
    ensures
        match arguments.report_file {
            Some(p) => (r matches ReportTarget::File(x) && x@ == join_path(root@, p@)),
            None => if arguments.no_save_report {
                r == ReportTarget::Unsaved
            } else {
                r == ReportTarget::Saved
            },
        },
{
    match &arguments.report_file {
        Some(p) => ReportTarget::File(join_path_exec(root, p.as_str())),
        None => if arguments.no_save_report {
            ReportTarget::Unsaved
        } else {
            ReportTarget::Saved
        },
    }
}

} // verus!
