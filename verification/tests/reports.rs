use concord::capabilities::{CapabilityCatalog, ComparisonPlan, UnsupportedPolicy};
use concord::cli::{lint_outcome, Outcome};
use concord::config::Config;
use concord::matching::{compare_with_mappings, MatchKind, RuleMappingTable};
use concord::model::{Diagnostic, DiagnosticData, Severity, Span, Tool, ToolRun};
use concord::report::{normalized_success_stderr, ComparisonProfile, LintReport, PlanReport};
use concord::scoring::{calculate, Percentage};
use concord::terminal::{lint, plan, PercentTexts};

fn diagnostic(tool: Tool, path: &str, code: &str, line: u32, severity: Severity) -> Diagnostic {
    Diagnostic::new(
        tool,
        path,
        DiagnosticData {
            code: Some(code.into()),
            canonical_code: Some(code.into()),
            severity,
            message: "message".into(),
            span: Some(Span { start_line: line, start_column: 1, end_line: Some(line), end_column: Some(5) }),
            fix: None,
        },
    )
}

fn run(tool: Tool, diagnostics: Vec<Diagnostic>) -> ToolRun {
    ToolRun {
        tool,
        executable: format!("/bin/{}", tool.config_key()),
        version: "1.0.0\nbuild".into(),
        arguments: Vec::new(),
        exit_code: Some(1),
        duration_ms: 12,
        diagnostics,
        warnings: Vec::new(),
        stdout: "raw".into(),
        stderr: String::new(),
    }
}

fn texts() -> PercentTexts {
    PercentTexts {
        observed_mapping_coverage: "100.0".into(),
        comparable_file_coverage: "100.0".into(),
        exact_agreement: "50.0".into(),
        comparable_agreement: "50.0".into(),
    }
}

fn report(profile: ComparisonProfile) -> LintReport {
    let config = Config::default();
    let catalog = CapabilityCatalog::new(&config).expect("catalog");
    let plan = ComparisonPlan::build("/p", &vec!["/p/a.ts".to_owned()], Tool::Eslint, Tool::Oxlint, None, None, &catalog, Vec::new());
    let baseline = vec![
        diagnostic(Tool::Eslint, "a.ts", "no-debugger", 2, Severity::Error),
        diagnostic(Tool::Eslint, "a.ts", "eqeqeq", 4, Severity::Error),
    ];
    let candidate = vec![
        diagnostic(Tool::Oxlint, "a.ts", "no-debugger", 2, Severity::Error),
        diagnostic(Tool::Oxlint, "a.ts", "eqeqeq", 4, Severity::Warning),
    ];
    let mappings = RuleMappingTable::default();
    let result = compare_with_mappings(baseline.clone(), candidate.clone(), &mappings, Tool::Eslint, Tool::Oxlint);
    let (raw, comparable, mapping) =
        calculate(&result, &baseline, &candidate, &mappings, Tool::Eslint, Tool::Oxlint, plan.discovered_count(), plan.comparable_count());
    assert_eq!(raw.exact_matches, 1);
    assert_eq!(raw.severity_changes, 1);
    assert_eq!(raw.exact_agreement, Percentage { part: 2, whole: 4 });
    assert_eq!(comparable.comparable_file_coverage, Percentage { part: 1, whole: 1 });
    LintReport::new("/p", profile, plan, run(Tool::Eslint, baseline), run(Tool::Oxlint, candidate), result, raw, comparable, mapping)
}

#[test]
fn severity_change_is_a_difference_and_counts_once() {
    let report = report(ComparisonProfile::Raw);
    assert_eq!(report.matches.len(), 2);
    let kinds: Vec<MatchKind> = report.matches.iter().map(|m| m.kind).collect();
    assert!(kinds.contains(&MatchKind::ExactMatch));
    assert!(kinds.contains(&MatchKind::SeverityChanged));
    assert!(report.has_differences(ComparisonProfile::Raw, false));
    assert_eq!(report.baseline.stdout, "");
    assert_eq!(lint_outcome(&report, ComparisonProfile::Raw, false, UnsupportedPolicy::Error).expect("no unsupported"), Outcome::Differences);
}

#[test]
fn lint_terminal_report_shows_versions_counts_and_percentages() {
    let report = report(ComparisonProfile::Raw);
    let text = lint(&report, &texts());
    assert!(text.starts_with("Concord lint comparison\n\nProfile      raw\nBaseline     ESLint 1.0.0\nCandidate    Oxlint 1.0.0\n"));
    assert!(text.contains("  Exact matches         1\n"));
    assert!(text.contains("Exact agreement: 50.0%\n"));
}

#[test]
fn plan_report_lists_tools() {
    let config = Config::default();
    let catalog = CapabilityCatalog::new(&config).expect("catalog");
    let built = ComparisonPlan::build("/p", &vec!["/p/a.ts".to_owned()], Tool::Eslint, Tool::Biome, None, None, &catalog, Vec::new());
    let report = PlanReport::new("lint", Tool::Eslint, Tool::Biome, built, Vec::new());
    let text = plan(&report);
    assert!(text.starts_with("Concord comparison plan\n\nMode        lint\nBaseline    ESLint\nCandidate   Biome\n"));
}

#[test]
fn empty_lint_output_needs_no_stderr_note() {
    assert_eq!(normalized_success_stderr(Tool::Eslint, "   \n"), None);
}
