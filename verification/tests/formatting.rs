use concord::adapters::{
    classify_format, compare_format_file, formatter_arguments, normalized_eol, FormatterAdapter, FormatterStep,
};
use concord::capabilities::{CapabilityCatalog, ComparisonPlan, UnsupportedPolicy};
use concord::cli::{format_outcome, Outcome};
use concord::config::Config;
use concord::error::{ErrorKind, ToolFailure};
use concord::model::Tool;
use concord::process::{ProcessOutput, ResolvedTool};
use concord::reduce::{format_mismatch_signatures, ReduceMode};
use concord::report::{unplanned_results, FormatComparisonStatus, FormatReport, FormatterOutcome, ToolFileStatus};

fn adapter(tool: Tool, version: &str) -> FormatterAdapter {
    let resolved = ResolvedTool {
        tool,
        executable: format!("/bin/{}", tool.config_key()),
        checked: Vec::new(),
        explicitly_configured: false,
    };
    FormatterAdapter::resolve(tool, Ok(resolved), Ok(version.to_owned())).expect("formatter")
}

fn ok(stdout: &str, stderr: &str, duration_ms: u128) -> Result<ProcessOutput, ToolFailure> {
    Ok(ProcessOutput { exit_code: Some(0), duration_ms, stdout: stdout.as_bytes().to_vec(), stderr: stderr.as_bytes().to_vec() })
}

fn finished(step: FormatterStep) -> FormatterOutcome {
    match step {
        FormatterStep::Finished(outcome) => outcome,
        FormatterStep::Repeat { .. } => panic!("expected a finished outcome"),
    }
}

fn outcome(tool: Tool, output: &str, idempotent: bool) -> FormatterOutcome {
    let a = adapter(tool, "1.0.0");
    let first = ok(output, "", 1);
    let second = ok(if idempotent { output } else { "changed\n" }, "", 1);
    finished(a.run("src/app.ts", false, &first, Some(&second)))
}

#[test]
fn formatters_read_from_stdin_and_never_write() {
    for tool in [Tool::Prettier, Tool::Biome, Tool::Oxfmt] {
        let arguments = formatter_arguments(tool, "src/app.ts");
        assert_eq!(arguments.last().map(String::as_str), Some("src/app.ts"));
        assert!(arguments.iter().all(|argument| argument != "--write"));
    }
    assert_eq!(formatter_arguments(Tool::Prettier, "a b.ts"), ["--stdin-filepath", "a b.ts"]);
    assert_eq!(formatter_arguments(Tool::Biome, "x.ts"), ["format", "--stdin-file-path", "x.ts"]);
}

#[test]
fn the_second_run_formats_the_first_output() {
    let a = adapter(Tool::Prettier, "3.3.3");
    let first = ok("const x = 1;\n", "", 10);
    match a.run("src/app.ts", false, &first, None) {
        FormatterStep::Repeat { input } => assert_eq!(input, "const x = 1;\n"),
        FormatterStep::Finished(_) => panic!("a second run is needed"),
    }
    let second = ok("const x = 1;\n", "", 5);
    let done = finished(a.run("src/app.ts", false, &first, Some(&second)));
    assert_eq!(done.status, ToolFileStatus::Success);
    assert_eq!(done.output.as_deref(), Some("const x = 1;\n"));
    assert_eq!(done.idempotent, Some(true));
    assert_eq!(done.duration_ms, Some(15));
    assert_eq!(done.arguments, ["--stdin-filepath", "src/app.ts"]);
}

#[test]
fn formatter_failures_are_recorded() {
    let a = adapter(Tool::Prettier, "3.3.3");
    let exit = Ok(ProcessOutput { exit_code: Some(2), duration_ms: 3, stdout: Vec::new(), stderr: b"syntax".to_vec() });
    let failed = finished(a.run("src/app.ts", false, &exit, None));
    assert_eq!(failed.status, ToolFileStatus::Failed);
    assert_eq!(failed.error.as_deref(), Some("formatter returned a non-zero exit code"));
    let bad = Ok(ProcessOutput { exit_code: Some(0), duration_ms: 3, stdout: vec![0xff, 0xfe], stderr: Vec::new() });
    let invalid = finished(a.run("src/app.ts", false, &bad, None));
    assert!(invalid.error.as_deref().unwrap_or("").starts_with("formatter output is not UTF-8: "));
    let panicked = a.panic_outcome();
    assert_eq!(panicked.status, ToolFileStatus::Failed);
    assert_eq!(panicked.error.as_deref(), Some("formatter worker panicked"));
}

#[test]
fn oxfmt_package_lock_refusal_is_unsupported() {
    let a = adapter(Tool::Oxfmt, "oxfmt 0.60.0");
    let refused = Ok(ProcessOutput {
        exit_code: Some(1),
        duration_ms: 3,
        stdout: Vec::new(),
        stderr: b"No parser could be inferred for file package-lock.json".to_vec(),
    });
    let result = finished(a.run("package-lock.json", false, &refused, None));
    assert_eq!(result.status, ToolFileStatus::Unsupported);
    assert_eq!(result.reason.as_deref(), Some("Oxfmt 0.60.0 does not support package-lock.json via stdin"));
}

#[test]
fn crlf_is_the_only_difference_that_normalization_removes() {
    assert_eq!(normalized_eol("a\r\nb\r\n", true), "a\nb\n");
    assert_eq!(normalized_eol("a\r\nb", false), "a\r\nb");
    let crlf = outcome(Tool::Prettier, "x\r\n", true);
    let lf = outcome(Tool::Biome, "x\n", true);
    assert_eq!(classify_format(&crlf, &lf, true), FormatComparisonStatus::Identical);
    assert_eq!(classify_format(&crlf, &lf, false), FormatComparisonStatus::Different);
    let spaced = outcome(Tool::Biome, "x \n", true);
    assert_eq!(classify_format(&crlf, &spaced, true), FormatComparisonStatus::Different);
}

#[test]
fn idempotence_is_checked_before_content() {
    let steady = outcome(Tool::Prettier, "x\n", true);
    let unsteady = outcome(Tool::Biome, "x\n", false);
    assert_eq!(classify_format(&steady, &unsteady, false), FormatComparisonStatus::CandidateNonIdempotent);
    assert_eq!(classify_format(&unsteady, &steady, false), FormatComparisonStatus::BaselineNonIdempotent);
    assert_eq!(classify_format(&unsteady, &unsteady, false), FormatComparisonStatus::BothNonIdempotent);
}

#[test]
fn differing_files_get_a_diff() {
    let left = outcome(Tool::Prettier, "const x = 1;\n", true);
    let right = outcome(Tool::Biome, "const x=1;\n", true);
    let result = compare_format_file("/p", "/p/src/app.ts", left, right, false);
    assert_eq!(result.path, "src/app.ts");
    assert_eq!(result.status, FormatComparisonStatus::Different);
    let diff = result.diff.expect("diff");
    assert!(diff.contains("--- baseline/src/app.ts"));
    assert!(diff.contains("+++ candidate/src/app.ts"));
    assert!(diff.contains("-const x = 1;"));
    assert!(diff.contains("+const x=1;"));
}

#[test]
fn format_mismatches_follow_the_status() {
    assert!(format_mismatch_signatures(FormatComparisonStatus::Identical).expect("identical").is_empty());
    let different = format_mismatch_signatures(FormatComparisonStatus::Different).expect("different");
    assert_eq!(different.len(), 1);
    assert_eq!(different[0].side, "both");
    assert_eq!(different[0].category, "different");
    let unsteady = format_mismatch_signatures(FormatComparisonStatus::BaselineNonIdempotent).expect("unsteady");
    assert_eq!(unsteady[0].category, "baseline_non_idempotent");
    let failed = format_mismatch_signatures(FormatComparisonStatus::Failed).expect_err("failed");
    assert_eq!(failed.kind, ErrorKind::Operational);
    assert_eq!(failed.message, "a formatter failed while evaluating the reduction");
    assert_eq!(ReduceMode::Format, ReduceMode::Format);
}

#[test]
fn format_outcome_fails_on_failures_then_follows_the_policy() {
    let mut config = Config::default();
    config.tools.prettier.unsupported = vec!["**/*.json".into()];
    let catalog = CapabilityCatalog::new(&config).expect("catalog");
    let files = vec!["/p/a.ts".to_owned(), "/p/b.json".to_owned()];
    let plan = ComparisonPlan::build("/p", &files, Tool::Prettier, Tool::Biome, None, None, &catalog, Vec::new());
    let mut results = unplanned_results(&plan);
    assert_eq!(results.len(), 1);
    assert_eq!(results[0].path, "b.json");
    assert_eq!(results[0].status, FormatComparisonStatus::Unsupported);
    let same = compare_format_file("/p", "/p/a.ts", outcome(Tool::Prettier, "a\n", true), outcome(Tool::Biome, "a\n", true), false);
    results.push(same);
    let report = FormatReport::new("/p", Tool::Prettier, Tool::Biome, plan, results);
    assert_eq!(report.summary.unsupported, 1);
    assert_eq!(format_outcome(&report, UnsupportedPolicy::Ignore).expect("ignore"), Outcome::Clean);
    assert_eq!(format_outcome(&report, UnsupportedPolicy::Difference).expect("difference"), Outcome::Differences);
    let error = format_outcome(&report, UnsupportedPolicy::Error).expect_err("error policy");
    assert_eq!(error.message, "1 unsupported file(s) encountered under the error policy");
}

#[test]
fn report_order_does_not_depend_on_worker_order() {
    let config = Config::default();
    let catalog = CapabilityCatalog::new(&config).expect("catalog");
    let files = vec!["/p/b.ts".to_owned(), "/p/a.ts".to_owned()];
    let result = |name: &str| {
        compare_format_file("/p", name, outcome(Tool::Prettier, "x\n", true), outcome(Tool::Biome, "x\n", true), false)
    };
    let first = FormatReport::new(
        "/p",
        Tool::Prettier,
        Tool::Biome,
        ComparisonPlan::build("/p", &files, Tool::Prettier, Tool::Biome, None, None, &catalog, Vec::new()),
        vec![result("/p/b.ts"), result("/p/a.ts")],
    );
    let second = FormatReport::new(
        "/p",
        Tool::Prettier,
        Tool::Biome,
        ComparisonPlan::build("/p", &files, Tool::Prettier, Tool::Biome, None, None, &catalog, Vec::new()),
        vec![result("/p/a.ts"), result("/p/b.ts")],
    );
    let paths = |report: &FormatReport| report.files.iter().map(|f| f.path.clone()).collect::<Vec<_>>();
    assert_eq!(paths(&first), paths(&second));
    assert_eq!(paths(&first), ["a.ts", "b.ts"]);
    assert_eq!(first.summary.identical, 2);
}
