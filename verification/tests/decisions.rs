use concord::capabilities::UnsupportedPolicy;
use concord::cli::{
    apply_unsupported_policy, availability, configured_plan_mappings, doctor, exit_code, reduction_request,
    resolved_report_path, validate_pair, validate_report_args, OutputKind, Outcome, ReduceArgs, ReduceModeArg,
    ReportArgs, ToolProbe,
};
use concord::config::{AliasConfig, Config, RuleMappingConfig};
use concord::error::{ConcordError, ErrorKind, ToolFailure};
use concord::matching::MappingConfidence;
use concord::model::Tool;
use concord::process::{reported_version, resolve_found, Lookup, ProcessOutput, ResolvedTool};
use concord::reduce::ReduceMode;

fn report_args(report_file: Option<&str>, no_save_report: bool) -> ReportArgs {
    ReportArgs { output: OutputKind::Terminal, report_file: report_file.map(str::to_owned), no_save_report }
}

fn reduce_args(mode: ReduceModeArg, baseline: Tool, candidate: Tool) -> ReduceArgs {
    ReduceArgs {
        mode,
        baseline,
        candidate,
        path: "case.ts".into(),
        output: None,
        timeout: None,
        mismatch: 0,
        report_file: None,
        no_save_report: false,
    }
}

fn resolved(tool: Tool, executable: &str, explicit: bool) -> ResolvedTool {
    ResolvedTool { tool, executable: executable.into(), checked: vec![executable.into()], explicitly_configured: explicit }
}

fn output(exit_code: Option<i32>, stdout: &[u8], stderr: &[u8]) -> ProcessOutput {
    ProcessOutput { exit_code, duration_ms: 5, stdout: stdout.to_vec(), stderr: stderr.to_vec() }
}

#[test]
fn exit_codes_follow_the_outcome() {
    assert_eq!(exit_code(&Ok(Outcome::Clean)), 0);
    assert_eq!(exit_code(&Ok(Outcome::Differences)), 1);
    assert_eq!(exit_code(&Err(ConcordError::usage("bad flag"))), 2);
    assert_eq!(exit_code(&Err(ConcordError::operational("tool crashed"))), 3);
}

#[test]
fn same_tool_on_both_sides_is_a_usage_error() {
    let error = validate_pair(Tool::Eslint, Tool::Eslint).expect_err("same tool");
    assert_eq!(error.kind, ErrorKind::Usage);
    assert_eq!(error.message, "baseline and candidate must be different tools");
    assert!(validate_pair(Tool::Eslint, Tool::Biome).is_ok());
}

#[test]
fn report_file_conflicts_with_no_save() {
    let error = validate_report_args(&report_args(Some("out.json"), true)).expect_err("conflict");
    assert_eq!(error.message, "--report-file cannot be used with --no-save-report");
    assert!(validate_report_args(&report_args(Some("out.json"), false)).is_ok());
    assert!(validate_report_args(&report_args(None, true)).is_ok());
}

#[test]
fn report_path_is_under_the_root_unless_absolute() {
    assert_eq!(resolved_report_path("/project", Some("reports/a.json")).as_deref(), Some("/project/reports/a.json"));
    assert_eq!(resolved_report_path("/project", Some("/tmp/a.json")).as_deref(), Some("/tmp/a.json"));
    assert_eq!(resolved_report_path("/project", None), None);
}

#[test]
fn unsupported_files_fail_only_under_the_error_policy() {
    let error = apply_unsupported_policy(2, UnsupportedPolicy::Error).expect_err("error policy");
    assert_eq!(error.kind, ErrorKind::Operational);
    assert_eq!(error.message, "2 unsupported file(s) encountered under the error policy");
    assert!(apply_unsupported_policy(0, UnsupportedPolicy::Error).is_ok());
    assert!(apply_unsupported_policy(2, UnsupportedPolicy::Difference).is_ok());
    assert!(apply_unsupported_policy(2, UnsupportedPolicy::Ignore).is_ok());
}

#[test]
fn reduction_arguments_are_checked_in_order() {
    let mut arguments = reduce_args(ReduceModeArg::Lint, Tool::Eslint, Tool::Eslint);
    arguments.report_file = Some("r.json".into());
    arguments.no_save_report = true;
    assert_eq!(
        reduction_request("/project", &arguments).expect_err("conflict").message,
        "--report-file cannot be used with --no-save-report"
    );
    arguments.no_save_report = false;
    assert_eq!(
        reduction_request("/project", &arguments).expect_err("same tool").message,
        "baseline and candidate must be different tools"
    );
    let mut arguments = reduce_args(ReduceModeArg::Lint, Tool::Eslint, Tool::Biome);
    arguments.timeout = Some(0);
    assert_eq!(
        reduction_request("/project", &arguments).expect_err("timeout").message,
        "timeout must be greater than zero seconds"
    );
    let arguments = reduce_args(ReduceModeArg::Lint, Tool::Eslint, Tool::Prettier);
    assert_eq!(
        reduction_request("/project", &arguments).expect_err("formatter in lint mode").message,
        "lint reduction supports eslint, biome, and oxlint"
    );
    let arguments = reduce_args(ReduceModeArg::Format, Tool::Prettier, Tool::Eslint);
    assert_eq!(
        reduction_request("/project", &arguments).expect_err("linter in format mode").message,
        "format reduction supports prettier, biome, and oxfmt"
    );
}

#[test]
fn reduction_request_places_paths_under_the_root() {
    let mut arguments = reduce_args(ReduceModeArg::Format, Tool::Prettier, Tool::Biome);
    arguments.output = Some("out/min.ts".into());
    arguments.timeout = Some(7);
    arguments.mismatch = 2;
    let request = reduction_request("/project", &arguments).expect("valid request");
    assert_eq!(request.mode, ReduceMode::Format);
    assert_eq!(request.input, "/project/case.ts");
    assert_eq!(request.output.as_deref(), Some("/project/out/min.ts"));
    assert_eq!(request.mismatch, 2);
    assert_eq!(request.timeout_seconds, Some(7));
}

#[test]
fn plan_mappings_are_seen_from_the_baseline_sorted_and_unique() {
    let mut config = Config::default();
    config.matching.rules = vec![
        RuleMappingConfig {
            baseline_tool: Tool::Biome,
            baseline: "lint/x/zeta".into(),
            candidate_tool: Tool::Eslint,
            candidate: "zeta".into(),
            confidence: MappingConfidence::Approximate,
            notes: None,
        },
        RuleMappingConfig {
            baseline_tool: Tool::Eslint,
            baseline: "alpha".into(),
            candidate_tool: Tool::Biome,
            candidate: "lint/x/alpha".into(),
            confidence: MappingConfidence::Exact,
            notes: None,
        },
        RuleMappingConfig {
            baseline_tool: Tool::Eslint,
            baseline: "alpha".into(),
            candidate_tool: Tool::Oxlint,
            candidate: "alpha".into(),
            confidence: MappingConfidence::Exact,
            notes: None,
        },
    ];
    config.matching.aliases = vec![AliasConfig {
        eslint: Some("beta".into()),
        biome: Some("lint/x/beta".into()),
        oxlint: None,
    }];
    let mappings = configured_plan_mappings(&config, Tool::Eslint, Tool::Biome);
    let views: Vec<(&str, &str, MappingConfidence, Option<&str>)> = mappings
        .iter()
        .map(|m| (m.baseline.as_str(), m.candidate.as_str(), m.confidence, m.notes.as_deref()))
        .collect();
    assert_eq!(
        views,
        vec![
            ("alpha", "lint/x/alpha", MappingConfidence::Exact, None),
            ("beta", "lint/x/beta", MappingConfidence::Exact, Some("converted from deprecated matching.aliases")),
            ("zeta", "lint/x/zeta", MappingConfidence::Approximate, None),
        ]
    );
    assert!(mappings.iter().all(|m| m.baseline_tool == Tool::Eslint && m.candidate_tool == Tool::Biome));
}

#[test]
fn availability_reports_the_executable_or_the_reason() {
    let found = availability(Tool::Eslint, Ok(resolved(Tool::Eslint, "/bin/eslint", false)));
    assert!(found.available);
    assert_eq!(found.executable.as_deref(), Some("/bin/eslint"));
    assert_eq!(found.reason, None);
    let missing = availability(
        Tool::Biome,
        Err(ToolFailure::NotFound { tool: "Biome".into(), config_key: "biome".into(), checked: "  PATH".into() }),
    );
    assert!(!missing.available);
    assert_eq!(missing.executable, None);
    assert_eq!(
        missing.reason.as_deref(),
        Some("Biome was not found.\n\nChecked:\n  PATH\n\nInstall it in the target project or configure tools.biome.command\nin concord.toml.")
    );
}

#[test]
fn doctor_lists_tools_and_fails_only_for_configured_ones() {
    let config = Config::default();
    let probes = vec![
        (Tool::Eslint, ToolProbe::Resolved(resolved(Tool::Eslint, "/p/eslint", false), Ok("v9.1.0\nextra".into()))),
        (
            Tool::Biome,
            ToolProbe::Missing(ToolFailure::NotFound { tool: "Biome".into(), config_key: "biome".into(), checked: "  PATH".into() }),
        ),
    ];
    let (text, outcome) = doctor("/p", None, &config, &probes);
    assert_eq!(
        text,
        "Concord doctor\n\nProject root  /p\nConfiguration <not found; using defaults>\n\nTools\n  ESLint    found    /p/eslint (v9.1.0)\n  Biome     missing\n"
    );
    assert_eq!(outcome.expect("clean"), Outcome::Clean);

    let mut configured = Config::default();
    configured.tools.biome.command = Some("biome".into());
    let (text, outcome) = doctor("/p", Some("/p/concord.toml"), &configured, &probes);
    assert!(text.contains("Configuration /p/concord.toml\n"));
    assert!(text.contains("  Biome     missing\n    Biome was not found."));
    let error = outcome.expect_err("configured tool missing");
    assert_eq!(error.kind, ErrorKind::Operational);
    assert_eq!(error.message, "one or more explicitly configured tools are unavailable");
}

#[test]
fn doctor_reports_an_unusable_explicit_tool() {
    let probes = vec![(
        Tool::Oxfmt,
        ToolProbe::Resolved(
            resolved(Tool::Oxfmt, "/x/oxfmt", true),
            Err(ToolFailure::Timeout { tool: "Oxfmt".into(), seconds: 3, executable: "/x/oxfmt".into(), arguments: "--version".into() }),
        ),
    )];
    let (text, outcome) = doctor("/x", None, &Config::default(), &probes);
    assert!(text.ends_with("  Oxfmt     unusable /x/oxfmt (Oxfmt timed out after 3s\ncommand: /x/oxfmt --version)\n"));
    assert!(outcome.is_err());
}

#[test]
fn resolution_takes_the_first_place_that_found_the_tool() {
    let lookups = vec![
        (Lookup::File("/p/node_modules/.bin/eslint".into()), "/p/node_modules/.bin/eslint".to_owned()),
        (Lookup::Search("eslint".into()), "PATH".to_owned()),
    ];
    let local = resolve_found(Tool::Eslint, &lookups, false, &vec![Some("/p/node_modules/.bin/eslint".into()), Some("/usr/bin/eslint".into())])
        .expect("local");
    assert_eq!(local.executable, "/p/node_modules/.bin/eslint");
    assert_eq!(local.checked, vec!["/p/node_modules/.bin/eslint".to_owned()]);
    let global = resolve_found(Tool::Eslint, &lookups, false, &vec![None, Some("/usr/bin/eslint".into())]).expect("PATH");
    assert_eq!(global.executable, "/usr/bin/eslint");
    assert_eq!(global.checked.len(), 2);
    let missing = resolve_found(Tool::Eslint, &lookups, false, &vec![None, None]).expect_err("missing");
    assert_eq!(
        missing.message(),
        "ESLint was not found.\n\nChecked:\n  /p/node_modules/.bin/eslint\n  PATH\n\nInstall it in the target project or configure tools.eslint.command\nin concord.toml."
    );
}

#[test]
fn version_comes_from_stdout_then_stderr() {
    let tool = resolved(Tool::Prettier, "/bin/prettier", false);
    assert_eq!(reported_version(&tool, &output(Some(0), b"  3.3.3\n", b"")).expect("stdout"), "3.3.3");
    assert_eq!(reported_version(&tool, &output(Some(0), b"", b" 1.0 \n")).expect("stderr"), "1.0");
    assert_eq!(reported_version(&tool, &output(Some(0), b"", b"")).expect("nothing"), "unknown");
    let failure = reported_version(&tool, &output(Some(2), b"", b"boom")).expect_err("exit");
    assert_eq!(failure.message(), "Prettier failed\ncommand: /bin/prettier --version\nexit code: Some(2)\nstderr: boom");
}

#[test]
fn tool_names_parse_without_case() {
    assert_eq!(Tool::from_name("ESLint"), Ok(Tool::Eslint));
    assert_eq!("oxfmt".parse::<Tool>(), Ok(Tool::Oxfmt));
    assert_eq!(Tool::from_name("jshint"), Err("unknown tool `jshint`".to_owned()));
}
