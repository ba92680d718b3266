use concord::adapters::{lint_arguments, lint_invocation, run_linter, LintExecution};
use concord::matching::AliasTable;
use concord::error::{ErrorKind, ToolFailure};
use concord::model::Tool;
use concord::process::{ProcessOutput, ResolvedTool};

fn resolved(tool: Tool) -> ResolvedTool {
    ResolvedTool { tool, executable: "/bin/lint".into(), checked: Vec::new(), explicitly_configured: false }
}


fn execution(exit_code: Option<i32>, stdout: &[u8]) -> LintExecution {
    LintExecution {
        resolved: Ok(resolved(Tool::Eslint)),
        version: Ok("v9.0.0".into()),
        output: Ok(ProcessOutput { exit_code, duration_ms: 30, stdout: stdout.to_vec(), stderr: b"note".to_vec() }),
        sources: Vec::new(),
    }
}

const TWO_FINDINGS: &[u8] = br#"[{"filePath": "/p/a.ts", "messages": [
  {"ruleId": "no-debugger", "severity": 2, "message": "debugger", "line": 9, "column": 1},
  {"ruleId": "no-debugger", "severity": 2, "message": "debugger", "line": 2, "column": 1}
]}]"#;

#[test]
fn lint_arguments_name_files_under_the_root() {
    let files = vec!["/p/src/a.ts".to_owned(), "/elsewhere/b.ts".to_owned()];
    assert_eq!(lint_arguments(Tool::Eslint, "/p", &files), ["--format", "json", "src/a.ts", "/elsewhere/b.ts"]);
    assert_eq!(lint_invocation(Tool::Eslint, "/p", &Vec::new()), None);
    assert_eq!(lint_invocation(Tool::Prettier, "/p", &files), None);
}

#[test]
fn no_files_means_no_run() {
    let run = run_linter(Tool::Oxlint, "/p", &Vec::new(), &AliasTable::default(), None).expect("empty run");
    assert_eq!(run.executable, "oxlint");
    assert_eq!(run.version, "not executed (no comparable files)");
    assert!(run.diagnostics.is_empty());
    let error = run_linter(Tool::Prettier, "/p", &Vec::new(), &AliasTable::default(), None).expect_err("not a linter");
    assert_eq!(error.kind, ErrorKind::Usage);
    assert_eq!(error.message, "Prettier is not a supported linter");
}

#[test]
fn a_successful_run_keeps_sorted_diagnostics() {
    let files = vec!["/p/a.ts".to_owned()];
    let run = run_linter(Tool::Eslint, "/p", &files, &AliasTable::default(), Some(execution(Some(1), TWO_FINDINGS))).expect("run");
    assert_eq!(run.version, "v9.0.0");
    assert_eq!(run.arguments, ["--format", "json", "a.ts"]);
    assert_eq!(run.exit_code, Some(1));
    assert_eq!(run.stdout.as_bytes(), TWO_FINDINGS);
    assert_eq!(run.diagnostics[0].path, "a.ts");
    assert_eq!(run.stderr, "note");
    let lines: Vec<u32> = run.diagnostics.iter().map(|d| d.span.map_or(0, |s| s.start_line)).collect();
    assert_eq!(lines, vec![2, 9]);
}

#[test]
fn failed_lint_runs_are_operational_errors() {
    let files = vec!["/p/a.ts".to_owned()];
    let crashed = run_linter(Tool::Eslint, "/p", &files, &AliasTable::default(), Some(execution(Some(2), b"")))
        .expect_err("exit 2");
    assert_eq!(crashed.kind, ErrorKind::Operational);
    assert_eq!(crashed.message, "ESLint failed\ncommand: /bin/lint --format json a.ts\nexit code: Some(2)\nstderr: note");
    let blank = run_linter(Tool::Eslint, "/p", &files, &AliasTable::default(), Some(execution(Some(1), b"  ")))
        .expect_err("exit 1 without output");
    assert!(blank.message.starts_with("ESLint failed"));
    let garbled = run_linter(Tool::Eslint, "/p", &files, &AliasTable::default(), Some(execution(Some(0), b"[")))
        .expect_err("invalid JSON");
    assert!(garbled
        .message
        .starts_with("failed to parse ESLint JSON output\ncommand: /bin/lint --format json a.ts\nexit code: Some(0)\nstderr: note\nerror: EOF while parsing"));
    let missing = LintExecution {
        resolved: Err(ToolFailure::NotFound { tool: "ESLint".into(), config_key: "eslint".into(), checked: "  PATH".into() }),
        version: Ok(String::new()),
        output: Ok(ProcessOutput { exit_code: None, duration_ms: 0, stdout: Vec::new(), stderr: Vec::new() }),
        sources: Vec::new(),
    };
    let error = run_linter(Tool::Eslint, "/p", &files, &AliasTable::default(), Some(missing)).expect_err("missing tool");
    assert!(error.message.starts_with("ESLint was not found."));
}
