use concord::adapters::{biome_lint, eslint, lint_arguments, oxfmt, oxlint, ParsedDiagnostics};
use concord::matching::AliasTable;
use concord::model::{Severity, Tool};

fn parse_biome(source: &str) -> Result<ParsedDiagnostics, String> {
    biome_lint::parse(source, "/project", &AliasTable::default())
}

const BIOME_JSON: &str = r#"{
  "summary": {"changed": 0, "unchanged": 1, "errors": 1, "warnings": 0},
  "diagnostics": [
    {
      "category": "lint/suspicious/noDebugger",
      "severity": "error",
      "description": "This is an unexpected use of the debugger statement.",
      "message": [{"elements": [], "content": "This is an unexpected use of the "}, {"elements": ["Emphasis"], "content": "debugger"}, {"elements": [], "content": " statement."}],
      "location": {
        "path": {"file": "/project/src/app.ts"},
        "span": [13, 22],
        "sourceCode": "const x = 1;\ndebugger;\n"
      },
      "tags": ["fixable"],
      "source": null
    }
  ],
  "command": "lint"
}"#;

const BIOME_RDJSON: &str = r#"{
  "source": {"name": "Biome", "url": "https://biomejs.dev"},
  "diagnostics": [
    {
      "code": {"url": "https://biomejs.dev/linter/rules/no-console", "value": "lint/suspicious/noConsole"},
      "location": {
        "path": "src/app.ts",
        "range": {"end": {"column": 13, "line": 3}, "start": {"column": 2, "line": 3}}
      },
      "message": "Don't use console."
    }
  ]
}"#;

const ESLINT_JSON: &str = r#"[
  {
    "filePath": "/project/src/app.ts",
    "messages": [
      {"ruleId": "no-debugger", "severity": 2, "message": "Unexpected 'debugger' statement.", "line": 2, "column": 1, "nodeType": "DebuggerStatement", "messageId": "unexpected", "endLine": 2, "endColumn": 10, "fix": {"range": [13, 22], "text": ""}},
      {"ruleId": "no-unused-vars", "severity": 1, "message": "'x' is assigned a value but never used.", "line": 1, "column": 7, "nodeType": "Identifier", "messageId": "unusedVar", "endLine": 1, "endColumn": 8}
    ],
    "errorCount": 1,
    "warningCount": 1,
    "fixableErrorCount": 1,
    "fixableWarningCount": 0,
    "source": "const x = 1;\ndebugger;\n"
  }
]"#;

const OXLINT_JSON: &str = r#"{
  "diagnostics": [
    {
      "message": "`debugger` statement is not allowed",
      "code": "eslint(no-debugger)",
      "severity": "error",
      "causes": [],
      "url": "https://oxc.rs/docs/guide/usage/linter/rules/eslint/no-debugger.html",
      "help": "Remove the debugger statement",
      "filename": "src/app.ts",
      "labels": [{"span": {"offset": 13, "length": 9, "line": 2, "column": 1}}],
      "related": []
    }
  ],
  "number_of_files": 1,
  "number_of_rules": 100,
  "threads_count": 1,
  "start_time": 0.01
}"#;

#[test]
fn parses_biome_json_fixture() {
    let parsed = parse_biome(BIOME_JSON).expect("Biome JSON");
    assert_eq!(parsed.diagnostics.len(), 1);
    assert_eq!(parsed.diagnostics[0].canonical_code.as_deref(), Some("no-debugger"));
    assert_eq!(parsed.diagnostics[0].span.as_ref().map(|span| span.start_line), Some(2));
}

#[test]
fn parses_biome_rdjson_fixture() {
    let parsed = parse_biome(BIOME_RDJSON).expect("Biome RDJSON");
    assert_eq!(parsed.diagnostics.len(), 1);
    assert_eq!(parsed.diagnostics[0].canonical_code.as_deref(), Some("no-console"));
    let span = parsed.diagnostics[0].span.as_ref().expect("span");
    assert_eq!((span.start_line, span.start_column), (4, 3));
}

#[test]
fn parses_eslint_fixture() {
    let parsed = eslint::parse(ESLINT_JSON, "/project", &AliasTable::default())
        .expect("ESLint JSON");
    assert_eq!(parsed.diagnostics.len(), 2);
    assert_eq!(parsed.diagnostics[0].canonical_code.as_deref(), Some("no-debugger"));
    assert_eq!(parsed.diagnostics[0].severity, Severity::Error);
    assert!(parsed.diagnostics[0].fix.is_some());
}

#[test]
fn parses_oxlint_fixture() {
    let parsed = oxlint::parse(OXLINT_JSON, "/project", &AliasTable::default(), &Vec::new())
        .expect("Oxlint JSON");
    assert_eq!(parsed.diagnostics.len(), 1);
    assert_eq!(parsed.diagnostics[0].canonical_code.as_deref(), Some("no-debugger"));
    assert_eq!(parsed.diagnostics[0].span.as_ref().map(|span| span.start_line), Some(2));
}

#[test]
fn only_known_oxfmt_failure_is_unsupported() {
    assert!(oxfmt::runtime_unsupported_reason(
        "oxfmt 0.60.0",
        "package-lock.json",
        b"No parser could be inferred for file package-lock.json",
    )
    .is_some());
    assert!(oxfmt::runtime_unsupported_reason("oxfmt 0.60.0", "package-lock.json", b"unexpected unsupported crash").is_none());
}

#[test]
fn biome_uses_structured_json_without_diagnostic_limit() {
    let arguments = lint_arguments(Tool::Biome, "/project", &Vec::new());
    assert!(arguments.iter().any(|argument| argument == "--reporter=json"));
    assert!(arguments.iter().any(|argument| argument == "--max-diagnostics=none"));
    assert!(arguments.iter().all(|argument| argument != "--reporter=rdjson"));
}

#[test]
fn unreadable_reports_are_errors_and_blank_ones_warnings() {
    let aliases = AliasTable::default();
    assert!(eslint::parse("[{\"filePath\": 1", "/project", &aliases).is_err());
    assert_eq!(
        eslint::parse("[{\"filePath\": \"/project/a.ts\"}]", "/project", &aliases).expect_err("no messages"),
        "ESLint result is missing `messages`"
    );
    assert!(oxlint::parse("{", "/project", &aliases, &Vec::new()).is_err());
    assert!(biome_lint::parse("{\n}\nnot json", "/project", &aliases).is_err());
    let blank = biome_lint::parse("  \n", "/project", &aliases).expect("blank");
    assert!(blank.diagnostics.is_empty());
    assert_eq!(blank.warnings, vec!["Biome produced empty JSON output".to_owned()]);
}

#[test]
fn biome_documents_fall_back_to_one_per_line() {
    let whole = biome_lint::parse_documents("{\"a\": 1}").expect("one document");
    assert_eq!(whole.len(), 1);
    let lines = biome_lint::parse_documents("{\"a\": 1}\n\n{\"b\": 2}\n").expect("two lines");
    assert_eq!(lines.len(), 2);
    assert!(biome_lint::parse_documents("{\"a\": 1}\nnope\n").is_err());
}

#[test]
fn oxlint_reports_name_the_files_to_read() {
    assert!(oxlint::reported_paths("", "/project").is_empty());
    assert!(oxlint::reported_paths("{", "/project").is_empty());
}
