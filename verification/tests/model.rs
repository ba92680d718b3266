use concord::model::{normalize_path, path_from_report, Diagnostic, DiagnosticData, Severity, Span, Tool};
use sha2::Digest;

#[test]
fn path_is_relative_and_clean() {
    assert_eq!(normalize_path("/project", "/project/src/./nested/../app.ts"), "src/app.ts");
}

#[test]
fn paths_outside_the_root_lose_their_root_and_the_root_is_a_dot() {
    assert_eq!(normalize_path("/project", "/elsewhere/x.ts"), "elsewhere/x.ts");
    assert_eq!(normalize_path("/project", "/project"), ".");
    assert_eq!(normalize_path("/project", "src/a.ts"), "src/a.ts");
    assert_eq!(path_from_report("/project", "src/a.ts"), "/project/src/a.ts");
}

#[test]
fn fingerprint_is_the_sha256_of_the_identity() {
    let span = Span { start_line: 3, start_column: 5, end_line: Some(3), end_column: None };
    let diagnostic = Diagnostic::new(
        Tool::Eslint,
        "a.ts",
        DiagnosticData {
            code: Some("no-debugger".into()),
            canonical_code: Some("no-debugger".into()),
            severity: Severity::Error,
            message: "Unexpected 'debugger' statement.".into(),
            span: Some(span),
            fix: None,
        },
    );
    let material = "Eslint\0a.ts\0Some(\"no-debugger\")\0Error\0Unexpected 'debugger' statement.\0Some(Span { start_line: 3, start_column: 5, end_line: Some(3), end_column: None })";
    let expected = format!("{:x}", sha2::Sha256::digest(material.as_bytes()));
    assert_eq!(diagnostic.fingerprint, expected);
    assert_eq!(diagnostic.fingerprint.len(), 64);
}

#[test]
fn tools_have_names_and_roles() {
    assert_eq!(Tool::Oxfmt.display_name(), "Oxfmt");
    assert_eq!(Tool::Prettier.config_key(), "prettier");
    assert!(Tool::Biome.is_linter() && Tool::Biome.is_formatter());
    assert!(!Tool::Oxfmt.is_linter());
}

#[test]
fn normalizing_a_report_path_again_changes_nothing() {
    for input in ["/project/src/./nested/../app.ts", "../outside/x.ts", "/project", "a/../../b", "/elsewhere/x.ts"] {
        let once = normalize_path("/project", input);
        assert_eq!(normalize_path("/project", &once), once);
    }
}

#[test]
fn report_paths_lead_back_to_the_file() {
    let file = "/project/src/nested/app.ts";
    let report = normalize_path("/project", file);
    assert_eq!(report, "src/nested/app.ts");
    assert_eq!(path_from_report("/project", &report), file);
    assert_eq!(path_from_report("/project/", &normalize_path("/project/", "/project/a.ts")), "/project/a.ts");
}

#[test]
fn fingerprints_are_lower_case_hex_and_ignore_raw_rule_and_fix() {
    let make = |code: &str| {
        Diagnostic::new(
            Tool::Eslint,
            "src/a.ts",
            DiagnosticData {
                code: Some(code.to_owned()),
                canonical_code: Some("no-debugger".to_owned()),
                severity: Severity::Error,
                message: "Unexpected debugger".to_owned(),
                span: None,
                fix: None,
            },
        )
    };
    let first = make("no-debugger");
    let second = make("eslint(no-debugger)");
    assert_eq!(first.fingerprint.len(), 64);
    assert!(first.fingerprint.chars().all(|c| c.is_ascii_digit() || ('a'..='f').contains(&c)));
    assert_eq!(first.fingerprint, second.fingerprint);
}
