use concord::config::Config;
use concord::error::{ConcordError, ErrorKind, ToolFailure};
use concord::json::{get_str, get_u32, JsonValue};
use concord::model::{Severity, Tool};
use concord::process::{display_arguments, truncate, Lookup, ProcessRunner};

#[test]
fn lookups_prefer_the_project_then_path() {
    let runner = ProcessRunner::new("/p".into(), Config::default(), None);
    let (lookups, explicit) = runner.lookups(Tool::Eslint);
    assert!(!explicit);
    assert_eq!(
        lookups,
        vec![
            (Lookup::File("/p/node_modules/.bin/eslint".into()), "/p/node_modules/.bin/eslint".to_owned()),
            (Lookup::Search("eslint".into()), "PATH".to_owned()),
        ]
    );
    assert_eq!(runner.timeout_seconds(), Config::default().execution.timeout_seconds);
}

#[test]
fn configured_commands_come_first() {
    let mut config = Config::default();
    config.tools.biome.command = Some("tools/biome".into());
    config.tools.oxlint.command = Some("oxlint-nightly".into());
    let runner = ProcessRunner::new("/p".into(), config, Some(9));
    assert_eq!(runner.timeout_seconds(), 9);
    let (biome, explicit) = runner.lookups(Tool::Biome);
    assert!(explicit);
    assert_eq!(biome, vec![(Lookup::File("/p/tools/biome".into()), "/p/tools/biome".to_owned())]);
    let (oxlint, _) = runner.lookups(Tool::Oxlint);
    assert_eq!(oxlint, vec![(Lookup::Search("oxlint-nightly".into()), "PATH (oxlint-nightly)".to_owned())]);
}

#[test]
fn arguments_with_spaces_are_quoted_for_display() {
    let arguments = vec!["--stdin-filepath".to_owned(), "source with spaces/case file.ts".to_owned()];
    assert_eq!(display_arguments(&arguments), "--stdin-filepath \"source with spaces/case file.ts\"");
    assert_eq!(display_arguments(&vec!["a\"b c".to_owned()]), "\"a\\\"b c\"");
}

#[test]
fn long_output_is_truncated_with_a_note() {
    assert_eq!(truncate("short", 10), "short");
    assert_eq!(truncate("abcdef", 3), "abc\n… output truncated");
}

#[test]
fn failures_read_as_messages() {
    let spawn = ToolFailure::Spawn {
        tool: "ESLint".into(),
        executable: "/bin/eslint".into(),
        arguments: "--format json".into(),
        source: "No such file".into(),
    };
    assert_eq!(spawn.message(), "failed to start ESLint\ncommand: /bin/eslint --format json\nerror: No such file");
    let error: ConcordError = spawn.into_error();
    assert_eq!(error.kind, ErrorKind::Operational);
    let io = ConcordError::io("failed to read source file", "/p/a.ts", "denied");
    assert_eq!(io.message, "failed to read source file\npath: /p/a.ts\nerror: denied");
}

#[test]
fn json_values_are_read_by_key() {
    let value = JsonValue::Object(vec![
        ("ruleId".into(), JsonValue::String("no-debugger".into())),
        ("line".into(), JsonValue::Number(Some(7))),
        ("big".into(), JsonValue::Number(Some(u64::MAX))),
        ("severity".into(), JsonValue::Number(Some(1))),
    ]);
    assert_eq!(get_str(&value, "ruleId"), Some("no-debugger"));
    assert_eq!(get_u32(&value, "line"), Some(7));
    assert_eq!(get_u32(&value, "big"), None);
    assert_eq!(get_str(&value, "missing"), None);
    assert_eq!(Severity::from_value(value.get("severity").expect("severity")), Severity::Warning);
    assert_eq!(Severity::from_value(&JsonValue::String("ERROR".into())), Severity::Error);
}
