use concord::config::{
    check_settings, config_warnings, existing_configuration, invalid_configuration, validate_rule_mappings,
    AliasConfig, Config, LoadedConfig, RuleMappingConfig,
};
use concord::error::ErrorKind;
use concord::matching::MappingConfidence;
use concord::model::Tool;

fn rule(baseline_tool: Tool, baseline: &str, candidate_tool: Tool, candidate: &str) -> RuleMappingConfig {
    RuleMappingConfig {
        baseline_tool,
        baseline: baseline.into(),
        candidate_tool,
        candidate: candidate.into(),
        confidence: MappingConfidence::Exact,
        notes: None,
    }
}

#[test]
fn default_config_is_version_one_with_positive_limits() {
    let config = Config::default();
    assert_eq!(config.version, 1);
    assert!(config.execution.timeout_seconds > 0);
    assert!(config.execution.formatter_jobs > 0);
    assert!(check_settings(&config).is_ok());
    assert!(LoadedConfig::new(config, "/p".into(), Some("/p/concord.toml".into())).is_ok());
}

#[test]
fn settings_are_checked_in_order() {
    let mut config = Config::default();
    config.version = 2;
    config.execution.timeout_seconds = 0;
    assert_eq!(check_settings(&config).expect_err("version").message, "unsupported concord.toml version 2; expected version 1");
    config.version = 1;
    assert_eq!(
        check_settings(&config).expect_err("timeout").message,
        "execution.timeout_seconds must be greater than zero"
    );
    config.execution.timeout_seconds = 30;
    config.execution.formatter_jobs = 0;
    assert_eq!(
        check_settings(&config).expect_err("jobs").message,
        "execution.formatter_jobs must be greater than zero"
    );
}

#[test]
fn settings_are_not_checked_without_a_file() {
    let mut config = Config::default();
    config.version = 7;
    assert!(LoadedConfig::new(config.clone(), "/p".into(), None).is_ok());
    let error = LoadedConfig::new(config, "/p".into(), Some("/p/concord.toml".into())).expect_err("version");
    assert_eq!(error.kind, ErrorKind::Usage);
}

#[test]
fn invalid_tool_glob_is_a_clear_configuration_error() {
    let mut config = Config::default();
    config.tools.biome.exclude = vec!["[invalid".into()];
    let error = LoadedConfig::new(config, "/p".into(), Some("/p/concord.toml".into())).expect_err("invalid glob");
    assert!(error.message.contains("tools.biome.exclude"));
    assert!(error.message.contains("[invalid"));
}

#[test]
fn alias_deprecation_warning_is_stable() {
    let mut config = Config::default();
    config.matching.aliases = vec![AliasConfig {
        eslint: Some("no-debugger".into()),
        biome: Some("lint/suspicious/noDebugger".into()),
        oxlint: None,
    }];
    assert_eq!(config_warnings(&config), ["matching.aliases is deprecated; use matching.rules"]);
    let loaded = LoadedConfig::new(config, "/p".into(), Some("/p/concord.toml".into())).expect("loaded config");
    assert_eq!(loaded.warnings, ["matching.aliases is deprecated; use matching.rules"]);
    assert_eq!(loaded.root, "/p");
}

#[test]
fn duplicate_and_conflicting_rule_mappings_are_rejected() {
    let mut config = Config::default();
    config.matching.rules = vec![rule(Tool::Eslint, "a", Tool::Biome, "b"), rule(Tool::Biome, "b", Tool::Eslint, "a")];
    assert!(validate_rule_mappings(&config).expect_err("duplicate").message.contains("duplicate"));

    config.matching.rules = vec![rule(Tool::Eslint, "a", Tool::Biome, "b"), rule(Tool::Biome, "other", Tool::Eslint, "a")];
    assert!(validate_rule_mappings(&config).expect_err("conflict").message.contains("conflicting"));
}

#[test]
fn rule_mappings_need_two_distinct_linters_and_codes() {
    let mut config = Config::default();
    config.matching.rules = vec![rule(Tool::Eslint, "a", Tool::Eslint, "b")];
    assert_eq!(
        validate_rule_mappings(&config).expect_err("self").message,
        "matching.rules cannot map a tool to itself"
    );
    config.matching.rules = vec![rule(Tool::Eslint, "a", Tool::Prettier, "b")];
    assert_eq!(
        validate_rule_mappings(&config).expect_err("formatter").message,
        "matching.rules only supports eslint, biome, and oxlint"
    );
    config.matching.rules = vec![rule(Tool::Eslint, "  ", Tool::Biome, "b")];
    assert_eq!(
        validate_rule_mappings(&config).expect_err("empty").message,
        "matching.rules rule codes must not be empty"
    );
    config.matching.rules = vec![rule(Tool::Eslint, "a", Tool::Biome, "b"), rule(Tool::Eslint, "c", Tool::Oxlint, "d")];
    assert!(validate_rule_mappings(&config).is_ok());
}

#[test]
fn configuration_errors_say_where() {
    let error = invalid_configuration("/p/concord.toml", "unknown field `mystery`");
    assert_eq!(error.kind, ErrorKind::Usage);
    assert_eq!(error.message, "invalid Concord configuration\npath: /p/concord.toml\nerror: unknown field `mystery`");
    assert_eq!(
        existing_configuration("/p/concord.toml").message,
        "/p/concord.toml already exists; use --force to overwrite it"
    );
}
