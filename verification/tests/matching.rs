use concord::config::{AliasConfig, RuleMappingConfig};
use concord::matching::{canonical_base, compare_with_mappings, AliasTable, MappingConfidence, MatchKind, RuleMappingTable};
use concord::model::{Diagnostic, DiagnosticData, Severity, Span, Tool};

fn diagnostic(tool: Tool, code: Option<&str>, line: u32) -> Diagnostic {
    let aliases = AliasTable::default();
    Diagnostic::new(
        tool,
        "src/app.ts",
        DiagnosticData {
            code: code.map(str::to_owned),
            canonical_code: code.map(|value| aliases.canonicalize(value)),
            severity: Severity::Error,
            message: "message".into(),
            span: Some(Span { start_line: line, start_column: 1, end_line: Some(line), end_column: Some(2) }),
            fix: None,
        },
    )
}

fn mapping(confidence: MappingConfidence) -> RuleMappingConfig {
    RuleMappingConfig {
        baseline_tool: Tool::Eslint,
        baseline: "custom-eslint".into(),
        candidate_tool: Tool::Biome,
        candidate: "lint/custom/customBiome".into(),
        confidence,
        notes: None,
    }
}

#[test]
fn canonicalizes_namespaces_and_case() {
    assert_eq!(canonical_base("lint/suspicious/noDebugger"), "no-debugger");
    assert_eq!(canonical_base("eslint/no_debugger"), "no-debugger");
    assert_eq!(canonical_base("eslint(noDebugger)"), "no-debugger");
}

#[test]
fn explicit_mapping_is_symmetric() {
    let table = RuleMappingTable::new(&vec![mapping(MappingConfidence::Exact)], &Vec::new());
    let baseline = diagnostic(Tool::Biome, Some("lint/custom/customBiome"), 2);
    let candidate = diagnostic(Tool::Eslint, Some("custom-eslint"), 2);
    assert_eq!(table.confidence_between(&baseline, &candidate), Some(MappingConfidence::Exact));
}

#[test]
fn approximate_mapping_never_becomes_exact() {
    let table = RuleMappingTable::new(&vec![mapping(MappingConfidence::Approximate)], &Vec::new());
    let result = compare_with_mappings(
        vec![diagnostic(Tool::Eslint, Some("custom-eslint"), 2)],
        vec![diagnostic(Tool::Biome, Some("lint/custom/customBiome"), 2)],
        &table,
        Tool::Eslint,
        Tool::Biome,
    );
    assert_eq!(result.matches[0].kind, MatchKind::ApproximateRuleMatch);
    assert_eq!(result.matches[0].mapping_confidence, Some(MappingConfidence::Approximate));
}

#[test]
fn unmapped_is_separate_from_mapped_baseline_only() {
    let table = RuleMappingTable::new(&vec![mapping(MappingConfidence::Exact)], &Vec::new());
    let result = compare_with_mappings(
        vec![diagnostic(Tool::Eslint, Some("custom-eslint"), 2), diagnostic(Tool::Eslint, Some("unknown-rule"), 3)],
        Vec::new(),
        &table,
        Tool::Eslint,
        Tool::Biome,
    );
    assert_eq!(result.baseline_only.len(), 1);
    assert_eq!(result.unmapped_baseline.len(), 1);
}

#[test]
fn built_in_exact_match_is_found() {
    let result = compare_with_mappings(
        vec![diagnostic(Tool::Eslint, Some("no-debugger"), 2)],
        vec![diagnostic(Tool::Biome, Some("lint/suspicious/noDebugger"), 2)],
        &RuleMappingTable::default(),
        Tool::Eslint,
        Tool::Biome,
    );
    assert_eq!(result.matches[0].kind, MatchKind::ExactMatch);
}

#[test]
fn three_tool_alias_expands_to_deterministic_exact_pairs() {
    let aliases = vec![AliasConfig {
        eslint: Some("eslint-rule".into()),
        biome: Some("lint/custom/biomeRule".into()),
        oxlint: Some("plugin/oxlint-rule".into()),
    }];
    let table = RuleMappingTable::new(&Vec::new(), &aliases);
    for pair in [(Tool::Eslint, Tool::Biome), (Tool::Eslint, Tool::Oxlint), (Tool::Biome, Tool::Oxlint)] {
        assert_eq!(table.configured_counts(pair.0, pair.1), (1, 0));
    }
}

#[test]
fn an_explicit_mapping_decides_even_between_equal_names() {
    let approximate = RuleMappingConfig {
        baseline_tool: Tool::Eslint,
        baseline: "no-debugger".into(),
        candidate_tool: Tool::Biome,
        candidate: "lint/suspicious/noDebugger".into(),
        confidence: MappingConfidence::Approximate,
        notes: None,
    };
    let table = RuleMappingTable::new(&vec![approximate], &Vec::new());
    let eslint = diagnostic(Tool::Eslint, Some("no-debugger"), 1);
    let biome = diagnostic(Tool::Biome, Some("lint/suspicious/noDebugger"), 1);
    assert_eq!(table.confidence_between(&eslint, &biome), Some(MappingConfidence::Approximate));
    assert_eq!(table.confidence_between(&biome, &eslint), Some(MappingConfidence::Approximate));
    let unnamed = diagnostic(Tool::Biome, None, 1);
    assert_eq!(table.confidence_between(&eslint, &unnamed), None);
    let plain = RuleMappingTable::default();
    assert_eq!(plain.confidence_between(&eslint, &biome), Some(MappingConfidence::Exact));
    let other = diagnostic(Tool::Biome, Some("lint/style/useConst"), 1);
    assert_eq!(plain.confidence_between(&eslint, &other), None);
}
