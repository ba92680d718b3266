use concord::matching::{
    canonical_base, compare, compare_with_mappings, observed_rule_ids, sort_diagnostics, AliasTable, MappingConfidence,
    MatchKind, RuleMappingTable,
};
use concord::model::{Diagnostic, DiagnosticData, Severity, Span, Tool};

fn at(tool: Tool, path: &str, code: &str, line: u32) -> Diagnostic {
    let aliases = AliasTable::default();
    Diagnostic::new(
        tool,
        path,
        DiagnosticData {
            code: Some(code.into()),
            canonical_code: Some(aliases.canonicalize(code)),
            severity: Severity::Error,
            message: "m".into(),
            span: Some(Span { start_line: line, start_column: 1, end_line: None, end_column: None }),
            fix: None,
        },
    )
}

#[test]
fn every_diagnostic_lands_in_exactly_one_list() {
    let baseline = vec![
        at(Tool::Eslint, "a.ts", "no-debugger", 1),
        at(Tool::Eslint, "a.ts", "no-console", 2),
        at(Tool::Eslint, "a.ts", "my-plugin/custom", 3),
        at(Tool::Eslint, "b.ts", "no-debugger", 1),
    ];
    let candidate = vec![
        at(Tool::Biome, "a.ts", "lint/suspicious/noDebugger", 1),
        at(Tool::Biome, "b.ts", "lint/suspicious/noConsole", 9),
        at(Tool::Biome, "b.ts", "lint/nursery/somethingNew", 4),
    ];
    let result = compare(baseline, candidate);
    assert_eq!(result.matches.len() + result.baseline_only.len() + result.unmapped_baseline.len(), 4);
    assert_eq!(result.matches.len() + result.candidate_only.len() + result.unmapped_candidate.len(), 3);
    assert_eq!(result.matches.len(), 1);
    assert_eq!(result.matches[0].kind, MatchKind::ExactMatch);
    assert_eq!(result.unmapped_baseline.len(), 1);
    assert_eq!(result.unmapped_candidate.len(), 1);
}

#[test]
fn pairs_join_the_nearest_candidate_on_the_same_path() {
    let baseline = vec![at(Tool::Eslint, "a.ts", "no-debugger", 8)];
    let candidate = vec![
        at(Tool::Biome, "a.ts", "lint/suspicious/noDebugger", 5),
        at(Tool::Biome, "a.ts", "lint/suspicious/noDebugger", 9),
        at(Tool::Biome, "c.ts", "lint/suspicious/noDebugger", 8),
    ];
    let result = compare(baseline, candidate);
    assert_eq!(result.matches.len(), 1);
    assert_eq!(result.matches[0].candidate.span.map(|s| s.start_line), Some(9));
    assert_eq!(result.matches[0].kind, MatchKind::RangeChanged);
    assert_eq!(result.candidate_only.len(), 2);
}

#[test]
fn built_in_correspondence_is_symmetric() {
    let table = RuleMappingTable::default();
    let eslint = at(Tool::Eslint, "a.ts", "no-debugger", 1);
    let biome = at(Tool::Biome, "a.ts", "lint/suspicious/noDebugger", 1);
    assert_eq!(table.confidence_between(&eslint, &biome), Some(MappingConfidence::Exact));
    assert_eq!(table.confidence_between(&biome, &eslint), Some(MappingConfidence::Exact));
    assert_eq!(table.confidence_for_rule(Tool::Biome, "lint/suspicious/noDebugger", Tool::Eslint), Some(MappingConfidence::Exact));
}

#[test]
fn built_in_aliases_resolve_to_the_eslint_name() {
    let aliases = AliasTable::default();
    assert_eq!(aliases.canonicalize("lint/correctness/noUnusedVariables"), "no-unused-vars");
    assert_eq!(aliases.canonicalize("lint/suspicious/noDuplicateObjectKeys"), "no-dupe-keys");
    assert_eq!(canonical_base("@typescript-eslint/no-unused-vars"), "no-unused-vars");
}

#[test]
fn diagnostics_sort_by_path_then_position() {
    let mut diagnostics = vec![
        at(Tool::Eslint, "b.ts", "x", 1),
        at(Tool::Eslint, "a.ts", "x", 9),
        at(Tool::Eslint, "a.ts", "x", 2),
    ];
    sort_diagnostics(&mut diagnostics);
    let order: Vec<(String, u32)> = diagnostics.iter().map(|d| (d.path.clone(), d.span.map_or(0, |s| s.start_line))).collect();
    assert_eq!(order, vec![("a.ts".to_owned(), 2), ("a.ts".to_owned(), 9), ("b.ts".to_owned(), 1)]);
}

#[test]
fn observed_rules_are_sorted_and_unique() {
    let diagnostics = vec![at(Tool::Eslint, "a.ts", "zeta", 1), at(Tool::Eslint, "a.ts", "alpha", 2), at(Tool::Eslint, "b.ts", "zeta", 3)];
    assert_eq!(observed_rule_ids(&diagnostics), vec!["alpha".to_owned(), "zeta".to_owned()]);
}

#[test]
fn mapped_pairs_with_an_explicit_table_keep_their_tools() {
    let table = RuleMappingTable::default();
    let result = compare_with_mappings(
        vec![at(Tool::Oxlint, "a.ts", "eslint(no-debugger)", 3)],
        vec![at(Tool::Eslint, "a.ts", "no-debugger", 3)],
        &table,
        Tool::Oxlint,
        Tool::Eslint,
    );
    assert_eq!(result.matches.len(), 1);
    assert_eq!(result.matches[0].baseline.tool, Tool::Oxlint);
    assert_eq!(result.matches[0].mapping_confidence, Some(MappingConfidence::Exact));
}

#[test]
fn canonical_names_are_kebab_case_and_stable() {
    for rule in ["lint/suspicious/noDebugger", "eslint/no_debugger", "  Some Rule--Name_x ", "@scope/Plugin.rule", "-lead-"] {
        let once = canonical_base(rule);
        assert_eq!(canonical_base(&once), once);
        assert!(!once.contains('/') && !once.contains('_') && !once.contains(' ') && !once.contains("--"));
        assert!(!once.starts_with('-') && !once.ends_with('-'));
        assert!(!once.chars().any(|c| c.is_ascii_uppercase()));
    }
}

#[test]
fn the_order_of_reported_diagnostics_does_not_matter() {
    let baseline = vec![
        at(Tool::Eslint, "a.ts", "no-debugger", 1),
        at(Tool::Eslint, "a.ts", "no-console", 2),
        at(Tool::Eslint, "b.ts", "eqeqeq", 5),
        at(Tool::Eslint, "b.ts", "my-plugin/custom", 7),
    ];
    let candidate = vec![
        at(Tool::Biome, "a.ts", "lint/suspicious/noDebugger", 1),
        at(Tool::Biome, "b.ts", "lint/nursery/somethingNew", 7),
        at(Tool::Biome, "b.ts", "lint/suspicious/noDoubleEquals", 5),
    ];
    let mut baseline2 = baseline.clone();
    baseline2.reverse();
    let mut candidate2 = candidate.clone();
    candidate2.rotate_left(1);
    let first = compare(baseline, candidate);
    let second = compare(baseline2, candidate2);
    let fingerprints = |v: &Vec<Diagnostic>| v.iter().map(|d| d.fingerprint.clone()).collect::<Vec<_>>();
    assert_eq!(first.matches.len(), second.matches.len());
    for (x, y) in first.matches.iter().zip(second.matches.iter()) {
        assert_eq!(x.kind, y.kind);
        assert_eq!(x.baseline.fingerprint, y.baseline.fingerprint);
        assert_eq!(x.candidate.fingerprint, y.candidate.fingerprint);
    }
    assert_eq!(fingerprints(&first.baseline_only), fingerprints(&second.baseline_only));
    assert_eq!(fingerprints(&first.unmapped_baseline), fingerprints(&second.unmapped_baseline));
    assert_eq!(fingerprints(&first.candidate_only), fingerprints(&second.candidate_only));
    assert_eq!(fingerprints(&first.unmapped_candidate), fingerprints(&second.unmapped_candidate));
}
