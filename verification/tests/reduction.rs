use concord::matching::{compare, MatchResult};
use concord::model::{Diagnostic, DiagnosticData, Severity, Span, Tool};
use concord::reduce::{
    contains_signature, default_output, delta_debug, distinct_output, line_count, lint_mismatch_signatures,
    lost_mismatch, same_location, select_signature, unmatched_signature, working_suffix, PredicateCache, ReduceMode,
    ReductionResult,
};

fn diagnostic(tool: Tool, code: &str, line: u32, message: &str) -> Diagnostic {
    Diagnostic::new(
        tool,
        "case.ts",
        DiagnosticData {
            code: Some(code.into()),
            canonical_code: Some(code.into()),
            severity: Severity::Error,
            message: message.into(),
            span: Some(Span { start_line: line, start_column: 1, end_line: None, end_column: None }),
            fix: None,
        },
    )
}

#[test]
fn reducer_keeps_only_lines_that_the_predicate_needs() {
    let source = "a\nb\nc\nd\ne\nf\n";
    let reduced = delta_debug(source, &mut |candidate: &str| candidate.contains("b\n") && candidate.contains("e\n"));
    assert_eq!(reduced, "b\ne\n");
}

#[test]
fn reducer_returns_the_source_when_nothing_can_go() {
    let source = "keep\nall\n";
    let reduced = delta_debug(source, &mut |candidate: &str| candidate == "keep\nall\n");
    assert_eq!(reduced, source);
    let empty = delta_debug("", &mut |_candidate: &str| true);
    assert_eq!(empty, "");
}

#[test]
fn cache_remembers_each_content_separately() {
    let mut cache = PredicateCache::default();
    assert!(!cache.evaluate("one", |_| false));
    assert!(cache.evaluate("two", |_| true));
    assert!(!cache.evaluate("one", |_| true));
    assert_eq!(cache.misses, 2);
    cache.insert("three", true);
    assert!(cache.evaluate("three", |_| false));
    assert_eq!(cache.misses, 2);
}

#[test]
fn lint_mismatches_list_one_sided_then_differing_pairs() {
    let baseline = vec![
        diagnostic(Tool::Eslint, "no-debugger", 1, "debugger"),
        diagnostic(Tool::Eslint, "no-console", 5, "console"),
        diagnostic(Tool::Eslint, "eqeqeq", 9, "use ==="),
    ];
    let candidate = vec![
        diagnostic(Tool::Biome, "no-debugger", 1, "debugger"),
        diagnostic(Tool::Biome, "eqeqeq", 9, "use strict equality"),
    ];
    let result: MatchResult = compare(baseline, candidate);
    let signatures = lint_mismatch_signatures(result);
    assert_eq!(signatures.len(), 2);
    assert_eq!(signatures[0].side, "baseline");
    assert_eq!(signatures[0].category, "baseline_only");
    assert_eq!(signatures[0].canonical_code.as_deref(), Some("no-console"));
    assert_eq!(signatures[1].side, "both");
    assert_eq!(signatures[1].category, "message_changed");
    assert_eq!(signatures[1].candidate.as_ref().map(|c| c.message.as_str()), Some("use strict equality"));
}

#[test]
fn selected_mismatch_must_exist() {
    let signatures = vec![unmatched_signature("candidate", diagnostic(Tool::Biome, "x", 1, "m"))];
    let chosen = select_signature(&signatures, 0).expect("first");
    assert_eq!(chosen.category, "candidate_only");
    assert!(contains_signature(&signatures, &chosen));
    let error = select_signature(&signatures, 3).expect_err("missing");
    assert_eq!(error.message, "mismatch index 3 does not exist; comparison produced 1 mismatches");
    let other = unmatched_signature("baseline", diagnostic(Tool::Eslint, "x", 1, "m"));
    assert!(!contains_signature(&signatures, &other));
}

#[test]
fn default_output_sits_beside_the_input() {
    assert_eq!(default_output("/p/src/case.ts"), "/p/src/case.reduced.ts");
    assert_eq!(default_output("case"), "case.reduced");
    assert_eq!(working_suffix("/p/src/case.ts"), ".ts");
    assert_eq!(working_suffix("/p/src/Makefile"), "");
}

#[test]
fn output_must_not_overwrite_the_input() {
    assert!(same_location("/p/a.ts", "/p/./a.ts"));
    let error = distinct_output("/p/a.ts", "/p/a.ts", false).expect_err("same path");
    assert_eq!(error.message, "reduction output must not overwrite the original file");
    assert!(distinct_output("/p/a.ts", "/p/link.ts", true).is_err());
    assert!(distinct_output("/p/a.ts", "/p/a.reduced.ts", false).is_ok());
    assert_eq!(
        lost_mismatch("/p/a.reduced.ts").message,
        "the saved reproduction no longer preserves the selected mismatch\noutput: /p/a.reduced.ts"
    );
}

#[test]
fn lines_are_counted_as_str_lines_does() {
    assert_eq!(line_count(""), 0);
    assert_eq!(line_count("a"), 1);
    assert_eq!(line_count("a\nb\n"), 2);
    assert_eq!(line_count("a\n\nb"), 3);
}

#[test]
fn reduction_summary_aligns_counts_and_sizes() {
    let result = ReductionResult {
        schema_version: 1,
        mode: ReduceMode::Lint,
        baseline: Tool::Eslint,
        candidate: Tool::Biome,
        signature: unmatched_signature("baseline", diagnostic(Tool::Eslint, "x", 1, "m")),
        original_lines: 120,
        original_bytes: 1536,
        reduced_lines: 3,
        reduced_bytes: 40,
        attempts: 17,
        duration_ms: 2500,
        output: "/p/case.reduced.ts".into(),
    };
    assert_eq!(
        result.terminal_summary("2.5"),
        "Concord reduction\n\nOriginal:    120 lines, 1.5 KiB\nReduced:       3 lines, 40 B\nAttempts:  17\nDuration:  2.5s\nOutput:    /p/case.reduced.ts"
    );
}
