use concord::model::{Diagnostic, DiagnosticData, Severity, Tool};
use concord::reduce::{delta_debug, unmatched_signature, PredicateCache};

#[test]
fn cache_does_not_repeat_predicate_calls() {
    let mut cache = PredicateCache::default();
    let mut calls = 0;
    assert!(cache.evaluate("same", |_| {
        calls += 1;
        true
    }));
    assert!(cache.evaluate("same", |_| {
        calls += 1;
        false
    }));
    assert_eq!(calls, 1);
    assert_eq!(cache.misses, 1);
}

#[test]
fn textual_reducer_keeps_required_line() {
    let source = "one\ntwo\nKEEP\nthree\nfour\n";
    let reduced = delta_debug(source, &mut |candidate: &str| candidate.contains("KEEP"));
    assert_eq!(reduced, "KEEP\n");
}

#[test]
fn mismatch_signature_rejects_another_diagnostic_with_the_same_rule() {
    let diagnostic = |message: &str| {
        Diagnostic::new(
            Tool::Eslint,
            "temporary.ts",
            DiagnosticData {
                code: Some("no-unused-vars".into()),
                canonical_code: Some("no-unused-vars".into()),
                severity: Severity::Warning,
                message: message.into(),
                span: None,
                fix: None,
            },
        )
    };
    let selected = unmatched_signature("baseline", diagnostic("This variable error is unused."));
    let drifted = unmatched_signature("baseline", diagnostic("This variable userTryingToGet is unused."));

    assert_ne!(selected, drifted);
    assert!(![drifted].contains(&selected));
}
