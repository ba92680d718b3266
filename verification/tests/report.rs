use concord::report::unified_diff;

#[test]
fn creates_unified_diff() {
    let diff = unified_diff("app.js", "const x=1;\n", "const x = 1;\n");
    assert!(diff.contains("--- baseline/app.js"));
    assert!(diff.contains("+++ candidate/app.js"));
}
