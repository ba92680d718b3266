use concord::matching::{MatchResult, RuleMappingTable};
use concord::model::Tool;
use concord::scoring::{calculate, Percentage};

fn percent(p: Percentage) -> f64 {
    if p.whole == 0 {
        100.0
    } else {
        p.part as f64 * 100.0 / p.whole as f64
    }
}

#[test]
fn empty_sets_have_explicit_vacuous_coverage() {
    let result = MatchResult {
        matches: Vec::new(),
        baseline_only: Vec::new(),
        candidate_only: Vec::new(),
        unmapped_baseline: Vec::new(),
        unmapped_candidate: Vec::new(),
    };
    let (raw, comparable, mapping) =
        calculate(&result, &Vec::new(), &Vec::new(), &RuleMappingTable::default(), Tool::Eslint, Tool::Biome, 0, 0);
    assert_eq!(percent(raw.exact_agreement), 100.0);
    assert_eq!(percent(comparable.exact_agreement), 100.0);
    assert_eq!(percent(comparable.comparable_file_coverage), 100.0);
    assert_eq!(percent(mapping.observed_rule_mapping_coverage), 100.0);
}
