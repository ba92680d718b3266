//! Agreement and coverage figures of a lint comparison.
use vstd::prelude::*;

use crate::matching::{
    has_code, observed_rule_ids, spec_confidence_for_rule, DiagnosticMatch, MappingConfidence,
    MatchKind, MatchResult, RuleMappingTable,
};
use crate::model::{opt_view, tool_rank, Diagnostic, Tool};
use crate::order::{
    has_key_of, key_order, same_key, sort_dedup_by_key, strictly_ascending,
    strictly_sorted_by_key, KeyPart, Keyed,
};
use crate::paths::views;
use crate::text::{compare_text, compare_u64, str_eq, Order};

verus! {

/// A percentage kept as the fraction it comes from: `100 * part / whole`, and
/// 100 when `whole` is 0 (an empty comparison agrees vacuously).
#[derive(Debug, Clone, Copy, PartialEq, Eq, Structural)]
pub struct Percentage {
    pub part: u128,
    pub whole: u128,
}

/// `numerator` out of `denominator`, as a percentage.
pub fn ratio(numerator: usize, denominator: usize) -> (r: Percentage)
    ensures
        r.part == numerator,
        r.whole == denominator,
{
    Percentage { part: numerator as u128, whole: denominator as u128 }
}

/// Symmetric agreement: twice the matches over the diagnostics of both sides.
fn agreement(matches: usize, baseline: usize, candidate: usize) -> (r: Percentage)
    ensures
        r.part == 2 * matches,
        r.whole == baseline + candidate,
{
    Percentage { part: 2 * (matches as u128), whole: baseline as u128 + candidate as u128 }
}

/// Counts over every diagnostic that either tool reported.
#[derive(Debug, Clone, Copy, PartialEq, Eq, Structural)]
pub struct RawLintSummary {
    pub baseline_diagnostics: usize,
    pub candidate_diagnostics: usize,
    pub exact_matches: usize,
    pub approximate_matches: usize,
    pub probable_matches: usize,
    pub baseline_only: usize,
    pub candidate_only: usize,
    pub unmapped_baseline: usize,
    pub unmapped_candidate: usize,
    pub severity_changes: usize,
    pub range_changes: usize,
    pub message_changes: usize,
    pub tool_failures: usize,
    pub exact_agreement: Percentage,
}

/// Counts over the diagnostics whose rules both tools know.
#[derive(Debug, Clone, Copy, PartialEq, Eq, Structural)]
pub struct ComparableLintSummary {
    pub baseline_diagnostics: usize,
    pub candidate_diagnostics: usize,
    pub exact_matches: usize,
    pub approximate_matches: usize,
    pub probable_matches: usize,
    pub baseline_only: usize,
    pub candidate_only: usize,
    pub severity_changes: usize,
    pub range_changes: usize,
    pub message_changes: usize,
    pub exact_agreement: Percentage,
    pub comparable_agreement: Percentage,
    pub comparable_file_coverage: Percentage,
}

/// A rule ID together with the tool that reported it.
#[derive(Debug)]
pub struct ObservedRuleId {
    pub tool: Tool,
    pub code: String,
}

impl Clone for ObservedRuleId {
    fn clone(&self) -> (r: Self)
        ensures
            r == *self,
    {
        ObservedRuleId { tool: self.tool, code: self.code.clone() }
    }
}

/// The plain value of an observed rule ID.
pub open spec fn rule_view(r: ObservedRuleId) -> (Tool, Seq<char>) {
    (r.tool, r.code@)
}

/// The plain values of a list of observed rule IDs.
pub open spec fn rule_views(v: Seq<ObservedRuleId>) -> Seq<(Tool, Seq<char>)> {
    v.map_values(|r: ObservedRuleId| rule_view(r))
}

impl Keyed for ObservedRuleId {
    open spec fn key(&self) -> Seq<KeyPart> {
        seq![KeyPart::Num(tool_rank(self.tool)), KeyPart::Text(self.code@)]
    }

    fn compare_key(&self, other: &Self) -> (r: Order) {
        let a = compare_u64(self.tool.rank() as u64, other.tool.rank() as u64);
        let b = compare_text(self.code.as_str(), other.code.as_str());
        let r = crate::matching::chain(a, b);
        proof {
            assert(self.key().drop_first().drop_first() =~= Seq::<KeyPart>::empty());
            assert(other.key().drop_first().drop_first() =~= Seq::<KeyPart>::empty());
            reveal_with_fuel(key_order, 3);
        }
        r
    }
}

/// Which rules were observed and how they map to the other tool.
#[derive(Debug)]
pub struct MappingSummary {
    pub observed_baseline_rule_ids: Vec<String>,
    pub observed_candidate_rule_ids: Vec<String>,
    pub exact_mapped_rule_ids: Vec<ObservedRuleId>,
    pub approximate_mapped_rule_ids: Vec<ObservedRuleId>,
    pub unmapped_baseline_rule_ids: Vec<String>,
    pub unmapped_candidate_rule_ids: Vec<String>,
    pub observed_rule_mapping_coverage: Percentage,
}

/// The diagnostic reports the rule `r`.
pub open spec fn carries(d: Diagnostic, r: (Tool, Seq<char>)) -> bool {
    d.tool == r.0 && opt_view(d.code) == Some(r.1)
}

/// The rules on either side of the first `n` matches that paired under a mapping of
/// confidence `conf`.
pub open spec fn matched_rules(ms: Seq<DiagnosticMatch>, n: int, conf: MappingConfidence) -> Set<
    (Tool, Seq<char>),
> {
    Set::new(
        |r: (Tool, Seq<char>)|
            exists|i: int|
                0 <= i < n && #[trigger] ms[i].mapping_confidence == Some(conf) && (carries(
                    ms[i].baseline,
                    r,
                ) || carries(ms[i].candidate, r)),
    )
}

/// How the table maps a rule of `tool` onto `other`.
pub open spec fn rule_confidence(
    m: RuleMappingTable,
    tool: Tool,
    code: Seq<char>,
    other: Tool,
) -> Option<MappingConfidence> {
    spec_confidence_for_rule(m.listed(), m.alias_view(), tool, code, other)
}

/// Observed rules of `tool` that no paired diagnostic accounts for and that the table
/// maps onto `other` with confidence `conf`.
pub open spec fn newly_mapped(
    tool: Tool,
    other: Tool,
    observed: Seq<Seq<char>>,
    m: RuleMappingTable,
    known: Set<(Tool, Seq<char>)>,
    conf: MappingConfidence,
) -> Set<(Tool, Seq<char>)> {
    Set::new(
        |r: (Tool, Seq<char>)|
            r.0 == tool && observed.contains(r.1) && !known.contains(r) && rule_confidence(
                m,
                tool,
                r.1,
                other,
            ) == Some(conf),
    )
}

/// An observed rule of `tool` is unmapped when no paired diagnostic accounts for it
/// and the table maps it nowhere.
pub open spec fn unmapped_pred(
    tool: Tool,
    other: Tool,
    m: RuleMappingTable,
    known: Set<(Tool, Seq<char>)>,
) -> spec_fn(Seq<char>) -> bool {
    |c: Seq<char>| !known.contains((tool, c)) && rule_confidence(m, tool, c, other) is None
}

/// Whether `v` holds the rule `(tool, code)`.
fn contains_rule(v: &Vec<ObservedRuleId>, tool: Tool, code: &str) -> (r: bool)
    ensures
        r == rule_views(v@).contains((tool, code@)),
{
    let mut i: usize = 0;
    while i < v.len()
        invariant
            0 <= i <= v@.len(),
            forall|k: int| 0 <= k < i ==> rule_view(#[trigger] v@[k]) != (tool, code@),
        decreases v.len() - i,
    {
        if v[i].tool == tool && str_eq(v[i].code.as_str(), code) {
            assert(rule_views(v@)[i as int] == (tool, code@));
            return true;
        }
        i = i + 1;
    }
    proof {
        if rule_views(v@).contains((tool, code@)) {
            let k = choose|k: int| 0 <= k < rule_views(v@).len() && rule_views(v@)[k] == (tool, code@);
            assert(rule_view(v@[k]) == (tool, code@));
        }
    }
    false
}

/// Adds the rules of `d` to `v`, if it carries one.
fn push_rule_of(v: &mut Vec<ObservedRuleId>, d: &Diagnostic)
    ensures
        forall|r: (Tool, Seq<char>)| #[trigger] rule_views(final(v)@).contains(r) <==> (rule_views(old(v)@).contains(r) || carries(*d, r)),
{
    let ghost before = rule_views(v@);
    if let Some(code) = &d.code {
        v.push(ObservedRuleId { tool: d.tool, code: code.clone() });
        proof {
            let now = rule_views(v@);
            assert(now =~= before.push((d.tool, code@)));
            assert forall|r: (Tool, Seq<char>)| #[trigger] now.contains(r) <==> (before.contains(r) || carries(*d, r)) by {
                if now.contains(r) {
                    let j = choose|j: int| 0 <= j < now.len() && now[j] == r;
                    if j < before.len() {
                        assert(before[j] == r);
                    }
                }
                if before.contains(r) {
                    let j = choose|j: int| 0 <= j < before.len() && before[j] == r;
                    assert(now[j] == r);
                }
                if carries(*d, r) {
                    assert(now[before.len() as int] == r);
                }
            }
        }
    }
}

/// Taking one more observed rule into account adds at most that rule.
proof fn lemma_newly_step(
    tool: Tool,
    other: Tool,
    prefix: Seq<Seq<char>>,
    next: Seq<Seq<char>>,
    code: Seq<char>,
    m: RuleMappingTable,
    known: Set<(Tool, Seq<char>)>,
    conf: MappingConfidence,
)
    requires
        forall|c: Seq<char>| #[trigger] next.contains(c) <==> (prefix.contains(c) || c == code),
    ensures
        newly_mapped(tool, other, next, m, known, conf) =~= if !known.contains((tool, code))
            && rule_confidence(m, tool, code, other) == Some(conf) {
            newly_mapped(tool, other, prefix, m, known, conf).insert((tool, code))
        } else {
            newly_mapped(tool, other, prefix, m, known, conf)
        },
{
    assert forall|r: (Tool, Seq<char>)| #[trigger] newly_mapped(tool, other, next, m, known, conf).contains(r) implies (newly_mapped(tool, other, prefix, m, known, conf).contains(r) || r == (tool, code)) by {
        if r.1 == code && r.0 == tool {
            assert(r == (tool, code));
        }
    }
    assert(next.contains(code));
}

/// Classifies each observed rule of `tool` that `known` does not already account for:
/// exactly mapped, approximately mapped, or unmapped.
fn classify_observed_rules(
    tool: Tool,
    other_tool: Tool,
    observed: &Vec<String>,
    mappings: &RuleMappingTable,
    known: &Vec<ObservedRuleId>,
    exact: &mut Vec<ObservedRuleId>,
    approximate: &mut Vec<ObservedRuleId>,
    unmapped: &mut Vec<String>,
)
    ensures
        rule_views(final(exact)@).to_set() == rule_views(old(exact)@).to_set() + newly_mapped(
            tool,
            other_tool,
            views(observed@),
            *mappings,
            rule_views(known@).to_set(),
            MappingConfidence::Exact,
        ),
        rule_views(final(approximate)@).to_set() == rule_views(old(approximate)@).to_set()
            + newly_mapped(
            tool,
            other_tool,
            views(observed@),
            *mappings,
            rule_views(known@).to_set(),
            MappingConfidence::Approximate,
        ),
        views(final(unmapped)@) == views(old(unmapped)@) + views(observed@).filter(
            unmapped_pred(tool, other_tool, *mappings, rule_views(known@).to_set()),
        ),
{
    let ghost known_set = rule_views(known@).to_set();
    let ghost obs = views(observed@);
    let ghost pred = unmapped_pred(tool, other_tool, *mappings, known_set);
    let ghost e0 = rule_views(exact@).to_set();
    let ghost a0 = rule_views(approximate@).to_set();
    let ghost u0 = views(unmapped@);
    let mut i: usize = 0;
    while i < observed.len()
        invariant
            0 <= i <= observed@.len(),
            obs == views(observed@),
            known_set == rule_views(known@).to_set(),
            pred == unmapped_pred(tool, other_tool, *mappings, known_set),
            rule_views(exact@).to_set() == e0 + newly_mapped(
                tool,
                other_tool,
                obs.subrange(0, i as int),
                *mappings,
                known_set,
                MappingConfidence::Exact,
            ),
            rule_views(approximate@).to_set() == a0 + newly_mapped(
                tool,
                other_tool,
                obs.subrange(0, i as int),
                *mappings,
                known_set,
                MappingConfidence::Approximate,
            ),
            views(unmapped@) == u0 + obs.subrange(0, i as int).filter(pred),
        decreases observed.len() - i,
    {
        let code = &observed[i];
        let ghost prefix = obs.subrange(0, i as int);
        let ghost next = obs.subrange(0, i + 1);
        let ghost ex_before = rule_views(exact@);
        let ghost ap_before = rule_views(approximate@);
        proof {
            assert(next.drop_last() =~= prefix);
            assert(next.last() == code@);
            assert forall|c: Seq<char>| #[trigger] next.contains(c) <==> (prefix.contains(c) || c == code@) by {
                if next.contains(c) {
                    let j = choose|j: int| 0 <= j < next.len() && next[j] == c;
                    if j < i {
                        assert(prefix[j] == c);
                    }
                }
                if prefix.contains(c) {
                    let j = choose|j: int| 0 <= j < prefix.len() && prefix[j] == c;
                    assert(next[j] == c);
                }
                if c == code@ {
                    assert(next[i as int] == c);
                }
            }
            reveal(Seq::filter);
        }
        let ghost u_before = views(unmapped@);
        let is_known = contains_rule(known, tool, code.as_str());
        if !is_known {
            match mappings.confidence_for_rule(tool, code.as_str(), other_tool) {
                Some(MappingConfidence::Exact) => {
                    exact.push(ObservedRuleId { tool, code: code.clone() });
                },
                Some(MappingConfidence::Approximate) => {
                    approximate.push(ObservedRuleId { tool, code: code.clone() });
                },
                None => {
                    unmapped.push(code.clone());
                },
            }
        }
        proof {
            let pushed = (tool, code@);
            let conf = rule_confidence(*mappings, tool, code@, other_tool);
            assert(is_known == known_set.contains(pushed));
            lemma_newly_step(tool, other_tool, prefix, next, code@, *mappings, known_set, MappingConfidence::Exact);
            lemma_newly_step(tool, other_tool, prefix, next, code@, *mappings, known_set, MappingConfidence::Approximate);
            if !is_known && conf == Some(MappingConfidence::Exact) {
                assert(rule_views(exact@) =~= ex_before.push(pushed));
                ex_before.lemma_push_to_set_commute(pushed);
            } else {
                assert(rule_views(exact@) =~= ex_before);
            }
            if !is_known && conf == Some(MappingConfidence::Approximate) {
                assert(rule_views(approximate@) =~= ap_before.push(pushed));
                ap_before.lemma_push_to_set_commute(pushed);
            } else {
                assert(rule_views(approximate@) =~= ap_before);
            }
            assert(next.filter(pred) == if pred(code@) {
                prefix.filter(pred).push(code@)
            } else {
                prefix.filter(pred)
            });
            if !is_known && conf is None {
                assert(views(unmapped@) =~= u_before.push(code@));
            } else {
                assert(views(unmapped@) =~= u_before);
            }
            assert(rule_views(exact@).to_set() =~= e0 + newly_mapped(tool, other_tool, next, *mappings, known_set, MappingConfidence::Exact));
            assert(rule_views(approximate@).to_set() =~= a0 + newly_mapped(tool, other_tool, next, *mappings, known_set, MappingConfidence::Approximate));
            assert(views(unmapped@) =~= u0 + next.filter(pred));
        }
        i = i + 1;
    }
    proof {
        assert(obs.subrange(0, observed@.len() as int) =~= obs);
    }
}

/// The distinct rules of `v`, ordered by tool and then rule ID (the order of a
/// `BTreeSet` of them).
fn sorted_rules(v: Vec<ObservedRuleId>) -> (r: Vec<ObservedRuleId>)
    ensures
        strictly_sorted_by_key(r@),
        rule_views(r@).to_set() == rule_views(v@).to_set(),
{
    let ghost input = v@;
    let r = sort_dedup_by_key(v);
    proof {
        let rv = rule_views(r@);
        let iv = rule_views(input);
        assert forall|x: (Tool, Seq<char>)| rv.to_set().contains(x) implies iv.to_set().contains(x) by {
            let i = choose|i: int| 0 <= i < rv.len() && rv[i] == x;
            assert(input.contains(r@[i]));
            let k = choose|k: int| 0 <= k < input.len() && input[k] == r@[i];
            assert(iv[k] == x);
        }
        assert forall|x: (Tool, Seq<char>)| iv.to_set().contains(x) implies rv.to_set().contains(x) by {
            let k = choose|k: int| 0 <= k < iv.len() && iv[k] == x;
            assert(has_key_of(r@, input[k]));
            let j = choose|j: int| 0 <= j < r@.len() && same_key(#[trigger] r@[j], input[k]);
            assert(r@[j].key()[0] == input[k].key()[0]);
            assert(r@[j].key()[1] == input[k].key()[1]);
            assert(r@[j].tool == input[k].tool);
            assert(rv[j] == x);
        }
        assert(rv.to_set() =~= iv.to_set());
    }
    r
}

/// The observed rules of both sides and how they map.
pub open spec fn summarizes(
    r: MappingSummary,
    result: MatchResult,
    baseline: Seq<Diagnostic>,
    candidate: Seq<Diagnostic>,
    m: RuleMappingTable,
    baseline_tool: Tool,
    candidate_tool: Tool,
) -> bool {
    let ms = result.matches@;
    let e0 = matched_rules(ms, ms.len() as int, MappingConfidence::Exact);
    let a0 = matched_rules(ms, ms.len() as int, MappingConfidence::Approximate);
    let known = e0 + a0;
    let ob = views(r.observed_baseline_rule_ids@);
    let oc = views(r.observed_candidate_rule_ids@);
    &&& strictly_ascending(ob)
    &&& forall|x: Seq<char>| #[trigger] ob.contains(x) <==> has_code(baseline, baseline.len() as int, x)
    &&& strictly_ascending(oc)
    &&& forall|x: Seq<char>| #[trigger] oc.contains(x) <==> has_code(candidate, candidate.len() as int, x)
    &&& strictly_sorted_by_key(r.exact_mapped_rule_ids@)
    &&& rule_views(r.exact_mapped_rule_ids@).to_set() == e0 + newly_mapped(baseline_tool, candidate_tool, ob, m, known, MappingConfidence::Exact)
        + newly_mapped(candidate_tool, baseline_tool, oc, m, known, MappingConfidence::Exact)
    &&& strictly_sorted_by_key(r.approximate_mapped_rule_ids@)
    &&& rule_views(r.approximate_mapped_rule_ids@).to_set() == a0 + newly_mapped(baseline_tool, candidate_tool, ob, m, known, MappingConfidence::Approximate)
        + newly_mapped(candidate_tool, baseline_tool, oc, m, known, MappingConfidence::Approximate)
    &&& views(r.unmapped_baseline_rule_ids@) == ob.filter(unmapped_pred(baseline_tool, candidate_tool, m, known))
    &&& views(r.unmapped_candidate_rule_ids@) == oc.filter(unmapped_pred(candidate_tool, baseline_tool, m, known))
    &&& r.observed_rule_mapping_coverage.part == r.exact_mapped_rule_ids@.len() + r.approximate_mapped_rule_ids@.len()
    &&& r.observed_rule_mapping_coverage.whole == ob.len() + oc.len()
}

/// Summarizes which observed rules were mapped, from the pairs that matched under a
/// mapping and from the table itself.
fn mapping_summary(
    result: &MatchResult,
    baseline: &Vec<Diagnostic>,
    candidate: &Vec<Diagnostic>,
    mappings: &RuleMappingTable,
    baseline_tool: Tool,
    candidate_tool: Tool,
) -> (r: MappingSummary)
    ensures
        summarizes(r, *result, baseline@, candidate@, *mappings, baseline_tool, candidate_tool),
{
    let observed_baseline_rule_ids = observed_rule_ids(baseline);
    let observed_candidate_rule_ids = observed_rule_ids(candidate);
    let ghost ms = result.matches@;
    let mut exact: Vec<ObservedRuleId> = Vec::new();
    let mut approximate: Vec<ObservedRuleId> = Vec::new();
    let mut known: Vec<ObservedRuleId> = Vec::new();
    let mut i: usize = 0;
    while i < result.matches.len()
        invariant
            0 <= i <= ms.len(),
            ms == result.matches@,
            forall|x: (Tool, Seq<char>)| #[trigger] rule_views(exact@).contains(x) <==> matched_rules(ms, i as int, MappingConfidence::Exact).contains(x),
            forall|x: (Tool, Seq<char>)| #[trigger] rule_views(approximate@).contains(x) <==> matched_rules(ms, i as int, MappingConfidence::Approximate).contains(x),
            forall|x: (Tool, Seq<char>)| #[trigger] rule_views(known@).contains(x) <==> (matched_rules(ms, i as int, MappingConfidence::Exact) + matched_rules(ms, i as int, MappingConfidence::Approximate)).contains(x),
        decreases result.matches.len() - i,
    {
        let item = &result.matches[i];
        match item.mapping_confidence {
            Some(MappingConfidence::Exact) => {
                push_rule_of(&mut exact, &item.baseline);
                push_rule_of(&mut exact, &item.candidate);
                push_rule_of(&mut known, &item.baseline);
                push_rule_of(&mut known, &item.candidate);
            },
            Some(MappingConfidence::Approximate) => {
                push_rule_of(&mut approximate, &item.baseline);
                push_rule_of(&mut approximate, &item.candidate);
                push_rule_of(&mut known, &item.baseline);
                push_rule_of(&mut known, &item.candidate);
            },
            None => {},
        }
        proof {
            assert forall|c: MappingConfidence, x: (Tool, Seq<char>)| #[trigger] matched_rules(ms, i + 1, c).contains(x) <==> (matched_rules(ms, i as int, c).contains(x) || (ms[i as int].mapping_confidence == Some(c) && (carries(ms[i as int].baseline, x) || carries(ms[i as int].candidate, x)))) by {
                if matched_rules(ms, i + 1, c).contains(x) {
                    let k = choose|k: int| 0 <= k < i + 1 && #[trigger] ms[k].mapping_confidence == Some(c) && (carries(ms[k].baseline, x) || carries(ms[k].candidate, x));
                    if k < i {
                        assert(matched_rules(ms, i as int, c).contains(x));
                    }
                }
                if matched_rules(ms, i as int, c).contains(x) {
                    let k = choose|k: int| 0 <= k < i && #[trigger] ms[k].mapping_confidence == Some(c) && (carries(ms[k].baseline, x) || carries(ms[k].candidate, x));
                    assert(0 <= k < i + 1);
                }
            }
        }
        i = i + 1;
    }
    let ghost e0 = matched_rules(ms, ms.len() as int, MappingConfidence::Exact);
    let ghost a0 = matched_rules(ms, ms.len() as int, MappingConfidence::Approximate);
    proof {
        assert(rule_views(exact@).to_set() =~= e0);
        assert(rule_views(approximate@).to_set() =~= a0);
        assert(rule_views(known@).to_set() =~= e0 + a0);
    }
    let mut unmapped_baseline_rule_ids: Vec<String> = Vec::new();
    let mut unmapped_candidate_rule_ids: Vec<String> = Vec::new();
    classify_observed_rules(
        baseline_tool,
        candidate_tool,
        &observed_baseline_rule_ids,
        mappings,
        &known,
        &mut exact,
        &mut approximate,
        &mut unmapped_baseline_rule_ids,
    );
    classify_observed_rules(
        candidate_tool,
        baseline_tool,
        &observed_candidate_rule_ids,
        mappings,
        &known,
        &mut exact,
        &mut approximate,
        &mut unmapped_candidate_rule_ids,
    );
    proof {
        assert(views(Seq::<String>::empty()) =~= Seq::<Seq<char>>::empty());
        assert(views(unmapped_baseline_rule_ids@) =~= views(observed_baseline_rule_ids@).filter(unmapped_pred(baseline_tool, candidate_tool, *mappings, e0 + a0)));
        assert(views(unmapped_candidate_rule_ids@) =~= views(observed_candidate_rule_ids@).filter(unmapped_pred(candidate_tool, baseline_tool, *mappings, e0 + a0)));
    }
    let exact_mapped_rule_ids = sorted_rules(exact);
    let approximate_mapped_rule_ids = sorted_rules(approximate);
    let mapped_total = exact_mapped_rule_ids.len() as u128 + approximate_mapped_rule_ids.len() as u128;
    let observed_total = observed_baseline_rule_ids.len() as u128 + observed_candidate_rule_ids.len() as u128;
    let r = MappingSummary {
        observed_baseline_rule_ids,
        observed_candidate_rule_ids,
        exact_mapped_rule_ids,
        approximate_mapped_rule_ids,
        unmapped_baseline_rule_ids,
        unmapped_candidate_rule_ids,
        observed_rule_mapping_coverage: Percentage { part: mapped_total, whole: observed_total },
    };
    proof {
        let known_set = e0 + a0;
        let ob = views(r.observed_baseline_rule_ids@);
        let oc = views(r.observed_candidate_rule_ids@);
        assert(rule_views(r.exact_mapped_rule_ids@).to_set() =~= e0 + newly_mapped(baseline_tool, candidate_tool, ob, *mappings, known_set, MappingConfidence::Exact)
            + newly_mapped(candidate_tool, baseline_tool, oc, *mappings, known_set, MappingConfidence::Exact));
        assert(rule_views(r.approximate_mapped_rule_ids@).to_set() =~= a0 + newly_mapped(baseline_tool, candidate_tool, ob, *mappings, known_set, MappingConfidence::Approximate)
            + newly_mapped(candidate_tool, baseline_tool, oc, *mappings, known_set, MappingConfidence::Approximate));
    }
    r
}

/// How many of the matches are of the given kind.
pub open spec fn count_kind(ms: Seq<DiagnosticMatch>, kind: MatchKind) -> nat
    decreases ms.len(),
{
    if ms.len() == 0 {
        0
    } else {
        count_kind(ms.drop_last(), kind) + if ms.last().kind == kind {
            1nat
        } else {
            0nat
        }
    }
}

/// Every match has exactly one kind, so the counts of the kinds add up to the
/// number of matches.
pub proof fn lemma_counts_total(ms: Seq<DiagnosticMatch>)
    ensures
        count_kind(ms, MatchKind::ExactMatch) + count_kind(ms, MatchKind::ApproximateRuleMatch)
            + count_kind(ms, MatchKind::ProbableMatch) + count_kind(ms, MatchKind::SeverityChanged)
            + count_kind(ms, MatchKind::RangeChanged) + count_kind(ms, MatchKind::MessageChanged)
            == ms.len(),
    decreases ms.len(),
{
    if ms.len() > 0 {
        lemma_counts_total(ms.drop_last());
    }
}

/// The number of matches of each kind, in declaration order.
fn count_kinds(ms: &Vec<DiagnosticMatch>) -> (r: (usize, usize, usize, usize, usize, usize))
    ensures
        r.0 == count_kind(ms@, MatchKind::ExactMatch),
        r.1 == count_kind(ms@, MatchKind::ApproximateRuleMatch),
        r.2 == count_kind(ms@, MatchKind::ProbableMatch),
        r.3 == count_kind(ms@, MatchKind::SeverityChanged),
        r.4 == count_kind(ms@, MatchKind::RangeChanged),
        r.5 == count_kind(ms@, MatchKind::MessageChanged),
        r.0 + r.1 + r.2 + r.3 + r.4 + r.5 == ms@.len(),
{
    let mut c: (usize, usize, usize, usize, usize, usize) = (0, 0, 0, 0, 0, 0);
    let mut i: usize = 0;
    while i < ms.len()
        invariant
            0 <= i <= ms@.len(),
            c.0 == count_kind(ms@.subrange(0, i as int), MatchKind::ExactMatch),
            c.1 == count_kind(ms@.subrange(0, i as int), MatchKind::ApproximateRuleMatch),
            c.2 == count_kind(ms@.subrange(0, i as int), MatchKind::ProbableMatch),
            c.3 == count_kind(ms@.subrange(0, i as int), MatchKind::SeverityChanged),
            c.4 == count_kind(ms@.subrange(0, i as int), MatchKind::RangeChanged),
            c.5 == count_kind(ms@.subrange(0, i as int), MatchKind::MessageChanged),
            c.0 + c.1 + c.2 + c.3 + c.4 + c.5 == i,
        decreases ms.len() - i,
    {
        proof {
            assert(ms@.subrange(0, i + 1).drop_last() =~= ms@.subrange(0, i as int));
        }
        match ms[i].kind {
            MatchKind::ExactMatch => c.0 = c.0 + 1,
            MatchKind::ApproximateRuleMatch => c.1 = c.1 + 1,
            MatchKind::ProbableMatch => c.2 = c.2 + 1,
            MatchKind::SeverityChanged => c.3 = c.3 + 1,
            MatchKind::RangeChanged => c.4 = c.4 + 1,
            MatchKind::MessageChanged => c.5 = c.5 + 1,
        }
        i = i + 1;
    }
    proof {
        assert(ms@.subrange(0, ms@.len() as int) =~= ms@);
    }
    c
}

/// The raw counts, the comparable counts and the rule mapping summary of a lint
/// comparison.
pub fn calculate(
    result: &MatchResult,
    baseline_diagnostics: &Vec<Diagnostic>,
    candidate_diagnostics: &Vec<Diagnostic>,
    mappings: &RuleMappingTable,
    baseline_tool: Tool,
    candidate_tool: Tool,
    discovered_files: usize,
    comparable_files: usize,
) -> (r: (RawLintSummary, ComparableLintSummary, MappingSummary))
    requires
        result.matches@.len() + result.baseline_only@.len() <= usize::MAX,
        result.matches@.len() + result.candidate_only@.len() <= usize::MAX,
    ensures
        ({
            let ms = result.matches@;
            let exact = count_kind(ms, MatchKind::ExactMatch);
            let approximate = count_kind(ms, MatchKind::ApproximateRuleMatch);
            let probable = count_kind(ms, MatchKind::ProbableMatch);
            let raw = r.0;
            let comparable = r.1;
            let baseline_comparable = ms.len() + result.baseline_only@.len();
            let candidate_comparable = ms.len() + result.candidate_only@.len();
            &&& raw.baseline_diagnostics == baseline_diagnostics@.len()
            &&& raw.candidate_diagnostics == candidate_diagnostics@.len()
            &&& raw.exact_matches == exact
            &&& raw.approximate_matches == approximate
            &&& raw.probable_matches == probable
            &&& raw.baseline_only == result.baseline_only@.len()
            &&& raw.candidate_only == result.candidate_only@.len()
            &&& raw.unmapped_baseline == result.unmapped_baseline@.len()
            &&& raw.unmapped_candidate == result.unmapped_candidate@.len()
            &&& raw.severity_changes == count_kind(ms, MatchKind::SeverityChanged)
            &&& raw.range_changes == count_kind(ms, MatchKind::RangeChanged)
            &&& raw.message_changes == count_kind(ms, MatchKind::MessageChanged)
            &&& raw.tool_failures == 0
            &&& raw.exact_agreement == Percentage {
                part: (2 * exact) as u128,
                whole: (baseline_diagnostics@.len() + candidate_diagnostics@.len()) as u128,
            }
            &&& comparable.baseline_diagnostics == baseline_comparable
            &&& comparable.candidate_diagnostics == candidate_comparable
            &&& comparable.exact_matches == exact
            &&& comparable.approximate_matches == approximate
            &&& comparable.probable_matches == probable
            &&& comparable.baseline_only == result.baseline_only@.len()
            &&& comparable.candidate_only == result.candidate_only@.len()
            &&& comparable.severity_changes == raw.severity_changes
            &&& comparable.range_changes == raw.range_changes
            &&& comparable.message_changes == raw.message_changes
            &&& comparable.exact_agreement == Percentage {
                part: (2 * exact) as u128,
                whole: (baseline_comparable + candidate_comparable) as u128,
            }
            &&& comparable.comparable_agreement == Percentage {
                part: (2 * (exact + approximate + probable)) as u128,
                whole: (baseline_comparable + candidate_comparable) as u128,
            }
            &&& comparable.comparable_file_coverage == Percentage {
                part: comparable_files as u128,
                whole: discovered_files as u128,
            }
        }),
        summarizes(r.2, *result, baseline_diagnostics@, candidate_diagnostics@, *mappings, baseline_tool, candidate_tool),
{
    let counts = count_kinds(&result.matches);
    let exact = counts.0;
    let approximate = counts.1;
    let probable = counts.2;
    let raw = RawLintSummary {
        baseline_diagnostics: baseline_diagnostics.len(),
        candidate_diagnostics: candidate_diagnostics.len(),
        exact_matches: exact,
        approximate_matches: approximate,
        probable_matches: probable,
        baseline_only: result.baseline_only.len(),
        candidate_only: result.candidate_only.len(),
        unmapped_baseline: result.unmapped_baseline.len(),
        unmapped_candidate: result.unmapped_candidate.len(),
        severity_changes: counts.3,
        range_changes: counts.4,
        message_changes: counts.5,
        tool_failures: 0,
        exact_agreement: agreement(exact, baseline_diagnostics.len(), candidate_diagnostics.len()),
    };
    let baseline_comparable = result.matches.len() + result.baseline_only.len();
    let candidate_comparable = result.matches.len() + result.candidate_only.len();
    let comparable = ComparableLintSummary {
        baseline_diagnostics: baseline_comparable,
        candidate_diagnostics: candidate_comparable,
        exact_matches: exact,
        approximate_matches: approximate,
        probable_matches: probable,
        baseline_only: result.baseline_only.len(),
        candidate_only: result.candidate_only.len(),
        severity_changes: counts.3,
        range_changes: counts.4,
        message_changes: counts.5,
        exact_agreement: agreement(exact, baseline_comparable, candidate_comparable),
        comparable_agreement: agreement(
            exact + approximate + probable,
            baseline_comparable,
            candidate_comparable,
        ),
        comparable_file_coverage: ratio(comparable_files, discovered_files),
    };
    let mapping = mapping_summary(
        result,
        baseline_diagnostics,
        candidate_diagnostics,
        mappings,
        baseline_tool,
        candidate_tool,
    );
    (raw, comparable, mapping)
}

} // verus!
