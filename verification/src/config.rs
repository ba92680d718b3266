//! The shape of `concord.toml`, its defaults, and the checks that a loaded
//! configuration must pass.
use vstd::prelude::*;

use crate::capabilities::{catalog_error_from, CapabilityCatalog, UnsupportedPolicy};
use crate::error::{ConcordError, ErrorKind};
use crate::matching::MappingConfidence;
use crate::model::{spec_is_linter, tool_config_key, tool_rank, Tool};
use crate::text::{decimal, owned, push_decimal, push_str, str_eq, text_order, trim, trim_seq, Order};

verus! {

/// A whole configuration file.
#[derive(Debug, Clone)]
pub struct Config {
    pub version: u32,
    pub discovery: DiscoveryConfig,
    pub execution: ExecutionConfig,
    pub tools: ToolsConfig,
    pub matching: MatchingConfig,
    pub comparison: ComparisonConfig,
}

/// Which files discovery considers.
#[derive(Debug, Clone)]
pub struct DiscoveryConfig {
    pub includes: Vec<String>,
    pub exclude: Vec<String>,
}

/// Process limits.
#[derive(Debug, Clone)]
pub struct ExecutionConfig {
    pub timeout_seconds: u64,
    pub formatter_jobs: usize,
}

/// Per-tool settings.
#[derive(Debug, Clone)]
pub struct ToolsConfig {
    pub eslint: ToolConfig,
    pub biome: ToolConfig,
    pub oxlint: ToolConfig,
    pub prettier: ToolConfig,
    pub oxfmt: ToolConfig,
}

/// The executable and file patterns of one tool.
#[derive(Debug, Clone)]
pub struct ToolConfig {
    pub command: Option<String>,
    pub includes: Vec<String>,
    pub exclude: Vec<String>,
    pub unsupported: Vec<String>,
}

/// How unsupported files affect the outcome.
#[derive(Debug, Clone)]
pub struct ComparisonConfig {
    pub unsupported: UnsupportedPolicy,
}

/// Rule matching settings.
#[derive(Debug, Clone)]
pub struct MatchingConfig {
    pub count_probable_as_match: bool,
    pub aliases: Vec<AliasConfig>,
    pub rules: Vec<RuleMappingConfig>,
}

/// A deprecated alias group: the same rule under up to three linters.
#[derive(Debug, Clone)]
pub struct AliasConfig {
    pub eslint: Option<String>,
    pub biome: Option<String>,
    pub oxlint: Option<String>,
}

/// An explicit mapping between a baseline rule and a candidate rule.
#[derive(Debug, Clone)]
pub struct RuleMappingConfig {
    pub baseline_tool: Tool,
    pub baseline: String,
    pub candidate_tool: Tool,
    pub candidate: String,
    pub confidence: MappingConfidence,
    pub notes: Option<String>,
}

/// The file patterns that discovery uses by default.
pub open spec fn default_patterns() -> Seq<Seq<char>> {
    seq![
        "**/*.js"@,
        "**/*.jsx"@,
        "**/*.mjs"@,
        "**/*.cjs"@,
        "**/*.ts"@,
        "**/*.tsx"@,
        "**/*.mts"@,
        "**/*.cts"@,
        "**/*.json"@,
        "**/*.jsonc"@,
    ]
}

/// The views of a vector of strings.
pub open spec fn string_views(v: Seq<String>) -> Seq<Seq<char>> {
    v.map_values(|s: String| s@)
}

impl Default for DiscoveryConfig {
    fn default() -> (r: Self)
        ensures
            string_views(r.includes@) == default_patterns(),
            string_views(r.exclude@) == seq!["**/generated/**"@],
    {
        let mut includes: Vec<String> = Vec::new();
        includes.push("**/*.js".to_owned());
        includes.push("**/*.jsx".to_owned());
        includes.push("**/*.mjs".to_owned());
        includes.push("**/*.cjs".to_owned());
        includes.push("**/*.ts".to_owned());
        includes.push("**/*.tsx".to_owned());
        includes.push("**/*.mts".to_owned());
        includes.push("**/*.cts".to_owned());
        includes.push("**/*.json".to_owned());
        includes.push("**/*.jsonc".to_owned());
        let mut exclude: Vec<String> = Vec::new();
        exclude.push("**/generated/**".to_owned());
        proof {
            assert(string_views(includes@) =~= default_patterns());
            assert(string_views(exclude@) =~= seq!["**/generated/**"@]);
        }
        DiscoveryConfig { includes, exclude }
    }
}

impl Default for ExecutionConfig {
    fn default() -> (r: Self)
        ensures
            r.timeout_seconds == 30,
            r.formatter_jobs == 4,
    {
        ExecutionConfig { timeout_seconds: 30, formatter_jobs: 4 }
    }
}

impl Default for ToolConfig {
    fn default() -> (r: Self)
        ensures
            r.command is None,
            r.includes@.len() == 0,
            r.exclude@.len() == 0,
            r.unsupported@.len() == 0,
    {
        ToolConfig {
            command: None,
            includes: Vec::new(),
            exclude: Vec::new(),
            unsupported: Vec::new(),
        }
    }
}

/// A tool configuration with no command and no patterns.
pub open spec fn is_empty_tool_config(c: ToolConfig) -> bool {
    c.command is None && c.includes@.len() == 0 && c.exclude@.len() == 0 && c.unsupported@.len() == 0
}

impl Default for ToolsConfig {
    fn default() -> (r: Self)
        ensures
            is_empty_tool_config(r.eslint),
            is_empty_tool_config(r.biome),
            is_empty_tool_config(r.oxlint),
            is_empty_tool_config(r.prettier),
            is_empty_tool_config(r.oxfmt),
    {
        ToolsConfig {
            eslint: ToolConfig::default(),
            biome: ToolConfig::default(),
            oxlint: ToolConfig::default(),
            prettier: ToolConfig::default(),
            oxfmt: ToolConfig::default(),
        }
    }
}

impl Default for ComparisonConfig {
    fn default() -> (r: Self)
        ensures
            r.unsupported == UnsupportedPolicy::Difference,
    {
        ComparisonConfig { unsupported: UnsupportedPolicy::Difference }
    }
}

impl Default for MatchingConfig {
    fn default() -> (r: Self)
        ensures
            !r.count_probable_as_match,
            r.aliases@.len() == 0,
            r.rules@.len() == 0,
    {
        MatchingConfig { count_probable_as_match: false, aliases: Vec::new(), rules: Vec::new() }
    }
}

impl Default for Config {
    fn default() -> (r: Self)
        ensures
            r.version == 1,
            string_views(r.discovery.includes@) == default_patterns(),
            string_views(r.discovery.exclude@) == seq!["**/generated/**"@],
            r.execution.timeout_seconds == 30,
            r.execution.formatter_jobs == 4,
            is_empty_tool_config(r.tools.eslint),
            is_empty_tool_config(r.tools.biome),
            is_empty_tool_config(r.tools.oxlint),
            is_empty_tool_config(r.tools.prettier),
            is_empty_tool_config(r.tools.oxfmt),
            !r.matching.count_probable_as_match,
            r.matching.aliases@.len() == 0,
            r.matching.rules@.len() == 0,
            r.comparison.unsupported == UnsupportedPolicy::Difference,
    {
        Config {
            version: 1,
            discovery: DiscoveryConfig::default(),
            execution: ExecutionConfig::default(),
            tools: ToolsConfig::default(),
            matching: MatchingConfig::default(),
            comparison: ComparisonConfig::default(),
        }
    }
}

/// The configuration of `tool` within `tools`.
pub open spec fn tool_config(tools: ToolsConfig, tool: Tool) -> ToolConfig {
    match tool {
        Tool::Eslint => tools.eslint,
        Tool::Biome => tools.biome,
        Tool::Oxlint => tools.oxlint,
        Tool::Prettier => tools.prettier,
        Tool::Oxfmt => tools.oxfmt,
    }
}

impl ToolsConfig {
    /// The configuration of one tool.
    pub fn get(&self, tool: Tool) -> (r: &ToolConfig)
        ensures
            *r == tool_config(*self, tool),
    {
        match tool {
            Tool::Eslint => &self.eslint,
            Tool::Biome => &self.biome,
            Tool::Oxlint => &self.oxlint,
            Tool::Prettier => &self.prettier,
            Tool::Oxfmt => &self.oxfmt,
        }
    }
}

/// The present `(tool, rule)` entries of an alias group, in ESLint, Biome,
/// Oxlint order.
pub open spec fn alias_tool_values(a: AliasConfig) -> Seq<(Tool, Seq<char>)> {
    let e: Seq<(Tool, Seq<char>)> = match a.eslint {
        Some(s) => seq![(Tool::Eslint, s@)],
        None => Seq::empty(),
    };
    let b: Seq<(Tool, Seq<char>)> = match a.biome {
        Some(s) => seq![(Tool::Biome, s@)],
        None => Seq::empty(),
    };
    let o: Seq<(Tool, Seq<char>)> = match a.oxlint {
        Some(s) => seq![(Tool::Oxlint, s@)],
        None => Seq::empty(),
    };
    e + b + o
}

/// The present rules of an alias group, in ESLint, Biome, Oxlint order.
pub open spec fn alias_values(a: AliasConfig) -> Seq<Seq<char>> {
    alias_tool_values(a).map_values(|p: (Tool, Seq<char>)| p.1)
}

impl AliasConfig {
    /// The rules that the group names.
    pub fn values(&self) -> (r: Vec<String>)
        ensures
            string_views(r@) == alias_values(*self),
    {
        let mut r: Vec<String> = Vec::new();
        if let Some(s) = &self.eslint {
            r.push(s.clone());
        }
        if let Some(s) = &self.biome {
            r.push(s.clone());
        }
        if let Some(s) = &self.oxlint {
            r.push(s.clone());
        }
        proof {
            assert(string_views(r@) =~= alias_values(*self));
        }
        r
    }

    /// The rules that the group names, each with its tool.
    pub fn tool_values(&self) -> (r: Vec<(Tool, String)>)
        ensures
            r@.map_values(|p: (Tool, String)| (p.0, p.1@)) == alias_tool_values(*self),
    {
        let mut r: Vec<(Tool, String)> = Vec::new();
        if let Some(s) = &self.eslint {
            r.push((Tool::Eslint, s.clone()));
        }
        if let Some(s) = &self.biome {
            r.push((Tool::Biome, s.clone()));
        }
        if let Some(s) = &self.oxlint {
            r.push((Tool::Oxlint, s.clone()));
        }
        proof {
            assert(r@.map_values(|p: (Tool, String)| (p.0, p.1@)) =~= alias_tool_values(*self));
        }
        r
    }
}

/// An end of a mapping: a tool and a trimmed rule ID.
pub type Endpoint = (Tool, Seq<char>);

/// The two ends of a mapping, the one of the earlier tool first.
pub open spec fn endpoint_pair(m: RuleMappingConfig) -> (Endpoint, Endpoint) {
    let a = (m.baseline_tool, trim_seq(m.baseline@));
    let b = (m.candidate_tool, trim_seq(m.candidate@));
    if tool_rank(a.0) < tool_rank(b.0) || (a.0 == b.0 && text_order(a.1, b.1) != Order::Greater) {
        (a, b)
    } else {
        (b, a)
    }
}

/// Some earlier mapping links `from` to `other` tool with another rule than `to`.
pub open spec fn conflicts(rules: Seq<RuleMappingConfig>, i: int, from: Endpoint, to: Endpoint) -> bool {
    exists|j: int|
        0 <= j < i && {
            let p = #[trigger] endpoint_pair(rules[j]);
            (p.0 == from && p.1.0 == to.0 && p.1.1 != to.1) || (p.1 == from && p.0.0 == to.0 && p.0.1 != to.1)
        }
}

/// What is wrong with mapping `i`, given that the ones before it are fine.
pub open spec fn rule_problem(rules: Seq<RuleMappingConfig>, i: int) -> Option<Seq<char>> {
    let m = rules[i];
    if m.baseline_tool == m.candidate_tool {
        Some("matching.rules cannot map a tool to itself"@)
    } else if !spec_is_linter(m.baseline_tool) || !spec_is_linter(m.candidate_tool) {
        Some("matching.rules only supports eslint, biome, and oxlint"@)
    } else if trim_seq(m.baseline@).len() == 0 || trim_seq(m.candidate@).len() == 0 {
        Some("matching.rules rule codes must not be empty"@)
    } else {
        let p = endpoint_pair(m);
        if exists|j: int| 0 <= j < i && #[trigger] endpoint_pair(rules[j]) == p {
            Some("duplicate matching.rules mapping: "@ + tool_config_key(p.0.0) + ":"@ + p.0.1 + " <-> "@
                + tool_config_key(p.1.0) + ":"@ + p.1.1)
        } else if conflicts(rules, i, p.0, p.1) {
            Some("conflicting matching.rules mapping for "@ + tool_config_key(p.0.0) + ":"@ + p.0.1)
        } else if conflicts(rules, i, p.1, p.0) {
            Some("conflicting matching.rules mapping for "@ + tool_config_key(p.1.0) + ":"@ + p.1.1)
        } else {
            None
        }
    }
}

/// The problem of the first of the first `n` mappings that has one.
pub open spec fn first_problem(rules: Seq<RuleMappingConfig>, n: int) -> Option<Seq<char>>
    decreases n,
{
    if n <= 0 {
        None
    } else {
        match first_problem(rules, n - 1) {
            Some(e) => Some(e),
            None => rule_problem(rules, n - 1),
        }
    }
}

/// Once a problem is found, later mappings do not change which one is first.
proof fn lemma_first_problem_stable(rules: Seq<RuleMappingConfig>, n: int, m: int)
    requires
        0 <= n <= m,
    ensures
        first_problem(rules, n) is Some ==> first_problem(rules, m) == first_problem(rules, n),
    decreases m - n,
{
    if n < m {
        lemma_first_problem_stable(rules, n, m - 1);
    }
}

/// The ends of a mapping, ordered.
fn endpoints_of(m: &RuleMappingConfig) -> (r: ((Tool, String), (Tool, String)))
    ensures
        ((r.0.0, r.0.1@), (r.1.0, r.1.1@)) == endpoint_pair(*m),
{
    let a = (m.baseline_tool, trim(m.baseline.as_str()));
    let b = (m.candidate_tool, trim(m.candidate.as_str()));
    let ra = m.baseline_tool.rank();
    let rb = m.candidate_tool.rank();
    if ra < rb || (m.baseline_tool == m.candidate_tool && crate::text::compare_text(a.1.as_str(), b.1.as_str()) != Order::Greater) {
        (a, b)
    } else {
        (b, a)
    }
}

fn endpoint_eq(a: &(Tool, String), b: &(Tool, String)) -> (r: bool)
    ensures
        r == ((a.0, a.1@) == (b.0, b.1@)),
{
    a.0 == b.0 && str_eq(a.1.as_str(), b.1.as_str())
}

/// The views of recorded pairs.
pub open spec fn pair_views(v: Seq<((Tool, String), (Tool, String))>) -> Seq<(Endpoint, Endpoint)> {
    v.map_values(|p: ((Tool, String), (Tool, String))| ((p.0.0, p.0.1@), (p.1.0, p.1.1@)))
}

/// Whether an earlier pair links `from` to `to`'s tool with another rule.
fn find_conflict(pairs: &Vec<((Tool, String), (Tool, String))>, from: &(Tool, String), to: &(Tool, String)) -> (r: bool)
    ensures
        r == exists|j: int| 0 <= j < pairs@.len() && {
            let p = #[trigger] pair_views(pairs@)[j];
            (p.0 == (from.0, from.1@) && p.1.0 == to.0 && p.1.1 != to.1@) || (p.1 == (from.0, from.1@) && p.0.0 == to.0 && p.0.1 != to.1@)
        },
{
    let mut j: usize = 0;
    while j < pairs.len()
        invariant
            0 <= j <= pairs@.len(),
            forall|k: int| 0 <= k < j ==> {
                let p = #[trigger] pair_views(pairs@)[k];
                !((p.0 == (from.0, from.1@) && p.1.0 == to.0 && p.1.1 != to.1@) || (p.1 == (from.0, from.1@) && p.0.0 == to.0 && p.0.1 != to.1@))
            },
        decreases pairs.len() - j,
    {
        let p = &pairs[j];
        let hit = (endpoint_eq(&p.0, from) && p.1.0 == to.0 && !str_eq(p.1.1.as_str(), to.1.as_str()))
            || (endpoint_eq(&p.1, from) && p.0.0 == to.0 && !str_eq(p.0.1.as_str(), to.1.as_str()));
        proof {
            let pv = pair_views(pairs@)[j as int];
            assert(pv == ((p.0.0, p.0.1@), (p.1.0, p.1.1@)));
        }
        if hit {
            return true;
        }
        j = j + 1;
    }
    false
}

fn usage_error(message: String) -> (r: ConcordError)
    ensures
        r.kind == ErrorKind::Usage,
        r.message == message,
{
    ConcordError { kind: ErrorKind::Usage, message }
}

/// Checks the configured rule mappings: each maps two different linters, names both
/// rules, occurs once, and maps each rule of a tool to one rule of the other tool.
/// The first mapping that breaks one of these is reported as a usage error.
pub fn validate_rule_mappings(config: &Config) -> (r: Result<(), ConcordError>)
    ensures
        match r {
            Ok(()) => first_problem(config.matching.rules@, config.matching.rules@.len() as int) is None,
            Err(e) => e.kind == ErrorKind::Usage && first_problem(config.matching.rules@, config.matching.rules@.len() as int) == Some(e.message@),
        },
{
    let rules = &config.matching.rules;
    let ghost rs = rules@;
    let mut pairs: Vec<((Tool, String), (Tool, String))> = Vec::new();
    let mut i: usize = 0;
    while i < rules.len()
        invariant
            0 <= i <= rs.len(),
            rs == rules@,
            rs == config.matching.rules@,
            first_problem(rs, i as int) is None,
            pairs@.len() == i,
            forall|j: int| 0 <= j < i ==> #[trigger] pair_views(pairs@)[j] == endpoint_pair(rs[j]),
        decreases rs.len() - i,
    {
        let m = &rules[i];
        proof {
            assert(first_problem(rs, i + 1) == rule_problem(rs, i as int));
            lemma_first_problem_stable(rs, i + 1, rs.len() as int);
        }
        if m.baseline_tool == m.candidate_tool {
            let e = usage_error(owned("matching.rules cannot map a tool to itself"));
            proof {
                assert(rule_problem(rs, i as int) == Some("matching.rules cannot map a tool to itself"@));
                assert(first_problem(rs, rs.len() as int) == Some(e.message@));
            }
            return Err(e);
        }
        if !m.baseline_tool.is_linter() || !m.candidate_tool.is_linter() {
            return Err(usage_error(owned("matching.rules only supports eslint, biome, and oxlint")));
        }
        if crate::text::is_blank(m.baseline.as_str()) || crate::text::is_blank(m.candidate.as_str()) {
            let e = usage_error(owned("matching.rules rule codes must not be empty"));
            proof {
                assert(rule_problem(rs, i as int) == Some("matching.rules rule codes must not be empty"@));
                assert(first_problem(rs, rs.len() as int) == Some(e.message@));
            }
            return Err(e);
        }
        let pair = endpoints_of(m);
        let mut duplicate = false;
        let mut k: usize = 0;
        while k < pairs.len()
            invariant
                0 <= k <= pairs@.len(),
                duplicate == exists|j: int| 0 <= j < k && #[trigger] pair_views(pairs@)[j] == ((pair.0.0, pair.0.1@), (pair.1.0, pair.1.1@)),
            decreases pairs.len() - k,
        {
            let same = endpoint_eq(&pairs[k].0, &pair.0) && endpoint_eq(&pairs[k].1, &pair.1);
            proof {
                assert(pair_views(pairs@)[k as int] == ((pairs@[k as int].0.0, pairs@[k as int].0.1@), (pairs@[k as int].1.0, pairs@[k as int].1.1@)));
            }
            if same {
                duplicate = true;
            }
            k = k + 1;
        }
        let ghost p = endpoint_pair(rs[i as int]);
        proof {
            assert((exists|j: int| 0 <= j < i && #[trigger] endpoint_pair(rs[j]) == p) == duplicate) by {
                if duplicate {
                    let j = choose|j: int| 0 <= j < pairs@.len() && #[trigger] pair_views(pairs@)[j] == ((pair.0.0, pair.0.1@), (pair.1.0, pair.1.1@));
                    assert(endpoint_pair(rs[j]) == p);
                }
                if exists|j: int| 0 <= j < i && #[trigger] endpoint_pair(rs[j]) == p {
                    let j = choose|j: int| 0 <= j < i && #[trigger] endpoint_pair(rs[j]) == p;
                    assert(pair_views(pairs@)[j] == endpoint_pair(rs[j]));
                }
            }
        }
        if duplicate {
            let mut message = owned("duplicate matching.rules mapping: ");
            push_str(&mut message, pair.0.0.config_key().as_str());
            push_str(&mut message, ":");
            push_str(&mut message, pair.0.1.as_str());
            push_str(&mut message, " <-> ");
            push_str(&mut message, pair.1.0.config_key().as_str());
            push_str(&mut message, ":");
            push_str(&mut message, pair.1.1.as_str());
            proof {
                assert(message@ =~= "duplicate matching.rules mapping: "@ + tool_config_key(p.0.0) + ":"@ + p.0.1 + " <-> "@
                    + tool_config_key(p.1.0) + ":"@ + p.1.1);
            }
            return Err(usage_error(message));
        }
        let forward = find_conflict(&pairs, &pair.0, &pair.1);
        proof {
            assert(forward == conflicts(rs, i as int, p.0, p.1)) by {
                if forward {
                    let j = choose|j: int| 0 <= j < pairs@.len() && {
                        let q = #[trigger] pair_views(pairs@)[j];
                        (q.0 == (pair.0.0, pair.0.1@) && q.1.0 == pair.1.0 && q.1.1 != pair.1.1@) || (q.1 == (pair.0.0, pair.0.1@) && q.0.0 == pair.1.0 && q.0.1 != pair.1.1@)
                    };
                    assert(endpoint_pair(rs[j]) == pair_views(pairs@)[j]);
                }
                if conflicts(rs, i as int, p.0, p.1) {
                    let j = choose|j: int| 0 <= j < i && {
                        let q = #[trigger] endpoint_pair(rs[j]);
                        (q.0 == p.0 && q.1.0 == p.1.0 && q.1.1 != p.1.1) || (q.1 == p.0 && q.0.0 == p.1.0 && q.0.1 != p.1.1)
                    };
                    assert(pair_views(pairs@)[j] == endpoint_pair(rs[j]));
                }
            }
        }
        if forward {
            let mut message = owned("conflicting matching.rules mapping for ");
            push_str(&mut message, pair.0.0.config_key().as_str());
            push_str(&mut message, ":");
            push_str(&mut message, pair.0.1.as_str());
            proof {
                assert(message@ =~= "conflicting matching.rules mapping for "@ + tool_config_key(p.0.0) + ":"@ + p.0.1);
            }
            return Err(usage_error(message));
        }
        let backward = find_conflict(&pairs, &pair.1, &pair.0);
        proof {
            assert(backward == conflicts(rs, i as int, p.1, p.0)) by {
                if backward {
                    let j = choose|j: int| 0 <= j < pairs@.len() && {
                        let q = #[trigger] pair_views(pairs@)[j];
                        (q.0 == (pair.1.0, pair.1.1@) && q.1.0 == pair.0.0 && q.1.1 != pair.0.1@) || (q.1 == (pair.1.0, pair.1.1@) && q.0.0 == pair.0.0 && q.0.1 != pair.0.1@)
                    };
                    assert(endpoint_pair(rs[j]) == pair_views(pairs@)[j]);
                }
                if conflicts(rs, i as int, p.1, p.0) {
                    let j = choose|j: int| 0 <= j < i && {
                        let q = #[trigger] endpoint_pair(rs[j]);
                        (q.0 == p.1 && q.1.0 == p.0.0 && q.1.1 != p.0.1) || (q.1 == p.1 && q.0.0 == p.0.0 && q.0.1 != p.0.1)
                    };
                    assert(pair_views(pairs@)[j] == endpoint_pair(rs[j]));
                }
            }
        }
        if backward {
            let mut message = owned("conflicting matching.rules mapping for ");
            push_str(&mut message, pair.1.0.config_key().as_str());
            push_str(&mut message, ":");
            push_str(&mut message, pair.1.1.as_str());
            proof {
                assert(message@ =~= "conflicting matching.rules mapping for "@ + tool_config_key(p.1.0) + ":"@ + p.1.1);
            }
            return Err(usage_error(message));
        }
        let ghost before = pairs@;
        let ghost pv = ((pair.0.0, pair.0.1@), (pair.1.0, pair.1.1@));
        pairs.push(pair);
        proof {
            assert forall|j: int| 0 <= j < i + 1 implies #[trigger] pair_views(pairs@)[j] == endpoint_pair(rs[j]) by {
                if j < i {
                    assert(pairs@[j] == before[j]);
                    assert(pair_views(pairs@)[j] == pair_views(before)[j]);
                } else {
                    assert(pair_views(pairs@)[j] == pv);
                }
            }
        }
        i = i + 1;
    }
    Ok(())
}

/// The problem of a parsed configuration's version and execution limits, if any:
/// only version 1 is supported and both limits must be positive.
pub open spec fn settings_problem(config: Config) -> Option<Seq<char>> {
    if config.version != 1 {
        Some("unsupported concord.toml version "@ + decimal(config.version as nat) + "; expected version 1"@)
    } else if config.execution.timeout_seconds == 0 {
        Some("execution.timeout_seconds must be greater than zero"@)
    } else if config.execution.formatter_jobs == 0 {
        Some("execution.formatter_jobs must be greater than zero"@)
    } else {
        None
    }
}

/// Checks the version and the execution limits of a parsed configuration file.
pub fn check_settings(config: &Config) -> (r: Result<(), ConcordError>)
    ensures
        match r {
            Ok(()) => settings_problem(*config) is None,
            Err(e) => e.kind == ErrorKind::Usage && settings_problem(*config) == Some(e.message@),
        },
{
    if config.version != 1 {
        let mut message = owned("unsupported concord.toml version ");
        push_decimal(&mut message, config.version as u64);
        push_str(&mut message, "; expected version 1");
        return Err(usage_error(message));
    }
    if config.execution.timeout_seconds == 0 {
        return Err(usage_error(owned("execution.timeout_seconds must be greater than zero")));
    }
    if config.execution.formatter_jobs == 0 {
        return Err(usage_error(owned("execution.formatter_jobs must be greater than zero")));
    }
    Ok(())
}

/// The warnings of a configuration: the deprecated alias groups, when it uses them.
pub fn config_warnings(config: &Config) -> (r: Vec<String>)
    ensures
        crate::paths::views(r@) == if config.matching.aliases@.len() == 0 {
            Seq::<Seq<char>>::empty()
        } else {
            seq!["matching.aliases is deprecated; use matching.rules"@]
        },
{
    let mut r: Vec<String> = Vec::new();
    if config.matching.aliases.len() > 0 {
        r.push(owned("matching.aliases is deprecated; use matching.rules"));
    }
    proof {
        assert(crate::paths::views(r@) =~= if config.matching.aliases@.len() == 0 {
            Seq::<Seq<char>>::empty()
        } else {
            seq!["matching.aliases is deprecated; use matching.rules"@]
        });
    }
    r
}

/// The usage error of a configuration file that does not parse.
pub fn invalid_configuration(path: &str, error: &str) -> (r: ConcordError)
    ensures
        r.kind == ErrorKind::Usage,
        r.message@ == "invalid Concord configuration\npath: "@ + path@ + "\nerror: "@ + error@,
{
    let mut message = owned("invalid Concord configuration\npath: ");
    push_str(&mut message, path);
    push_str(&mut message, "\nerror: ");
    push_str(&mut message, error);
    usage_error(message)
}

/// The usage error of `init` on a path that already exists without `--force`.
pub fn existing_configuration(path: &str) -> (r: ConcordError)
    ensures
        r.kind == ErrorKind::Usage,
        r.message@ == path@ + " already exists; use --force to overwrite it"@,
{
    let mut message = owned(path);
    push_str(&mut message, " already exists; use --force to overwrite it");
    usage_error(message)
}

/// A configuration ready for use: the settings, their compiled capability
/// patterns, the project root, the file it came from, and warnings about it.
#[derive(Debug)]
pub struct LoadedConfig {
    pub config: Config,
    pub capabilities: CapabilityCatalog,
    pub root: String,
    pub path: Option<String>,
    pub warnings: Vec<String>,
}

/// The first problem of a configuration: of its settings when it was read from
/// a file, then of its rule mappings, then of its capability patterns.
pub open spec fn load_problem(config: Config, from_file: bool) -> Option<Seq<char>> {
    if from_file && settings_problem(config) is Some {
        settings_problem(config)
    } else if first_problem(config.matching.rules@, config.matching.rules@.len() as int) is Some {
        first_problem(config.matching.rules@, config.matching.rules@.len() as int)
    } else {
        catalog_error_from(config, 0)
    }
}

impl LoadedConfig {
    /// Checks a configuration, read from the file `path` or the default one when
    /// there is none, and compiles its patterns.
    pub fn new(config: Config, root: String, path: Option<String>) -> (r: Result<Self, ConcordError>)
        ensures
            load_problem(config, path is Some) matches Some(m) ==> (r matches Err(e) && e.kind == ErrorKind::Usage
                && e.message@ == m),
            load_problem(config, path is Some) is None ==> (r matches Ok(l) && l.config == config && l.root == root
                && l.path == path),
            r matches Ok(l) ==> crate::paths::views(l.warnings@) == if config.matching.aliases@.len() == 0 {
                Seq::<Seq<char>>::empty()
            } else {
                seq!["matching.aliases is deprecated; use matching.rules"@]
            },
            r matches Ok(l) ==> forall|t: Tool| {
                &&& #[trigger] l.capabilities.includes_of(t) == string_views(tool_config(config.tools, t).includes@)
                &&& l.capabilities.exclude_of(t) == string_views(tool_config(config.tools, t).exclude@)
                &&& l.capabilities.unsupported_of(t) == string_views(tool_config(config.tools, t).unsupported@)
            },
    {
        if path.is_some() {
            match check_settings(&config) {
                Err(e) => return Err(e),
                Ok(()) => {},
            }
        }
        match validate_rule_mappings(&config) {
            Err(e) => return Err(e),
            Ok(()) => {},
        }
        let capabilities = match CapabilityCatalog::new(&config) {
            Err(e) => return Err(e),
            Ok(c) => c,
        };
        let warnings = config_warnings(&config);
        let ghost settings = config;
        let l = LoadedConfig { config, capabilities, root, path, warnings };
        assert forall|t: Tool| {
            &&& #[trigger] l.capabilities.includes_of(t) == string_views(tool_config(settings.tools, t).includes@)
            &&& l.capabilities.exclude_of(t) == string_views(tool_config(settings.tools, t).exclude@)
            &&& l.capabilities.unsupported_of(t) == string_views(tool_config(settings.tools, t).unsupported@)
        } by {
            assert(l.capabilities.includes_of(t) == string_views(tool_config(settings.tools, t).includes@));
        }
        Ok(l)
    }
}

} // verus!
