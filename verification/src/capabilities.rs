//! What each tool can handle, and the comparison plan built from it.
use vstd::prelude::*;

use crate::config::{string_views, tool_config, Config, ToolConfig};
use crate::error::{ConcordError, ErrorKind};
use crate::model::{opt_view, tool_config_key, tool_rank, Tool};
use crate::paths::{normalize_path, path_segments, segments, spec_normalize_path};
use crate::order::{key_order, stable_sort, KeyPart, Keyed};
use crate::text::{Order, chars_of, is_white, is_whitespace, lower_seq, str_eq, string_from_range, to_ascii_lowercase};

verus! {

/// Whether a tool handles a file.
#[derive(Debug, Clone, Copy, PartialEq, Eq, Structural)]
pub enum CapabilityStatus {
    Supported,
    Unsupported,
    Unknown,
}

/// Where a capability decision comes from.
#[derive(Debug, Clone, Copy, PartialEq, Eq, Structural)]
pub enum CapabilitySource {
    BuiltIn,
    Configuration,
    Unknown,
}

/// A capability decision with its reason.
#[derive(Debug)]
pub struct CapabilityDecision {
    pub status: CapabilityStatus,
    pub reason: Option<String>,
    pub source: CapabilitySource,
}

/// What happens when files are unsupported by one of the tools.
#[derive(Debug, Clone, Copy, PartialEq, Eq, Structural)]
pub enum UnsupportedPolicy {
    Ignore,
    Difference,
    Error,
}

/// The last component of a path, unless the path ends in `..` or has none
/// (`Path::file_name`).
pub open spec fn file_name(p: Seq<char>) -> Option<Seq<char>> {
    let s = segments(p);
    if s.len() == 0 || s.last() == ".."@ {
        None
    } else {
        Some(s.last())
    }
}

/// The position of the last `.` in `s`, or -1.
pub open spec fn last_dot(s: Seq<char>) -> int
    decreases s.len(),
{
    if s.len() == 0 {
        -1
    } else if s.last() == '.' {
        s.len() - 1
    } else {
        last_dot(s.drop_last())
    }
}

/// The text after the last `.` of the file name, unless the name has no `.` or
/// only a leading one (`Path::extension`).
pub open spec fn extension(p: Seq<char>) -> Option<Seq<char>> {
    match file_name(p) {
        Some(n) => if last_dot(n) > 0 {
            Some(n.subrange(last_dot(n) + 1, n.len() as int))
        } else {
            None
        },
        None => None,
    }
}

/// The extensions of JavaScript and TypeScript sources.
pub open spec fn script_extension(e: Seq<char>) -> bool {
    ||| e == "js"@
    ||| e == "jsx"@
    ||| e == "mjs"@
    ||| e == "cjs"@
    ||| e == "ts"@
    ||| e == "tsx"@
    ||| e == "mts"@
    ||| e == "cts"@
}

/// The extensions that the built-in adapter of `tool` handles.
pub open spec fn lists_extension(tool: Tool, e: Seq<char>) -> bool {
    match tool {
        Tool::Eslint | Tool::Oxlint => script_extension(e),
        _ => script_extension(e) || e == "json"@ || e == "jsonc"@,
    }
}

/// Characters that separate the words of a version text.
pub open spec fn version_separator(c: char) -> bool {
    is_white(c) || c == 'v'
}

/// The version text has the word `0.60.0` at position `i`.
pub open spec fn known_version_at(v: Seq<char>, i: int) -> bool {
    &&& 0 <= i
    &&& i + 6 <= v.len()
    &&& v.subrange(i, i + 6) == "0.60.0"@
    &&& (i == 0 || version_separator(v[i - 1]))
    &&& (i + 6 == v.len() || version_separator(v[i + 6]))
}

/// The version text names Oxfmt 0.60.0.
pub open spec fn names_known_version(v: Seq<char>) -> bool {
    exists|i: int| #[trigger] known_version_at(v, i)
}

/// A version is known and names Oxfmt 0.60.0.
pub open spec fn is_known_version(version: Option<Seq<char>>) -> bool {
    match version {
        Some(v) => names_known_version(v),
        None => false,
    }
}

/// The built-in lockfile rule of Oxfmt applies.
pub open spec fn is_oxfmt_lockfile(tool: Tool, path: Seq<char>) -> bool {
    tool == Tool::Oxfmt && file_name(path) == Some("package-lock.json"@)
}

/// The status that the built-in rules give.
pub open spec fn builtin_status(tool: Tool, path: Seq<char>, version: Option<Seq<char>>) -> CapabilityStatus {
    if is_oxfmt_lockfile(tool, path) {
        if is_known_version(version) {
            CapabilityStatus::Unsupported
        } else {
            CapabilityStatus::Unknown
        }
    } else if lists_extension(tool, lower_seq(extension(path).unwrap_or(Seq::empty()))) {
        CapabilityStatus::Supported
    } else {
        CapabilityStatus::Unknown
    }
}

/// The reason that goes with each built-in status.
pub open spec fn builtin_reason(status: CapabilityStatus) -> Seq<char> {
    match status {
        CapabilityStatus::Unsupported => "Oxfmt 0.60.0 does not support package-lock.json via stdin"@,
        CapabilityStatus::Supported => "file extension is supported by the built-in adapter"@,
        CapabilityStatus::Unknown => "support is not known; Concord will try the tool"@,
    }
}

/// The source that goes with each built-in status.
pub open spec fn builtin_source(status: CapabilityStatus) -> CapabilitySource {
    match status {
        CapabilityStatus::Unknown => CapabilitySource::Unknown,
        _ => CapabilitySource::BuiltIn,
    }
}

impl CapabilityDecision {
    fn supported() -> (r: Self)
        ensures
            r.status == CapabilityStatus::Supported,
            opt_view(r.reason) == Some(builtin_reason(CapabilityStatus::Supported)),
            r.source == CapabilitySource::BuiltIn,
    {
        CapabilityDecision {
            status: CapabilityStatus::Supported,
            reason: Some("file extension is supported by the built-in adapter".to_owned()),
            source: CapabilitySource::BuiltIn,
        }
    }

    fn unknown() -> (r: Self)
        ensures
            r.status == CapabilityStatus::Unknown,
            opt_view(r.reason) == Some(builtin_reason(CapabilityStatus::Unknown)),
            r.source == CapabilitySource::Unknown,
    {
        CapabilityDecision {
            status: CapabilityStatus::Unknown,
            reason: Some("support is not known; Concord will try the tool".to_owned()),
            source: CapabilitySource::Unknown,
        }
    }
}

/// The file name of a path.
pub(crate) fn file_name_of(path: &str) -> (r: Option<String>)
    ensures
        opt_view(r) == file_name(path@),
{
    let segs = path_segments(path);
    proof {
        assert(segs@.map_values(|s: String| s@).len() == segs@.len());
    }
    if segs.len() == 0 {
        return None;
    }
    let last = &segs[segs.len() - 1];
    proof {
        assert(segments(path@).last() == last@);
    }
    if str_eq(last.as_str(), "..") {
        None
    } else {
        Some(last.clone())
    }
}

/// The position of the last `.` of a text, if it has one.
fn last_dot_of(v: &Vec<char>) -> (r: Option<usize>)
    ensures
        match r {
            Some(d) => d == last_dot(v@) && d < v@.len() <= usize::MAX,
            None => last_dot(v@) == -1,
        },
{
    let mut i: usize = v.len();
    proof {
        assert(v@.subrange(0, i as int) =~= v@);
    }
    while i > 0 && v[i - 1] != '.'
        invariant
            i <= v@.len(),
            last_dot(v@) == last_dot(v@.subrange(0, i as int)),
        decreases i,
    {
        proof {
            assert(v@.subrange(0, i as int).drop_last() =~= v@.subrange(0, i - 1));
        }
        i = i - 1;
    }
    proof {
        if i > 0 {
            assert(v@.subrange(0, i as int).last() == '.');
        } else {
            assert(v@.subrange(0, 0) =~= Seq::<char>::empty());
        }
    }
    if i == 0 {
        None
    } else {
        Some(i - 1)
    }
}

/// The extension of a path.
pub(crate) fn extension_of(path: &str) -> (r: Option<String>)
    ensures
        opt_view(r) == extension(path@),
{
    match file_name_of(path) {
        None => None,
        Some(name) => {
            let v = chars_of(name.as_str());
            match last_dot_of(&v) {
                Some(d) if d > 0 => Some(string_from_range(&v, d + 1, v.len())),
                _ => None,
            }
        },
    }
}

/// The file name of a path without its extension (`Path::file_stem`).
pub open spec fn file_stem(p: Seq<char>) -> Option<Seq<char>> {
    match file_name(p) {
        Some(n) => if last_dot(n) > 0 {
            Some(n.subrange(0, last_dot(n)))
        } else {
            Some(n)
        },
        None => None,
    }
}

/// The stem of a path.
pub(crate) fn file_stem_of(path: &str) -> (r: Option<String>)
    ensures
        opt_view(r) == file_stem(path@),
{
    match file_name_of(path) {
        None => None,
        Some(name) => {
            let v = chars_of(name.as_str());
            match last_dot_of(&v) {
                Some(d) if d > 0 => Some(string_from_range(&v, 0, d)),
                _ => Some(name),
            }
        },
    }
}

/// The extension of a path, or the empty text when it has none.
fn extension_or_empty(path: &str) -> (r: String)
    ensures
        r@ == extension(path@).unwrap_or(Seq::empty()),
{
    match extension_of(path) {
        Some(e) => e,
        None => String::new(),
    }
}

/// Whether the characters have the word `0.60.0` at position `i`.
fn known_version_at_exec(v: &Vec<char>, i: usize) -> (r: bool)
    requires
        i + 6 <= v@.len(),
    ensures
        r == known_version_at(v@, i as int),
{
    let n = v.len();
    proof {
        reveal_strlit("0.60.0");
    }
    let word = v[i] == '0' && v[i + 1] == '.' && v[i + 2] == '6' && v[i + 3] == '0' && v[i + 4]
        == '.' && v[i + 5] == '0';
    let before = i == 0 || is_whitespace(v[i - 1]) || v[i - 1] == 'v';
    let after = i + 6 == v.len() || is_whitespace(v[i + 6]) || v[i + 6] == 'v';
    proof {
        if word {
            assert(v@.subrange(i as int, i + 6) =~= "0.60.0"@);
        }
        if v@.subrange(i as int, i + 6) == "0.60.0"@ {
            assert(v@.subrange(i as int, i + 6)[0] == v@[i as int]);
            assert(v@.subrange(i as int, i + 6)[1] == v@[i + 1]);
            assert(v@.subrange(i as int, i + 6)[2] == v@[i + 2]);
            assert(v@.subrange(i as int, i + 6)[3] == v@[i + 3]);
            assert(v@.subrange(i as int, i + 6)[4] == v@[i + 4]);
            assert(v@.subrange(i as int, i + 6)[5] == v@[i + 5]);
        }
    }
    word && before && after
}

/// Whether the version text names Oxfmt 0.60.0 as one of its words (split at white
/// space and `v`).
fn exact_version(version: Option<&str>) -> (r: bool)
    ensures
        r == match version {
            Some(t) => names_known_version(t@),
            None => false,
        },
{
    match version {
        None => false,
        Some(text) => {
            let v = chars_of(text);
            if v.len() < 6 {
                proof {
                    assert forall|i: int| !known_version_at(v@, i) by {}
                }
                return false;
            }
            let last = v.len() - 6;
            let mut i: usize = 0;
            while i <= last
                invariant
                    version == Some(text),
                    v@ == text@,
                    6 <= v@.len() <= usize::MAX,
                    last == v@.len() - 6,
                    i <= last + 1,
                    forall|k: int| 0 <= k < i ==> !known_version_at(v@, k),
                decreases last + 1 - i,
            {
                if known_version_at_exec(&v, i) {
                    assert(known_version_at(text@, i as int));
                    assert(names_known_version(text@));
                    return true;
                }
                i = i + 1;
            }
            proof {
                assert forall|k: int| !known_version_at(v@, k) by {
                    if 0 <= k < i {
                    }
                }
            }
            false
        },
    }
}

/// Whether the lower-case extension is one the built-in adapter of `tool` handles.
fn lists_extension_exec(tool: Tool, e: &str) -> (r: bool)
    ensures
        r == lists_extension(tool, e@),
{
    let script = str_eq(e, "js") || str_eq(e, "jsx") || str_eq(e, "mjs") || str_eq(e, "cjs")
        || str_eq(e, "ts") || str_eq(e, "tsx") || str_eq(e, "mts") || str_eq(e, "cts");
    match tool {
        Tool::Eslint | Tool::Oxlint => script,
        _ => script || str_eq(e, "json") || str_eq(e, "jsonc"),
    }
}

/// The built-in capability of `tool` for a file: Oxfmt 0.60.0 cannot format
/// `package-lock.json` from stdin, known source extensions are supported, and
/// anything else is attempted.
pub fn capability_for_path(tool: Tool, path: &str, version: Option<&str>) -> (r: CapabilityDecision)
    ensures
        ({
            let v = match version {
                Some(t) => Some(t@),
                None => None,
            };
            let status = builtin_status(tool, path@, v);
            &&& r.status == status
            &&& opt_view(r.reason) == Some(builtin_reason(status))
            &&& r.source == builtin_source(status)
        }),
{
    if tool == Tool::Oxfmt {
        if let Some(name) = file_name_of(path) {
            if str_eq(name.as_str(), "package-lock.json") {
                if exact_version(version) {
                    return CapabilityDecision {
                        status: CapabilityStatus::Unsupported,
                        reason: Some(
                            "Oxfmt 0.60.0 does not support package-lock.json via stdin".to_owned(),
                        ),
                        source: CapabilitySource::BuiltIn,
                    };
                }
                return CapabilityDecision::unknown();
            }
        }
    }
    let ext = extension_or_empty(path);
    let lower = to_ascii_lowercase(ext.as_str());
    if lists_extension_exec(tool, lower.as_str()) {
        CapabilityDecision::supported()
    } else {
        CapabilityDecision::unknown()
    }
}

/// A compiled glob pattern of the `globset` crate.
#[verifier::external_type_specification]
#[verifier::external_body]
pub struct ExGlob(globset::Glob);

/// A compiled set of glob patterns of the `globset` crate.
#[verifier::external_type_specification]
#[verifier::external_body]
pub struct ExGlobSet(globset::GlobSet);

/// The error text of `globset::Glob::new` on a pattern, or `None` when it parses.
pub uninterp spec fn glob_parse_error(pattern: Seq<char>) -> Option<Seq<char>>;

/// The pattern that a `globset::Glob` was built from (`Glob::glob`).
pub uninterp spec fn glob_pattern(g: globset::Glob) -> Seq<char>;

/// The error text of `globset::GlobSet::new` on parsed patterns, or `None` when it builds.
pub uninterp spec fn glob_set_error(patterns: Seq<Seq<char>>) -> Option<Seq<char>>;

/// The patterns that a `globset::GlobSet` holds.
pub uninterp spec fn glob_set_patterns(s: globset::GlobSet) -> Seq<Seq<char>>;

/// Whether some pattern of the list matches the path (`GlobSet::is_match`).
pub uninterp spec fn glob_set_match(patterns: Seq<Seq<char>>, path: Seq<char>) -> bool;

/// Parses a glob pattern with `globset::Glob::new`; the error is its display text.
#[verifier::external_body]
fn parse_glob(pattern: &str) -> (r: Result<globset::Glob, String>)
    ensures
        match r {
            Ok(g) => glob_parse_error(pattern@) is None && glob_pattern(g) == pattern@,
            Err(e) => glob_parse_error(pattern@) == Some(e@),
        },
{
    globset::Glob::new(pattern).map_err(|error| error.to_string())
}

/// Builds a set from parsed patterns with `globset::GlobSet::new`, which succeeds on
/// an empty list; the error is its display text.
#[verifier::external_body]
fn build_glob_set(globs: Vec<globset::Glob>) -> (r: Result<globset::GlobSet, String>)
    ensures
        globs@.len() == 0 ==> r is Ok,
        match r {
            Ok(s) => glob_set_error(globs@.map_values(|g: globset::Glob| glob_pattern(g))) is None
                && glob_set_patterns(s) == globs@.map_values(|g: globset::Glob| glob_pattern(g)),
            Err(e) => glob_set_error(globs@.map_values(|g: globset::Glob| glob_pattern(g))) == Some(
                e@,
            ),
        },
{
    globset::GlobSet::new(globs).map_err(|error| error.to_string())
}

/// Whether some pattern of the set matches the path (`GlobSet::is_match`); an empty
/// set matches nothing.
#[verifier::external_body]
pub(crate) fn glob_set_is_match(set: &globset::GlobSet, path: &str) -> (r: bool)
    ensures
        r == glob_set_match(glob_set_patterns(*set), path@),
        glob_set_patterns(*set).len() == 0 ==> !r,
{
    set.is_match(path)
}

/// The first pattern that fails to parse, with its error text.
pub open spec fn first_parse_error(patterns: Seq<Seq<char>>) -> Option<(Seq<char>, Seq<char>)>
    decreases patterns.len(),
{
    if patterns.len() == 0 {
        None
    } else {
        match glob_parse_error(patterns[0]) {
            Some(e) => Some((patterns[0], e)),
            None => first_parse_error(patterns.drop_first()),
        }
    }
}

/// The error message of compiling the patterns of one configuration field, if any.
pub open spec fn group_error(field: Seq<char>, patterns: Seq<Seq<char>>) -> Option<Seq<char>> {
    match first_parse_error(patterns) {
        Some((p, e)) => Some("invalid glob in "@ + field + ": `"@ + p + "`\nerror: "@ + e),
        None => match glob_set_error(patterns) {
            Some(e) => Some("failed to compile globs in "@ + field + ": "@ + e),
            None => None,
        },
    }
}

/// The name of a pattern field of a tool's configuration.
pub open spec fn field_name(tool: Tool, field: Seq<char>) -> Seq<char> {
    "tools."@ + tool_config_key(tool) + "."@ + field
}

/// The first error of compiling a tool's three pattern fields, in the order include,
/// exclude, unsupported.
pub open spec fn tool_patterns_error(tool: Tool, c: ToolConfig) -> Option<Seq<char>> {
    match group_error(field_name(tool, "include"@), string_views(c.includes@)) {
        Some(e) => Some(e),
        None => match group_error(field_name(tool, "exclude"@), string_views(c.exclude@)) {
            Some(e) => Some(e),
            None => group_error(field_name(tool, "unsupported"@), string_views(c.unsupported@)),
        },
    }
}

/// The tools in declaration order.
pub open spec fn all_tools() -> Seq<Tool> {
    seq![Tool::Eslint, Tool::Biome, Tool::Oxlint, Tool::Prettier, Tool::Oxfmt]
}

/// The first error of compiling the patterns of the tools from index `k` on.
pub open spec fn catalog_error_from(config: Config, k: int) -> Option<Seq<char>>
    decreases 5 - k,
{
    if k < 0 || k >= 5 {
        None
    } else {
        match tool_patterns_error(all_tools()[k], tool_config(config.tools, all_tools()[k])) {
            Some(e) => Some(e),
            None => catalog_error_from(config, k + 1),
        }
    }
}

/// The compiled patterns of one tool.
#[derive(Debug)]
struct ToolPatterns {
    includes: globset::GlobSet,
    has_include: bool,
    exclude: globset::GlobSet,
    unsupported: globset::GlobSet,
}

/// The compiled patterns match the tool's configuration.
spec fn compiled_from(p: ToolPatterns, c: ToolConfig) -> bool {
    &&& glob_set_patterns(p.includes) == string_views(c.includes@)
    &&& glob_set_patterns(p.exclude) == string_views(c.exclude@)
    &&& glob_set_patterns(p.unsupported) == string_views(c.unsupported@)
    &&& p.has_include == (c.includes@.len() > 0)
}

/// Parses every pattern and builds the set, reporting the first failure as a usage
/// error that names the configuration field.
pub(crate) fn compile_globs(patterns: &Vec<String>, field: &str) -> (r: Result<globset::GlobSet, ConcordError>)
    ensures
        match r {
            Ok(s) => group_error(field@, string_views(patterns@)) is None && glob_set_patterns(s)
                == string_views(patterns@),
            Err(e) => e.kind == ErrorKind::Usage && group_error(field@, string_views(patterns@))
                == Some(e.message@),
        },
{
    let ghost pv = string_views(patterns@);
    let mut globs: Vec<globset::Glob> = Vec::new();
    let mut i: usize = 0;
    proof {
        assert(pv.subrange(0, pv.len() as int) =~= pv);
    }
    while i < patterns.len()
        invariant
            0 <= i <= patterns@.len(),
            pv == string_views(patterns@),
            globs@.len() == i,
            forall|k: int| 0 <= k < i ==> glob_pattern(#[trigger] globs@[k]) == pv[k],
            first_parse_error(pv) == first_parse_error(pv.subrange(i as int, pv.len() as int)),
        decreases patterns.len() - i,
    {
        let pattern = &patterns[i];
        proof {
            assert(pv.subrange(i as int, pv.len() as int)[0] == pattern@);
            assert(pv.subrange(i as int, pv.len() as int).drop_first() =~= pv.subrange(i + 1, pv.len() as int));
        }
        match parse_glob(pattern.as_str()) {
            Ok(g) => {
                globs.push(g);
            },
            Err(error) => {
                let mut message = crate::text::owned("invalid glob in ");
                crate::text::push_str(&mut message, field);
                crate::text::push_str(&mut message, ": `");
                crate::text::push_str(&mut message, pattern.as_str());
                crate::text::push_str(&mut message, "`\nerror: ");
                crate::text::push_str(&mut message, error.as_str());
                let e = ConcordError { kind: ErrorKind::Usage, message };
                proof {
                    assert(e.message@ =~= "invalid glob in "@ + field@ + ": `"@ + pattern@ + "`\nerror: "@ + error@);
                }
                return Err(e);
            },
        }
        i = i + 1;
    }
    proof {
        assert(pv.subrange(pv.len() as int, pv.len() as int) =~= Seq::<Seq<char>>::empty());
        assert(globs@.map_values(|g: globset::Glob| glob_pattern(g)) =~= pv);
    }
    match build_glob_set(globs) {
        Ok(set) => Ok(set),
        Err(error) => {
            let mut message = crate::text::owned("failed to compile globs in ");
            crate::text::push_str(&mut message, field);
            crate::text::push_str(&mut message, ": ");
            crate::text::push_str(&mut message, error.as_str());
            let e = ConcordError { kind: ErrorKind::Usage, message };
            proof {
                assert(e.message@ =~= "failed to compile globs in "@ + field@ + ": "@ + error@);
            }
            Err(e)
        },
    }
}

/// The name of one pattern field of a tool (`tools.<key>.<field>`).
fn field_name_exec(tool: Tool, field: &str) -> (r: String)
    ensures
        r@ == field_name(tool, field@),
{
    let mut r = crate::text::owned("tools.");
    let key = tool.config_key();
    crate::text::push_str(&mut r, key.as_str());
    crate::text::push_str(&mut r, ".");
    crate::text::push_str(&mut r, field);
    proof {
        assert(r@ =~= field_name(tool, field@));
    }
    r
}

/// Compiles the include, exclude and unsupported patterns of one tool.
fn compile_tool_patterns(tool: Tool, config: &ToolConfig) -> (r: Result<ToolPatterns, ConcordError>)
    ensures
        match r {
            Ok(p) => tool_patterns_error(tool, *config) is None && compiled_from(p, *config),
            Err(e) => e.kind == ErrorKind::Usage && tool_patterns_error(tool, *config) == Some(
                e.message@,
            ),
        },
{
    let includes = match compile_globs(&config.includes, field_name_exec(tool, "include").as_str()) {
        Ok(s) => s,
        Err(e) => return Err(e),
    };
    let exclude = match compile_globs(&config.exclude, field_name_exec(tool, "exclude").as_str()) {
        Ok(s) => s,
        Err(e) => return Err(e),
    };
    let unsupported = match compile_globs(
        &config.unsupported,
        field_name_exec(tool, "unsupported").as_str(),
    ) {
        Ok(s) => s,
        Err(e) => return Err(e),
    };
    Ok(ToolPatterns { includes, has_include: config.includes.len() > 0, exclude, unsupported })
}

/// The compiled capability patterns of every tool.
#[derive(Debug)]
pub struct CapabilityCatalog {
    patterns: Vec<ToolPatterns>,
}

impl CapabilityCatalog {
    /// One entry per tool, in declaration order, with its include flag.
    #[verifier::type_invariant]
    spec fn inv(self) -> bool {
        &&& self.patterns@.len() == 5
        &&& forall|k: int| 0 <= k < 5 ==> (#[trigger] self.patterns@[k]).has_include == (
            glob_set_patterns(self.patterns@[k].includes).len() > 0)
    }

    /// The include patterns of `tool`.
    pub closed spec fn includes_of(self, tool: Tool) -> Seq<Seq<char>> {
        glob_set_patterns(self.patterns@[tool_rank(tool)].includes)
    }

    /// The exclude patterns of `tool`.
    pub closed spec fn exclude_of(self, tool: Tool) -> Seq<Seq<char>> {
        glob_set_patterns(self.patterns@[tool_rank(tool)].exclude)
    }

    /// The patterns that `tool` is declared not to support.
    pub closed spec fn unsupported_of(self, tool: Tool) -> Seq<Seq<char>> {
        glob_set_patterns(self.patterns@[tool_rank(tool)].unsupported)
    }

    /// Compiles the capability patterns of every tool; the first invalid pattern, in
    /// tool order and then include, exclude, unsupported, is a usage error.
    pub fn new(config: &Config) -> (r: Result<Self, ConcordError>)
        ensures
            match r {
                Ok(c) => catalog_error_from(*config, 0) is None && forall|t: Tool| {
                    &&& #[trigger] c.includes_of(t) == string_views(tool_config(config.tools, t).includes@)
                    &&& c.exclude_of(t) == string_views(tool_config(config.tools, t).exclude@)
                    &&& c.unsupported_of(t) == string_views(tool_config(config.tools, t).unsupported@)
                },
                Err(e) => e.kind == ErrorKind::Usage && catalog_error_from(*config, 0) == Some(
                    e.message@,
                ),
            },
    {
        let tools = Tool::all();
        let mut patterns: Vec<ToolPatterns> = Vec::new();
        let mut k: usize = 0;
        while k < 5
            invariant
                0 <= k <= 5,
                tools@ == all_tools(),
                patterns@.len() == k,
                forall|j: int| 0 <= j < k ==> compiled_from(#[trigger] patterns@[j], tool_config(config.tools, all_tools()[j])),
                catalog_error_from(*config, 0) == catalog_error_from(*config, k as int),
            decreases 5 - k,
        {
            let tool = tools[k];
            match compile_tool_patterns(tool, config.tools.get(tool)) {
                Ok(p) => patterns.push(p),
                Err(e) => return Err(e),
            }
            k = k + 1;
        }
        let c = CapabilityCatalog { patterns };
        proof {
            assert forall|t: Tool| {
                &&& #[trigger] c.includes_of(t) == string_views(tool_config(config.tools, t).includes@)
                &&& c.exclude_of(t) == string_views(tool_config(config.tools, t).exclude@)
                &&& c.unsupported_of(t) == string_views(tool_config(config.tools, t).unsupported@)
            } by {
                assert(all_tools()[tool_rank(t)] == t);
            }
        }
        Ok(c)
    }
}

/// The view of an optional string slice.
pub open spec fn opt_str_view(o: Option<&str>) -> Option<Seq<char>> {
    match o {
        Some(t) => Some(t@),
        None => None,
    }
}

/// How a tool stands towards one file of the plan.
#[derive(Debug, Clone, Copy, PartialEq, Eq, Structural)]
pub enum PlannedToolStatus {
    Supported,
    Unsupported,
    Unknown,
    Skipped,
}

/// Supported and unknown files are run; the others are not.
pub open spec fn spec_is_comparable(s: PlannedToolStatus) -> bool {
    s == PlannedToolStatus::Supported || s == PlannedToolStatus::Unknown
}

impl PlannedToolStatus {
    /// Whether the tool runs on the file.
    pub fn is_comparable(self) -> (r: bool)
        ensures
            r == spec_is_comparable(self),
    {
        match self {
            PlannedToolStatus::Supported | PlannedToolStatus::Unknown => true,
            _ => false,
        }
    }
}

/// The plan of one tool for one file.
#[derive(Debug)]
pub struct PlannedToolFile {
    pub tool: Tool,
    pub status: PlannedToolStatus,
    pub reason: Option<String>,
    pub source: CapabilitySource,
}

impl Clone for PlannedToolFile {
    fn clone(&self) -> (r: Self)
        ensures
            r == *self,
    {
        PlannedToolFile {
            tool: self.tool,
            status: self.status,
            reason: crate::model::clone_opt_string(&self.reason),
            source: self.source,
        }
    }
}

/// The status of a built-in decision as a plan status.
pub open spec fn planned_of(s: CapabilityStatus) -> PlannedToolStatus {
    match s {
        CapabilityStatus::Supported => PlannedToolStatus::Supported,
        CapabilityStatus::Unsupported => PlannedToolStatus::Unsupported,
        CapabilityStatus::Unknown => PlannedToolStatus::Unknown,
    }
}

/// The configured rule that decides the file, if one does: declared unsupported,
/// then excluded, then not included (when includes are given).
pub open spec fn configured_rule(c: CapabilityCatalog, tool: Tool, normalized: Seq<char>) -> Option<
    (PlannedToolStatus, Seq<char>),
> {
    if glob_set_match(c.unsupported_of(tool), normalized) {
        Some((PlannedToolStatus::Unsupported, "declared unsupported by configuration"@))
    } else if glob_set_match(c.exclude_of(tool), normalized) {
        Some((PlannedToolStatus::Skipped, "excluded by configuration"@))
    } else if c.includes_of(tool).len() > 0 && !glob_set_match(c.includes_of(tool), normalized) {
        Some((PlannedToolStatus::Skipped, "not included by configuration"@))
    } else {
        None
    }
}

/// The plan that the catalog gives `tool` for `path` under `root`: configured rules
/// first, on the normalized path, then the built-in capability.
pub open spec fn plans_tool(
    f: PlannedToolFile,
    c: CapabilityCatalog,
    root: Seq<char>,
    tool: Tool,
    path: Seq<char>,
    version: Option<Seq<char>>,
) -> bool {
    &&& f.tool == tool
    &&& match configured_rule(c, tool, spec_normalize_path(root, path)) {
        Some((status, reason)) => {
            &&& f.status == status
            &&& opt_view(f.reason) == Some(reason)
            &&& f.source == CapabilitySource::Configuration
        },
        None => {
            let b = builtin_status(tool, path, version);
            &&& f.status == planned_of(b)
            &&& opt_view(f.reason) == Some(builtin_reason(b))
            &&& f.source == builtin_source(b)
        },
    }
}

impl CapabilityCatalog {
    /// Plans `tool` for one file.
    pub fn classify(&self, root: &str, tool: Tool, path: &str, version: Option<&str>) -> (r: PlannedToolFile)
        ensures
            plans_tool(r, *self, root@, tool, path@, opt_str_view(version)),
    {
        proof {
            use_type_invariant(self);
        }
        let normalized = normalize_path(root, path);
        let patterns = &self.patterns[tool.rank() as usize];
        if glob_set_is_match(&patterns.unsupported, normalized.as_str()) {
            return PlannedToolFile {
                tool,
                status: PlannedToolStatus::Unsupported,
                reason: Some("declared unsupported by configuration".to_owned()),
                source: CapabilitySource::Configuration,
            };
        }
        if glob_set_is_match(&patterns.exclude, normalized.as_str()) {
            return PlannedToolFile {
                tool,
                status: PlannedToolStatus::Skipped,
                reason: Some("excluded by configuration".to_owned()),
                source: CapabilitySource::Configuration,
            };
        }
        if patterns.has_include && !glob_set_is_match(&patterns.includes, normalized.as_str()) {
            return PlannedToolFile {
                tool,
                status: PlannedToolStatus::Skipped,
                reason: Some("not included by configuration".to_owned()),
                source: CapabilitySource::Configuration,
            };
        }
        proof {
            if self.includes_of(tool).len() > 0 {
                assert(patterns.has_include);
            }
        }
        let decision = capability_for_path(tool, path, version);
        PlannedToolFile {
            tool,
            status: match decision.status {
                CapabilityStatus::Supported => PlannedToolStatus::Supported,
                CapabilityStatus::Unsupported => PlannedToolStatus::Unsupported,
                CapabilityStatus::Unknown => PlannedToolStatus::Unknown,
            },
            reason: decision.reason,
            source: decision.source,
        }
    }
}

/// The plan of both tools for one file.
#[derive(Debug)]
pub struct PlannedFile {
    pub path: String,
    pub baseline: PlannedToolFile,
    pub candidate: PlannedToolFile,
}

impl Clone for PlannedFile {
    fn clone(&self) -> (r: Self)
        ensures
            r == *self,
    {
        PlannedFile {
            path: self.path.clone(),
            baseline: self.baseline.clone(),
            candidate: self.candidate.clone(),
        }
    }
}

impl Keyed for PlannedFile {
    open spec fn key(&self) -> Seq<KeyPart> {
        seq![KeyPart::Text(self.path@)]
    }

    fn compare_key(&self, other: &Self) -> (r: Order) {
        let r = crate::text::compare_text(self.path.as_str(), other.path.as_str());
        proof {
            reveal_with_fuel(key_order, 2);
            assert(self.key().drop_first() =~= Seq::<KeyPart>::empty());
            assert(other.key().drop_first() =~= Seq::<KeyPart>::empty());
        }
        r
    }
}

/// Which side of the comparison a tool is on.
#[derive(Debug, Clone, Copy, PartialEq, Eq, Structural)]
pub enum ComparisonSide {
    Baseline,
    Candidate,
}

/// The rank of a side: baseline first.
pub open spec fn side_rank(s: ComparisonSide) -> int {
    match s {
        ComparisonSide::Baseline => 0,
        ComparisonSide::Candidate => 1,
    }
}

/// A file that one tool does not handle, and why.
#[derive(Debug)]
pub struct FileDisposition {
    pub path: String,
    pub side: ComparisonSide,
    pub tool: Tool,
    pub reason: String,
    pub source: CapabilitySource,
}

impl Clone for FileDisposition {
    fn clone(&self) -> (r: Self)
        ensures
            r == *self,
    {
        FileDisposition {
            path: self.path.clone(),
            side: self.side,
            tool: self.tool,
            reason: self.reason.clone(),
            source: self.source,
        }
    }
}

impl Keyed for FileDisposition {
    /// By path, then side, then tool.
    open spec fn key(&self) -> Seq<KeyPart> {
        seq![
            KeyPart::Text(self.path@),
            KeyPart::Num(side_rank(self.side)),
            KeyPart::Num(tool_rank(self.tool)),
        ]
    }

    fn compare_key(&self, other: &Self) -> (r: Order) {
        let a = crate::text::compare_text(self.path.as_str(), other.path.as_str());
        let b = crate::text::compare_u64(
            if self.side == ComparisonSide::Baseline { 0 } else { 1 },
            if other.side == ComparisonSide::Baseline { 0 } else { 1 },
        );
        let c = crate::text::compare_u64(self.tool.rank() as u64, other.tool.rank() as u64);
        let r = crate::matching::chain(a, crate::matching::chain(b, c));
        proof {
            assert(self.key().drop_first().drop_first().drop_first() =~= Seq::<KeyPart>::empty());
            assert(other.key().drop_first().drop_first().drop_first() =~= Seq::<KeyPart>::empty());
            reveal_with_fuel(key_order, 4);
        }
        r
    }
}

/// The plain value of a disposition.
pub open spec fn disposition_view(d: FileDisposition) -> (
    Seq<char>,
    ComparisonSide,
    Tool,
    Seq<char>,
    CapabilitySource,
) {
    (d.path@, d.side, d.tool, d.reason@, d.source)
}

/// The plain values of a list of dispositions.
pub open spec fn disposition_views(v: Seq<FileDisposition>) -> Seq<
    (Seq<char>, ComparisonSide, Tool, Seq<char>, CapabilitySource),
> {
    v.map_values(|d: FileDisposition| disposition_view(d))
}

/// The disposition that a tool plan gives the file, when its status is `status`.
pub open spec fn disposition_of(
    path: Seq<char>,
    side: ComparisonSide,
    planned: PlannedToolFile,
    status: PlannedToolStatus,
) -> Seq<(Seq<char>, ComparisonSide, Tool, Seq<char>, CapabilitySource)> {
    if planned.status == status {
        seq![
            (
                path,
                side,
                planned.tool,
                match opt_view(planned.reason) {
                    Some(r) => r,
                    None => "unspecified"@,
                },
                planned.source,
            ),
        ]
    } else {
        Seq::empty()
    }
}

/// The dispositions of status `status` of the planned files, baseline before candidate
/// for each file.
pub open spec fn dispositions(fs: Seq<PlannedFile>, status: PlannedToolStatus) -> Seq<
    (Seq<char>, ComparisonSide, Tool, Seq<char>, CapabilitySource),
>
    decreases fs.len(),
{
    if fs.len() == 0 {
        Seq::empty()
    } else {
        let f = fs.last();
        dispositions(fs.drop_last(), status) + disposition_of(
            f.path@,
            ComparisonSide::Baseline,
            f.baseline,
            status,
        ) + disposition_of(f.path@, ComparisonSide::Candidate, f.candidate, status)
    }
}

/// The paths of the planned files that both tools run on.
pub open spec fn comparable_of(fs: Seq<PlannedFile>) -> Seq<Seq<char>>
    decreases fs.len(),
{
    if fs.len() == 0 {
        Seq::empty()
    } else {
        let f = fs.last();
        let rest = comparable_of(fs.drop_last());
        if spec_is_comparable(f.baseline.status) && spec_is_comparable(f.candidate.status) {
            rest.push(f.path@)
        } else {
            rest
        }
    }
}

/// Whether a tool was found.
#[derive(Debug)]
pub struct ToolAvailability {
    pub tool: Tool,
    pub available: bool,
    pub executable: Option<String>,
    pub reason: Option<String>,
}

impl Keyed for ToolAvailability {
    open spec fn key(&self) -> Seq<KeyPart> {
        seq![KeyPart::Num(tool_rank(self.tool))]
    }

    fn compare_key(&self, other: &Self) -> (r: Order) {
        let r = crate::text::compare_u64(self.tool.rank() as u64, other.tool.rank() as u64);
        proof {
            reveal_with_fuel(key_order, 2);
            assert(self.key().drop_first() =~= Seq::<KeyPart>::empty());
            assert(other.key().drop_first() =~= Seq::<KeyPart>::empty());
        }
        r
    }
}

/// Records the plan of one side in the unsupported or skipped list.
fn collect_disposition(
    path: &str,
    side: ComparisonSide,
    planned: &PlannedToolFile,
    unsupported: &mut Vec<FileDisposition>,
    skipped: &mut Vec<FileDisposition>,
)
    ensures
        disposition_views(final(unsupported)@) == disposition_views(old(unsupported)@)
            + disposition_of(path@, side, *planned, PlannedToolStatus::Unsupported),
        disposition_views(final(skipped)@) == disposition_views(old(skipped)@) + disposition_of(
            path@,
            side,
            *planned,
            PlannedToolStatus::Skipped,
        ),
{
    let ghost u0 = disposition_views(unsupported@);
    let ghost s0 = disposition_views(skipped@);
    let is_unsupported = planned.status == PlannedToolStatus::Unsupported;
    let is_skipped = planned.status == PlannedToolStatus::Skipped;
    if !is_unsupported && !is_skipped {
        proof {
            assert(disposition_views(unsupported@) =~= u0 + Seq::empty());
            assert(disposition_views(skipped@) =~= s0 + Seq::empty());
        }
        return;
    }
    let reason = match &planned.reason {
        Some(r) => r.clone(),
        None => "unspecified".to_owned(),
    };
    let item = FileDisposition {
        path: crate::text::owned(path),
        side,
        tool: planned.tool,
        reason,
        source: planned.source,
    };
    if is_unsupported {
        unsupported.push(item);
        proof {
            assert(disposition_views(unsupported@) =~= u0 + disposition_of(path@, side, *planned, PlannedToolStatus::Unsupported));
            assert(disposition_views(skipped@) =~= s0 + Seq::empty());
        }
    } else {
        skipped.push(item);
        proof {
            assert(disposition_views(skipped@) =~= s0 + disposition_of(path@, side, *planned, PlannedToolStatus::Skipped));
            assert(disposition_views(unsupported@) =~= u0 + Seq::empty());
        }
    }
}

/// Which files each tool handles, which it does not, and why.
#[derive(Debug)]
pub struct ComparisonPlan {
    pub discovered: Vec<PlannedFile>,
    pub comparable: Vec<String>,
    pub unsupported: Vec<FileDisposition>,
    pub skipped: Vec<FileDisposition>,
    pub tools: Vec<ToolAvailability>,
}

/// The plan of every file, before sorting.
pub open spec fn plans_files(
    u: Seq<PlannedFile>,
    c: CapabilityCatalog,
    root: Seq<char>,
    files: Seq<String>,
    baseline: Tool,
    candidate: Tool,
    baseline_version: Option<Seq<char>>,
    candidate_version: Option<Seq<char>>,
) -> bool {
    &&& u.len() == files.len()
    &&& forall|i: int|
        0 <= i < u.len() ==> {
            &&& (#[trigger] u[i]).path@ == spec_normalize_path(root, files[i]@)
            &&& plans_tool(u[i].baseline, c, root, baseline, files[i]@, baseline_version)
            &&& plans_tool(u[i].candidate, c, root, candidate, files[i]@, candidate_version)
        }
}

impl ComparisonPlan {
    /// Plans every discovered file for both tools. Files are listed by normalized
    /// path, dispositions by path, side and tool, tools in declaration order; equal
    /// keys keep their order of arrival.
    pub fn build(
        root: &str,
        files: &Vec<String>,
        baseline: Tool,
        candidate: Tool,
        baseline_version: Option<&str>,
        candidate_version: Option<&str>,
        catalog: &CapabilityCatalog,
        tools: Vec<ToolAvailability>,
    ) -> (r: Self)
        ensures
            exists|u: Seq<PlannedFile>, cu: Seq<String>, uu: Seq<FileDisposition>, su: Seq<FileDisposition>| {
                &&& plans_files(
                    u,
                    *catalog,
                    root@,
                    files@,
                    baseline,
                    candidate,
                    opt_str_view(baseline_version),
                    opt_str_view(candidate_version),
                )
                &&& r.discovered@ == stable_sort(u)
                &&& crate::paths::views(cu) == comparable_of(u)
                &&& r.comparable@ == stable_sort(cu)
                &&& disposition_views(uu) == dispositions(u, PlannedToolStatus::Unsupported)
                &&& r.unsupported@ == stable_sort(uu)
                &&& disposition_views(su) == dispositions(u, PlannedToolStatus::Skipped)
                &&& r.skipped@ == stable_sort(su)
            },
            r.tools@ == stable_sort(tools@),
            (forall|i: int, j: int|
                0 <= i < j < files@.len() ==> spec_normalize_path(root@, (#[trigger] files@[i])@) != spec_normalize_path(
                    root@,
                    (#[trigger] files@[j])@,
                )) ==> r.comparable@.len() + disposition_paths(r.unsupported@).len() + disposition_paths(
                r.skipped@,
            ).difference(disposition_paths(r.unsupported@)).len() == r.discovered@.len(),
    {
        let mut discovered: Vec<PlannedFile> = Vec::new();
        let mut comparable: Vec<String> = Vec::new();
        let mut unsupported: Vec<FileDisposition> = Vec::new();
        let mut skipped: Vec<FileDisposition> = Vec::new();
        let ghost bv = opt_str_view(baseline_version);
        let ghost cv = opt_str_view(candidate_version);
        let mut i: usize = 0;
        while i < files.len()
            invariant
                0 <= i <= files@.len(),
                bv == opt_str_view(baseline_version),
                cv == opt_str_view(candidate_version),
                plans_files(discovered@, *catalog, root@, files@.take(i as int), baseline, candidate, bv, cv),
                crate::paths::views(comparable@) == comparable_of(discovered@),
                disposition_views(unsupported@) == dispositions(discovered@, PlannedToolStatus::Unsupported),
                disposition_views(skipped@) == dispositions(discovered@, PlannedToolStatus::Skipped),
            decreases files.len() - i,
        {
            let path = &files[i];
            let normalized = normalize_path(root, path.as_str());
            let baseline_plan = catalog.classify(root, baseline, path.as_str(), baseline_version);
            let candidate_plan = catalog.classify(root, candidate, path.as_str(), candidate_version);
            let ghost before = discovered@;
            let ghost cbefore = crate::paths::views(comparable@);
            if baseline_plan.status.is_comparable() && candidate_plan.status.is_comparable() {
                comparable.push(normalized.clone());
            }
            collect_disposition(
                normalized.as_str(),
                ComparisonSide::Baseline,
                &baseline_plan,
                &mut unsupported,
                &mut skipped,
            );
            collect_disposition(
                normalized.as_str(),
                ComparisonSide::Candidate,
                &candidate_plan,
                &mut unsupported,
                &mut skipped,
            );
            let planned = PlannedFile { path: normalized, baseline: baseline_plan, candidate: candidate_plan };
            discovered.push(planned);
            proof {
                assert(discovered@.drop_last() =~= before);
                assert(files@.take(i + 1).drop_last() =~= files@.take(i as int));
                assert(discovered@.last() == planned);
                if spec_is_comparable(planned.baseline.status) && spec_is_comparable(planned.candidate.status) {
                    assert(crate::paths::views(comparable@) =~= cbefore.push(planned.path@));
                } else {
                    assert(crate::paths::views(comparable@) =~= cbefore);
                }
                assert forall|k: int| 0 <= k < discovered@.len() implies {
                    &&& (#[trigger] discovered@[k]).path@ == spec_normalize_path(root@, files@.take(i + 1)[k]@)
                    &&& plans_tool(discovered@[k].baseline, *catalog, root@, baseline, files@.take(i + 1)[k]@, bv)
                    &&& plans_tool(discovered@[k].candidate, *catalog, root@, candidate, files@.take(i + 1)[k]@, cv)
                } by {
                    if k < i {
                        assert(discovered@[k] == before[k]);
                        assert(files@.take(i + 1)[k] == files@.take(i as int)[k]);
                    }
                }
            }
            i = i + 1;
        }
        proof {
            assert(files@.take(files@.len() as int) =~= files@);
        }
        let ghost u = discovered@;
        let ghost cu = comparable@;
        let ghost uu = unsupported@;
        let ghost su = skipped@;
        let discovered = crate::order::sort_by_key(discovered);
        let comparable = crate::order::sort_by_key(comparable);
        let unsupported = crate::order::sort_by_key(unsupported);
        let skipped = crate::order::sort_by_key(skipped);
        let tools = crate::order::sort_by_key(tools);
        let r = ComparisonPlan { discovered, comparable, unsupported, skipped, tools };
        proof {
            assert(plans_files(u, *catalog, root@, files@, baseline, candidate, bv, cv));
            if forall|i: int, j: int|
                0 <= i < j < files@.len() ==> spec_normalize_path(root@, (#[trigger] files@[i])@) != spec_normalize_path(
                    root@,
                    (#[trigger] files@[j])@,
                ) {
                assert forall|i: int, j: int| 0 <= i < j < u.len() implies (#[trigger] u[i]).path@ != (#[trigger] u[j]).path@ by {
                    assert(spec_normalize_path(root@, files@[i]@) != spec_normalize_path(root@, files@[j]@));
                }
                lemma_plan_counts_add_up(r, u, cu, uu, su);
            }
        }
        r
    }
}

/// The distinct paths of a list of dispositions.
pub open spec fn disposition_paths(v: Seq<FileDisposition>) -> Set<Seq<char>> {
    v.map_values(|d: FileDisposition| d.path@).to_set()
}

/// The paths of a list of dispositions, in order.
fn paths_of(v: &Vec<FileDisposition>) -> (r: Vec<String>)
    ensures
        r@.map_values(|s: String| s@) == v@.map_values(|d: FileDisposition| d.path@),
{
    let mut r: Vec<String> = Vec::new();
    let mut i: usize = 0;
    while i < v.len()
        invariant
            0 <= i <= v@.len(),
            r@.map_values(|s: String| s@) == v@.take(i as int).map_values(|d: FileDisposition| d.path@),
        decreases v.len() - i,
    {
        r.push(v[i].path.clone());
        proof {
            assert(v@.take(i + 1).map_values(|d: FileDisposition| d.path@) =~= v@.take(i as int).map_values(|d: FileDisposition| d.path@).push(v@[i as int].path@));
            assert(r@.map_values(|s: String| s@) =~= v@.take(i + 1).map_values(|d: FileDisposition| d.path@));
        }
        i = i + 1;
    }
    proof {
        assert(v@.take(v@.len() as int) =~= v@);
    }
    r
}

/// Whether some disposition of `v` concerns `path`.
fn has_path(v: &Vec<FileDisposition>, path: &str) -> (r: bool)
    ensures
        r == disposition_paths(v@).contains(path@),
{
    let mut i: usize = 0;
    while i < v.len()
        invariant
            0 <= i <= v@.len(),
            forall|k: int| 0 <= k < i ==> (#[trigger] v@[k]).path@ != path@,
        decreases v.len() - i,
    {
        if str_eq(v[i].path.as_str(), path) {
            assert(v@.map_values(|d: FileDisposition| d.path@)[i as int] == path@);
            return true;
        }
        i = i + 1;
    }
    proof {
        let pv = v@.map_values(|d: FileDisposition| d.path@);
        if disposition_paths(v@).contains(path@) {
            let k = choose|k: int| 0 <= k < pv.len() && pv[k] == path@;
            assert(v@[k].path@ == path@);
        }
    }
    false
}

/// The project-relative path joined onto the root (`Path::join`): an absolute path
/// replaces the root, and a separator is added when the root lacks one.
pub open spec fn join_path(root: Seq<char>, path: Seq<char>) -> Seq<char> {
    if crate::paths::is_absolute(path) {
        path
    } else if root.len() == 0 {
        path
    } else if root.last() == '/' {
        root + path
    } else {
        root + seq!['/'] + path
    }
}

impl ComparisonPlan {
    /// The number of discovered files.
    pub fn discovered_count(&self) -> (r: usize)
        ensures
            r == self.discovered@.len(),
    {
        self.discovered.len()
    }

    /// The number of files that both tools run on.
    pub fn comparable_count(&self) -> (r: usize)
        ensures
            r == self.comparable@.len(),
    {
        self.comparable.len()
    }

    /// The number of distinct files that some tool does not support.
    pub fn unsupported_count(&self) -> (r: usize)
        ensures
            r == disposition_paths(self.unsupported@).len(),
    {
        let paths = paths_of(&self.unsupported);
        crate::order::count_distinct_strings(paths)
    }

    /// The number of distinct skipped files that no tool declared unsupported.
    pub fn skipped_count(&self) -> (r: usize)
        ensures
            r == disposition_paths(self.skipped@).difference(disposition_paths(self.unsupported@)).len(),
    {
        let mut kept: Vec<String> = Vec::new();
        let mut i: usize = 0;
        while i < self.skipped.len()
            invariant
                0 <= i <= self.skipped@.len(),
                kept@.map_values(|s: String| s@).to_set() == disposition_paths(self.skipped@.take(i as int)).difference(disposition_paths(self.unsupported@)),
            decreases self.skipped.len() - i,
        {
            let ghost before = kept@.map_values(|s: String| s@);
            let path = &self.skipped[i].path;
            let ghost prefix = self.skipped@.take(i as int);
            let ghost next = self.skipped@.take(i + 1);
            proof {
                assert(next.map_values(|d: FileDisposition| d.path@) =~= prefix.map_values(|d: FileDisposition| d.path@).push(path@));
                prefix.map_values(|d: FileDisposition| d.path@).lemma_push_to_set_commute(path@);
            }
            if !has_path(&self.unsupported, path.as_str()) {
                kept.push(path.clone());
                proof {
                    assert(kept@.map_values(|s: String| s@) =~= before.push(path@));
                    before.lemma_push_to_set_commute(path@);
                }
            }
            proof {
                assert(kept@.map_values(|s: String| s@).to_set() =~= disposition_paths(next).difference(disposition_paths(self.unsupported@)));
            }
            i = i + 1;
        }
        proof {
            assert(self.skipped@.take(self.skipped@.len() as int) =~= self.skipped@);
        }
        crate::order::count_distinct_strings(kept)
    }

    /// The comparable files as paths under `root`.
    pub fn comparable_paths(&self, root: &str) -> (r: Vec<String>)
        ensures
            r@.len() == self.comparable@.len(),
            forall|i: int| 0 <= i < r@.len() ==> (#[trigger] r@[i])@ == join_path(root@, self.comparable@[i]@),
    {
        let mut r: Vec<String> = Vec::new();
        let mut i: usize = 0;
        while i < self.comparable.len()
            invariant
                0 <= i <= self.comparable@.len(),
                r@.len() == i,
                forall|k: int| 0 <= k < i ==> (#[trigger] r@[k])@ == join_path(root@, self.comparable@[k]@),
            decreases self.comparable.len() - i,
        {
            let path = self.comparable[i].as_str();
            let joined = join_path_exec(root, path);
            r.push(joined);
            i = i + 1;
        }
        r
    }
}

/// Joins a path onto a root (`Path::join`).
pub(crate) fn join_path_exec(root: &str, path: &str) -> (r: String)
    ensures
        r@ == join_path(root@, path@),
{
    let p = chars_of(path);
    if p.len() > 0 && p[0] == '/' {
        return crate::text::owned(path);
    }
    let rv = chars_of(root);
    if rv.len() == 0 {
        return crate::text::owned(path);
    }
    let mut r = crate::text::owned(root);
    if rv[rv.len() - 1] != '/' {
        crate::text::push_char(&mut r, '/');
    }
    crate::text::push_str(&mut r, path);
    proof {
        if rv@.last() != '/' {
            assert(root@.push('/') + path@ =~= root@ + seq!['/'] + path@);
        }
    }
    r
}


/// Whether a side of the planned file has the status.
pub open spec fn has_status(f: PlannedFile, status: PlannedToolStatus) -> bool {
    f.baseline.status == status || f.candidate.status == status
}

/// The paths of the planned files with a side of status `status`.
pub open spec fn status_paths(u: Seq<PlannedFile>, status: PlannedToolStatus) -> Set<Seq<char>>
    decreases u.len(),
{
    if u.len() == 0 {
        Set::empty()
    } else {
        let rest = status_paths(u.drop_last(), status);
        if has_status(u.last(), status) {
            rest.insert(u.last().path@)
        } else {
            rest
        }
    }
}

proof fn lemma_status_paths(u: Seq<PlannedFile>, status: PlannedToolStatus)
    ensures
        status_paths(u, status).finite(),
        forall|p: Seq<char>| #[trigger] status_paths(u, status).contains(p) <==> exists|i: int|
            0 <= i < u.len() && u[i].path@ == p && has_status(#[trigger] u[i], status),
    decreases u.len(),
{
    if u.len() > 0 {
        let init = u.drop_last();
        lemma_status_paths(init, status);
        assert forall|p: Seq<char>| #[trigger] status_paths(u, status).contains(p) <==> exists|i: int|
            0 <= i < u.len() && u[i].path@ == p && has_status(#[trigger] u[i], status) by {
            if status_paths(u, status).contains(p) {
                if status_paths(init, status).contains(p) {
                    let i = choose|i: int| 0 <= i < init.len() && init[i].path@ == p && has_status(#[trigger] init[i], status);
                    assert(u[i] == init[i]);
                } else {
                    assert(u[u.len() - 1] == u.last());
                }
            }
            if exists|i: int| 0 <= i < u.len() && u[i].path@ == p && has_status(#[trigger] u[i], status) {
                let i = choose|i: int| 0 <= i < u.len() && u[i].path@ == p && has_status(#[trigger] u[i], status);
                if i < u.len() - 1 {
                    assert(init[i] == u[i]);
                }
            }
        }
    }
}

/// Each planned file is counted once: as comparable, as having an unsupported side,
/// or as skipped without an unsupported side.
proof fn lemma_plan_count(u: Seq<PlannedFile>)
    requires
        forall|i: int, j: int| 0 <= i < j < u.len() ==> (#[trigger] u[i]).path@ != (#[trigger] u[j]).path@,
    ensures
        comparable_of(u).len() + status_paths(u, PlannedToolStatus::Unsupported).len() + status_paths(
            u,
            PlannedToolStatus::Skipped,
        ).difference(status_paths(u, PlannedToolStatus::Unsupported)).len() == u.len(),
    decreases u.len(),
{
    if u.len() == 0 {
        let e = Set::<Seq<char>>::empty();
        assert(e.difference(e) =~= e);
    } else {
        let init = u.drop_last();
        assert forall|i: int, j: int| 0 <= i < j < init.len() implies (#[trigger] init[i]).path@ != (#[trigger] init[j]).path@ by {
            assert(init[i] == u[i] && init[j] == u[j]);
        }
        lemma_plan_count(init);
        let f = u.last();
        let p = f.path@;
        let un = PlannedToolStatus::Unsupported;
        let sk = PlannedToolStatus::Skipped;
        lemma_status_paths(init, un);
        lemma_status_paths(init, sk);
        let u0 = status_paths(init, un);
        let s0 = status_paths(init, sk);
        assert(!u0.contains(p)) by {
            if u0.contains(p) {
                let i = choose|i: int| 0 <= i < init.len() && init[i].path@ == p && has_status(#[trigger] init[i], un);
                assert(u[i] == init[i]);
                assert(u[u.len() - 1] == f);
            }
        }
        assert(!s0.contains(p)) by {
            if s0.contains(p) {
                let i = choose|i: int| 0 <= i < init.len() && init[i].path@ == p && has_status(#[trigger] init[i], sk);
                assert(u[i] == init[i]);
                assert(u[u.len() - 1] == f);
            }
        }
        let d0 = s0.difference(u0);
        assert(d0.finite());
        assert(!d0.contains(p));
        if spec_is_comparable(f.baseline.status) && spec_is_comparable(f.candidate.status) {
            assert(status_paths(u, un) == u0);
            assert(status_paths(u, sk) == s0);
            assert(comparable_of(u).len() == comparable_of(init).len() + 1);
        } else if has_status(f, un) {
            assert(status_paths(u, un) == u0.insert(p));
            assert(u0.insert(p).len() == u0.len() + 1);
            assert(!(spec_is_comparable(f.baseline.status) && spec_is_comparable(f.candidate.status)));
            assert(comparable_of(u) == comparable_of(init));
            if has_status(f, sk) {
                assert(s0.insert(p).difference(u0.insert(p)) =~= d0);
            } else {
                assert(s0.difference(u0.insert(p)) =~= d0);
            }
        } else {
            assert(has_status(f, sk));
            assert(status_paths(u, un) == u0);
            assert(s0.insert(p).difference(u0) =~= d0.insert(p));
            assert(d0.insert(p).len() == d0.len() + 1);
            assert(comparable_of(u) == comparable_of(init));
        }
    }
}

proof fn lemma_concat_contains<A>(a: Seq<A>, b: Seq<A>, x: A)
    ensures
        (a + b).contains(x) <==> a.contains(x) || b.contains(x),
{
    if (a + b).contains(x) {
        let i = choose|i: int| 0 <= i < (a + b).len() && (a + b)[i] == x;
        if i >= a.len() {
            assert(b[i - a.len()] == x);
        }
    }
    if a.contains(x) {
        let i = choose|i: int| 0 <= i < a.len() && a[i] == x;
        assert((a + b)[i] == x);
    }
    if b.contains(x) {
        let i = choose|i: int| 0 <= i < b.len() && b[i] == x;
        assert((a + b)[a.len() + i] == x);
    }
}

/// The first components of a list of disposition views.
pub open spec fn view_paths(v: Seq<(Seq<char>, ComparisonSide, Tool, Seq<char>, CapabilitySource)>) -> Seq<Seq<char>> {
    v.map_values(|d: (Seq<char>, ComparisonSide, Tool, Seq<char>, CapabilitySource)| d.0)
}

proof fn lemma_dispositions_paths(u: Seq<PlannedFile>, status: PlannedToolStatus)
    ensures
        view_paths(dispositions(u, status)).to_set() == status_paths(u, status),
    decreases u.len(),
{
    if u.len() > 0 {
        let init = u.drop_last();
        lemma_dispositions_paths(init, status);
        let f = u.last();
        let d0 = dispositions(init, status);
        let b = disposition_of(f.path@, ComparisonSide::Baseline, f.baseline, status);
        let c = disposition_of(f.path@, ComparisonSide::Candidate, f.candidate, status);
        assert(view_paths(dispositions(u, status)) =~= view_paths(d0) + view_paths(b) + view_paths(c));
        assert forall|x: Seq<char>| view_paths(dispositions(u, status)).to_set().contains(x) <==> #[trigger] status_paths(u, status).contains(x) by {
            lemma_concat_contains(view_paths(d0) + view_paths(b), view_paths(c), x);
            lemma_concat_contains(view_paths(d0), view_paths(b), x);
            if view_paths(b).contains(x) {
                assert(view_paths(b)[0] == f.path@);
            }
            if view_paths(c).contains(x) {
                assert(view_paths(c)[0] == f.path@);
            }
            if has_status(f, status) && x == f.path@ {
                if f.baseline.status == status {
                    assert(view_paths(b)[0] == x);
                } else {
                    assert(view_paths(c)[0] == x);
                }
            }
        }
        assert(view_paths(dispositions(u, status)).to_set() =~= status_paths(u, status));
    }
}

proof fn lemma_sorted_disposition_paths(uu: Seq<FileDisposition>, u: Seq<PlannedFile>, status: PlannedToolStatus)
    requires
        disposition_views(uu) == dispositions(u, status),
    ensures
        disposition_paths(stable_sort(uu)) == status_paths(u, status),
{
    broadcast use vstd::seq_lib::group_to_multiset_ensures;
    crate::order::lemma_stable_sort_multiset(uu);
    let f = |d: FileDisposition| d.path@;
    crate::order::lemma_map_multiset(stable_sort(uu), uu, f);
    lemma_dispositions_paths(u, status);
    assert(uu.map_values(f) =~= view_paths(dispositions(u, status)));
    let sp = stable_sort(uu).map_values(f);
    let up = uu.map_values(f);
    assert forall|x: Seq<char>| sp.to_set().contains(x) <==> #[trigger] up.to_set().contains(x) by {
        assert(sp.contains(x) <==> sp.to_multiset().count(x) > 0);
        assert(up.contains(x) <==> up.to_multiset().count(x) > 0);
    }
    assert(sp.to_set() =~= up.to_set());
}


/// Every planned file is counted once: the comparable files, the distinct files
/// with an unsupported side, and the distinct skipped files without one add up to
/// the discovered files, for a plan built from files with distinct report paths
/// (the lists of `ComparisonPlan::build`, sorted from the plan of each file).
pub proof fn lemma_plan_counts_add_up(
    plan: ComparisonPlan,
    u: Seq<PlannedFile>,
    cu: Seq<String>,
    uu: Seq<FileDisposition>,
    su: Seq<FileDisposition>,
)
    requires
        forall|i: int, j: int| 0 <= i < j < u.len() ==> (#[trigger] u[i]).path@ != (#[trigger] u[j]).path@,
        plan.discovered@ == stable_sort(u),
        crate::paths::views(cu) == comparable_of(u),
        plan.comparable@ == stable_sort(cu),
        disposition_views(uu) == dispositions(u, PlannedToolStatus::Unsupported),
        plan.unsupported@ == stable_sort(uu),
        disposition_views(su) == dispositions(u, PlannedToolStatus::Skipped),
        plan.skipped@ == stable_sort(su),
    ensures
        plan.comparable@.len() + disposition_paths(plan.unsupported@).len() + disposition_paths(plan.skipped@).difference(
            disposition_paths(plan.unsupported@),
        ).len() == plan.discovered@.len(),
{
    lemma_plan_count(u);
    crate::order::lemma_stable_sort_multiset(u);
    crate::order::lemma_stable_sort_multiset(cu);
    lemma_sorted_disposition_paths(uu, u, PlannedToolStatus::Unsupported);
    lemma_sorted_disposition_paths(su, u, PlannedToolStatus::Skipped);
}

} // verus!
