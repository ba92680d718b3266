//! How external tools are found and how their invocations are reported.
use vstd::prelude::*;

use crate::config::{tool_config, Config};
use crate::error::{failure_message, ToolFailure};
use crate::model::{debug_quote, debug_text, tool_config_key, tool_display_name, Tool};
use crate::paths::views;
use crate::adapters::oxfmt::{lossy, lossy_text};
use crate::text::{chars_of, is_white, owned, push_char, push_str, str_eq, string_from_range};

verus! {

/// The executable that will run a tool, and every place that was checked for it.
#[derive(Debug, Clone)]
pub struct ResolvedTool {
    pub tool: Tool,
    pub executable: String,
    pub checked: Vec<String>,
    pub explicitly_configured: bool,
}

/// What a finished process produced.
#[derive(Debug, Clone)]
pub struct ProcessOutput {
    pub exit_code: Option<i32>,
    pub duration_ms: u128,
    pub stdout: Vec<u8>,
    pub stderr: Vec<u8>,
}

/// Runs tools from the project root with the configured time limit.
#[derive(Debug, Clone)]
pub struct ProcessRunner {
    root: String,
    config: Config,
    timeout_seconds: u64,
}

/// One place where a tool's executable may be found.
#[derive(Debug, Clone, PartialEq, Eq)]
pub enum Lookup {
    /// A file that must exist.
    File(String),
    /// A command name searched on `PATH`.
    Search(String),
}

impl ProcessRunner {
    /// A runner for the project at `root`; the time limit is the given one, else the
    /// configured one.
    pub fn new(root: String, config: Config, timeout_seconds: Option<u64>) -> (r: Self)
        ensures
            r.root_view() == root@,
            r.config_view() == config,
            r.timeout_view() == match timeout_seconds {
                Some(t) => t,
                None => config.execution.timeout_seconds,
            },
    {
        let timeout = match timeout_seconds {
            Some(t) => t,
            None => config.execution.timeout_seconds,
        };
        ProcessRunner { root, config, timeout_seconds: timeout }
    }

    /// The project root.
    pub closed spec fn root_view(&self) -> Seq<char> {
        self.root@
    }

    /// The configuration.
    pub closed spec fn config_view(&self) -> Config {
        self.config
    }

    /// The time limit in seconds.
    pub closed spec fn timeout_view(&self) -> u64 {
        self.timeout_seconds
    }

    /// The project root.
    pub fn root(&self) -> (r: &str)
        ensures
            r@ == self.root_view(),
    {
        self.root.as_str()
    }

    /// The configuration the runner was made with.
    pub fn config(&self) -> (r: &Config)
        ensures
            *r == self.config_view(),
    {
        &self.config
    }

    /// The time limit in seconds.
    pub fn timeout_seconds(&self) -> (r: u64)
        ensures
            r == self.timeout_view(),
    {
        self.timeout_seconds
    }

    /// Where to look for `tool`, in order, with the text that reports each place,
    /// and whether the places come from the configuration. A configured command
    /// with a path is one file (relative to the root unless absolute); a bare
    /// configured name is searched on `PATH`; otherwise the project's
    /// `node_modules/.bin` comes first and `PATH` second.
    pub fn lookups(&self, tool: Tool) -> (r: (Vec<(Lookup, String)>, bool))
        ensures
            r.1 == (tool_config(self.config_view().tools, tool).command is Some),
            resolution_plan(self.root_view(), tool, match tool_config(self.config_view().tools, tool).command {
                Some(c) => Some(c@),
                None => None,
            }, r.0@),
    {
        match &self.config.tools.get(tool).command {
            Some(command) => {
                let c = chars_of(command.as_str());
                let absolute = c.len() > 0 && c[0] == '/';
                let mut has_separator = false;
                let mut i: usize = 0;
                while i < c.len()
                    invariant
                        0 <= i <= c@.len(),
                        has_separator == exists|k: int| 0 <= k < i && is_separator(#[trigger] c@[k]),
                    decreases c.len() - i,
                {
                    if c[i] == '/' || c[i] == '\\' {
                        has_separator = true;
                    }
                    i = i + 1;
                }
                let mut v: Vec<(Lookup, String)> = Vec::new();
                if absolute || has_separator {
                    let candidate = if absolute {
                        command.clone()
                    } else {
                        crate::capabilities::join_path_exec(self.root.as_str(), command.as_str())
                    };
                    v.push((Lookup::File(candidate.clone()), candidate));
                } else {
                    let mut label = owned("PATH (");
                    push_str(&mut label, command.as_str());
                    push_str(&mut label, ")");
                    v.push((Lookup::Search(command.clone()), label));
                }
                (v, true)
            },
            None => {
                let key = tool.config_key();
                let mut base = crate::capabilities::join_path_exec(self.root.as_str(), "node_modules");
                push_str(&mut base, "/.bin/");
                push_str(&mut base, key.as_str());
                let mut v: Vec<(Lookup, String)> = Vec::new();
                v.push((Lookup::File(base.clone()), base));
                v.push((Lookup::Search(key), owned("PATH")));
                (v, false)
            },
        }
    }
}

/// Characters that make a configured command a path.
pub open spec fn is_separator(c: char) -> bool {
    c == '/' || c == '\\'
}

/// The places to look for a tool, with their report texts.
pub open spec fn resolution_plan(
    root: Seq<char>,
    tool: Tool,
    command: Option<Seq<char>>,
    plan: Seq<(Lookup, String)>,
) -> bool {
    match command {
        Some(c) => {
            let absolute = c.len() > 0 && c[0] == '/';
            if absolute || exists|k: int| 0 <= k < c.len() && is_separator(#[trigger] c[k]) {
                let file = if absolute {
                    c
                } else {
                    crate::capabilities::join_path(root, c)
                };
                &&& plan.len() == 1
                &&& plan[0].0 matches Lookup::File(p) && p@ == file
                &&& plan[0].1@ == file
            } else {
                &&& plan.len() == 1
                &&& plan[0].0 matches Lookup::Search(p) && p@ == c
                &&& plan[0].1@ == "PATH ("@ + c + ")"@
            }
        },
        None => {
            let base = crate::capabilities::join_path(root, "node_modules"@) + "/.bin/"@ + tool_config_key(tool);
            &&& plan.len() == 2
            &&& plan[0].0 matches Lookup::File(p) && p@ == base
            &&& plan[0].1@ == base
            &&& plan[1].0 matches Lookup::Search(p) && p@ == tool_config_key(tool)
            &&& plan[1].1@ == "PATH"@
        },
    }
}

/// The places checked, one per line, each indented by two spaces.
pub open spec fn checked_lines(checked: Seq<Seq<char>>) -> Seq<char>
    decreases checked.len(),
{
    if checked.len() == 0 {
        Seq::empty()
    } else if checked.len() == 1 {
        "  "@ + checked[0]
    } else {
        checked_lines(checked.drop_last()) + "\n  "@ + checked.last()
    }
}

/// The failure that reports a tool found nowhere.
pub fn not_found(tool: Tool, checked: &Vec<String>) -> (r: ToolFailure)
    ensures
        r matches ToolFailure::NotFound { tool: t, config_key: k, checked: c } && t@ == tool_display_name(tool)
            && k@ == tool_config_key(tool) && c@ == checked_lines(views(checked@)),
{
    let mut lines = String::new();
    let mut i: usize = 0;
    while i < checked.len()
        invariant
            0 <= i <= checked@.len(),
            lines@ == checked_lines(views(checked@).take(i as int)),
        decreases checked.len() - i,
    {
        proof {
            assert(views(checked@).take(i + 1).drop_last() =~= views(checked@).take(i as int));
        }
        if i == 0 {
            push_str(&mut lines, "  ");
        } else {
            push_str(&mut lines, "\n  ");
        }
        push_str(&mut lines, checked[i].as_str());
        proof {
            if i == 0 {
                assert(lines@ =~= "  "@ + views(checked@).take(1)[0]);
            }
        }
        i = i + 1;
    }
    proof {
        assert(views(checked@).take(checked@.len() as int) =~= views(checked@));
    }
    ToolFailure::NotFound { tool: tool.display_name(), config_key: tool.config_key(), checked: lines }
}

/// What `truncate` keeps of a text: all of it when it has at most `maximum`
/// characters, else the first `maximum` followed by a truncation note.
pub open spec fn truncated(value: Seq<char>, maximum: nat) -> Seq<char> {
    if value.len() <= maximum {
        value
    } else {
        value.take(maximum as int) + "\n… output truncated"@
    }
}

/// Shortens a long text to `maximum` characters and says so.
pub fn truncate(value: &str, maximum: usize) -> (r: String)
    ensures
        r@ == truncated(value@, maximum as nat),
{
    let v = chars_of(value);
    if v.len() <= maximum {
        return owned(value);
    }
    let mut r = string_from_range(&v, 0, maximum);
    push_str(&mut r, "\n… output truncated");
    proof {
        assert(v@.subrange(0, maximum as int) =~= v@.take(maximum as int));
    }
    r
}

/// Whether a text holds white space.
pub open spec fn has_white(s: Seq<char>) -> bool {
    exists|k: int| 0 <= k < s.len() && is_white(#[trigger] s[k])
}

/// An argument as a command line shows it: quoted when it holds white space.
pub open spec fn shown_argument(a: Seq<char>) -> Seq<char> {
    if has_white(a) {
        debug_text(a)
    } else {
        a
    }
}

/// The arguments as a command line shows them, separated by spaces.
pub open spec fn shown_arguments(args: Seq<Seq<char>>) -> Seq<char>
    decreases args.len(),
{
    if args.len() == 0 {
        Seq::empty()
    } else if args.len() == 1 {
        shown_argument(args[0])
    } else {
        shown_arguments(args.drop_last()) + " "@ + shown_argument(args.last())
    }
}

/// Whether a text holds white space.
fn has_whitespace(s: &str) -> (r: bool)
    ensures
        r == has_white(s@),
{
    let v = chars_of(s);
    let mut i: usize = 0;
    while i < v.len()
        invariant
            0 <= i <= v@.len(),
            v@ == s@,
            forall|k: int| 0 <= k < i ==> !is_white(#[trigger] v@[k]),
        decreases v.len() - i,
    {
        if crate::text::is_whitespace(v[i]) {
            return true;
        }
        i = i + 1;
    }
    false
}

/// The arguments as a command line shows them.
pub fn display_arguments(arguments: &Vec<String>) -> (r: String)
    ensures
        r@ == shown_arguments(views(arguments@)),
{
    let mut out = String::new();
    let mut i: usize = 0;
    while i < arguments.len()
        invariant
            0 <= i <= arguments@.len(),
            out@ == shown_arguments(views(arguments@).take(i as int)),
        decreases arguments.len() - i,
    {
        proof {
            assert(views(arguments@).take(i + 1).drop_last() =~= views(arguments@).take(i as int));
        }
        if i > 0 {
            push_char(&mut out, ' ');
        }
        let text = arguments[i].as_str();
        if has_whitespace(text) {
            push_str(&mut out, debug_quote(text).as_str());
        } else {
            push_str(&mut out, text);
        }
        proof {
            reveal_strlit(" ");
            if i == 0 {
                assert(out@ =~= shown_argument(views(arguments@).take(1)[0]));
            } else {
                assert(out@ =~= shown_arguments(views(arguments@).take(i as int)) + " "@ + shown_argument(arguments@[i as int]@));
            }
        }
        i = i + 1;
    }
    proof {
        assert(views(arguments@).take(arguments@.len() as int) =~= views(arguments@));
    }
    out
}

/// The first place, in order, where the tool was found.
pub open spec fn first_found(found: Seq<Option<String>>) -> Option<int>
    decreases found.len(),
{
    if found.len() == 0 {
        None
    } else {
        match first_found(found.drop_last()) {
            Some(i) => Some(i),
            None => if found.last() is Some {
                Some(found.len() - 1)
            } else {
                None
            },
        }
    }
}

/// Resolves a tool from what each place of its lookups gave: `found[i]` is the
/// executable that lookup `i` found, if any. The first place that found one
/// wins, and the places checked up to it are recorded; when none did, the tool
/// is not found and every place is listed.
pub fn resolve_found(tool: Tool, lookups: &Vec<(Lookup, String)>, explicit: bool, found: &Vec<Option<String>>) -> (r: Result<
    ResolvedTool,
    ToolFailure,
>)
    requires
        found@.len() == lookups@.len(),
    ensures
        match first_found(found@) {
            Some(i) => (r matches Ok(t) && t.tool == tool && Some(t.executable) == found@[i] && t.explicitly_configured
                == explicit && views(t.checked@) == lookups@.take(i + 1).map_values(|l: (Lookup, String)| l.1@)),
            None => (r matches Err(f) && f matches ToolFailure::NotFound { tool: t, config_key: k, checked: c } && t@
                == tool_display_name(tool) && k@ == tool_config_key(tool) && c@ == checked_lines(
                lookups@.map_values(|l: (Lookup, String)| l.1@),
            )),
        },
{
    let mut checked: Vec<String> = Vec::new();
    let mut i: usize = 0;
    while i < lookups.len()
        invariant
            0 <= i <= lookups@.len(),
            found@.len() == lookups@.len(),
            first_found(found@.take(i as int)) is None,
            views(checked@) == lookups@.take(i as int).map_values(|l: (Lookup, String)| l.1@),
        decreases lookups.len() - i,
    {
        let ghost before = views(checked@);
        checked.push(lookups[i].1.clone());
        proof {
            assert(views(checked@) =~= before.push(lookups@[i as int].1@));
            assert(lookups@.take(i + 1).map_values(|l: (Lookup, String)| l.1@) =~= lookups@.take(i as int).map_values(
                |l: (Lookup, String)| l.1@,
            ).push(lookups@[i as int].1@));
            assert(found@.take(i + 1).drop_last() =~= found@.take(i as int));
        }
        match &found[i] {
            Some(executable) => {
                proof {
                    assert(first_found(found@.take(i + 1)) == Some(i as int));
                    lemma_first_found_prefix(found@, i as int);
                }
                return Ok(ResolvedTool { tool, executable: executable.clone(), checked, explicitly_configured: explicit });
            },
            None => {},
        }
        i = i + 1;
    }
    proof {
        assert(found@.take(found@.len() as int) =~= found@);
        assert(lookups@.take(lookups@.len() as int) =~= lookups@);
    }
    Err(not_found(tool, &checked))
}

/// The first place that found the tool within a prefix is the first overall.
proof fn lemma_first_found_prefix(found: Seq<Option<String>>, i: int)
    requires
        0 <= i < found.len(),
        first_found(found.take(i + 1)) == Some(i),
    ensures
        first_found(found) == Some(i),
    decreases found.len(),
{
    if found.len() > i + 1 {
        assert(found.drop_last().take(i + 1) =~= found.take(i + 1));
        lemma_first_found_prefix(found.drop_last(), i);
    } else {
        assert(found.take(i + 1) =~= found);
    }
}

/// The version a tool reports: its trimmed stdout, else its trimmed stderr, else
/// `unknown`; a failure when it exits with anything but 0.
pub open spec fn reported_version_text(out: ProcessOutput) -> Seq<char> {
    let stdout = crate::text::trim_seq(lossy_text(out.stdout@));
    let stderr = crate::text::trim_seq(lossy_text(out.stderr@));
    let version = if stdout.len() == 0 {
        stderr
    } else {
        stdout
    };
    if version.len() == 0 {
        "unknown"@
    } else {
        version
    }
}

/// The version of a resolved tool from the output of `--version`.
pub fn reported_version(resolved: &ResolvedTool, out: &ProcessOutput) -> (r: Result<String, ToolFailure>)
    ensures
        out.exit_code == Some(0i32) ==> (r matches Ok(v) && v@ == reported_version_text(*out)),
        out.exit_code != Some(0i32) ==> (r matches Err(f) && f matches ToolFailure::Exit {
            tool: t,
            executable: e,
            arguments: a,
            exit_code: c,
            stderr: s,
        } && t@ == tool_display_name(resolved.tool) && e@ == resolved.executable@ && a@ == "--version"@ && c
            == out.exit_code && s@ == truncated(lossy_text(out.stderr@), 4096)),
{
    if out.exit_code != Some(0i32) {
        let stderr = lossy(out.stderr.as_slice());
        return Err(ToolFailure::Exit {
            tool: resolved.tool.display_name(),
            executable: resolved.executable.clone(),
            arguments: owned("--version"),
            exit_code: out.exit_code,
            stderr: truncate(stderr.as_str(), 4096),
        });
    }
    let stdout = crate::text::trim(lossy(out.stdout.as_slice()).as_str());
    let stderr = crate::text::trim(lossy(out.stderr.as_slice()).as_str());
    let version = if chars_of(stdout.as_str()).len() == 0 {
        stderr
    } else {
        stdout
    };
    if chars_of(version.as_str()).len() == 0 {
        let r = owned("unknown");
        proof {
            reveal_strlit("unknown");
        }
        Ok(r)
    } else {
        Ok(version)
    }
}

} // verus!
