//! The normalized data that every adapter produces and every comparison reads.
use vstd::prelude::*;

use sha2::Digest;

pub use crate::paths::{normalize_path, path_from_report};

use crate::text::{decimal, push_char, push_decimal, push_str, signed_decimal};

verus! {

/// A JavaScript or TypeScript tool that Concord can run.
#[derive(Debug, Clone, Copy, PartialEq, Eq, Hash, Structural)]
pub enum Tool {
    Eslint,
    Biome,
    Oxlint,
    Prettier,
    Oxfmt,
}

/// The position of a tool in the declaration order, which is the order that
/// reports use.
pub open spec fn tool_rank(t: Tool) -> int {
    match t {
        Tool::Eslint => 0,
        Tool::Biome => 1,
        Tool::Oxlint => 2,
        Tool::Prettier => 3,
        Tool::Oxfmt => 4,
    }
}

/// The name that users read.
pub open spec fn tool_display_name(t: Tool) -> Seq<char> {
    match t {
        Tool::Eslint => seq!['E', 'S', 'L', 'i', 'n', 't'],
        Tool::Biome => seq!['B', 'i', 'o', 'm', 'e'],
        Tool::Oxlint => seq!['O', 'x', 'l', 'i', 'n', 't'],
        Tool::Prettier => seq!['P', 'r', 'e', 't', 't', 'i', 'e', 'r'],
        Tool::Oxfmt => seq!['O', 'x', 'f', 'm', 't'],
    }
}

/// The key under `[tools]` in the configuration and the executable's name.
pub open spec fn tool_config_key(t: Tool) -> Seq<char> {
    match t {
        Tool::Eslint => seq!['e', 's', 'l', 'i', 'n', 't'],
        Tool::Biome => seq!['b', 'i', 'o', 'm', 'e'],
        Tool::Oxlint => seq!['o', 'x', 'l', 'i', 'n', 't'],
        Tool::Prettier => seq!['p', 'r', 'e', 't', 't', 'i', 'e', 'r'],
        Tool::Oxfmt => seq!['o', 'x', 'f', 'm', 't'],
    }
}

/// The name of the variant, as `Debug` writes it.
pub open spec fn tool_debug_name(t: Tool) -> Seq<char> {
    match t {
        Tool::Eslint => seq!['E', 's', 'l', 'i', 'n', 't'],
        Tool::Biome => seq!['B', 'i', 'o', 'm', 'e'],
        Tool::Oxlint => seq!['O', 'x', 'l', 'i', 'n', 't'],
        Tool::Prettier => seq!['P', 'r', 'e', 't', 't', 'i', 'e', 'r'],
        Tool::Oxfmt => seq!['O', 'x', 'f', 'm', 't'],
    }
}

/// Whether the tool reports lint diagnostics.
pub open spec fn spec_is_linter(t: Tool) -> bool {
    t == Tool::Eslint || t == Tool::Biome || t == Tool::Oxlint
}

/// Whether the tool formats source text.
pub open spec fn spec_is_formatter(t: Tool) -> bool {
    t == Tool::Prettier || t == Tool::Biome || t == Tool::Oxfmt
}

impl Tool {
    /// Every tool, in declaration order.
    pub fn all() -> (r: [Tool; 5])
        ensures
            r@ == seq![Tool::Eslint, Tool::Biome, Tool::Oxlint, Tool::Prettier, Tool::Oxfmt],
    {
        [Tool::Eslint, Tool::Biome, Tool::Oxlint, Tool::Prettier, Tool::Oxfmt]
    }

    /// The declaration rank of the tool.
    pub fn rank(self) -> (r: u8)
        ensures
            r as int == tool_rank(self),
    {
        match self {
            Tool::Eslint => 0,
            Tool::Biome => 1,
            Tool::Oxlint => 2,
            Tool::Prettier => 3,
            Tool::Oxfmt => 4,
        }
    }

    /// The name that users read, such as `ESLint`.
    pub fn display_name(self) -> (r: String)
        ensures
            r@ == tool_display_name(self),
    {
        let mut s = String::new();
        match self {
            Tool::Eslint => {
                push_char(&mut s, 'E');
                push_char(&mut s, 'S');
                push_char(&mut s, 'L');
                push_char(&mut s, 'i');
                push_char(&mut s, 'n');
                push_char(&mut s, 't');
            },
            Tool::Biome => {
                push_char(&mut s, 'B');
                push_char(&mut s, 'i');
                push_char(&mut s, 'o');
                push_char(&mut s, 'm');
                push_char(&mut s, 'e');
            },
            Tool::Oxlint => {
                push_char(&mut s, 'O');
                push_char(&mut s, 'x');
                push_char(&mut s, 'l');
                push_char(&mut s, 'i');
                push_char(&mut s, 'n');
                push_char(&mut s, 't');
            },
            Tool::Prettier => {
                push_char(&mut s, 'P');
                push_char(&mut s, 'r');
                push_char(&mut s, 'e');
                push_char(&mut s, 't');
                push_char(&mut s, 't');
                push_char(&mut s, 'i');
                push_char(&mut s, 'e');
                push_char(&mut s, 'r');
            },
            Tool::Oxfmt => {
                push_char(&mut s, 'O');
                push_char(&mut s, 'x');
                push_char(&mut s, 'f');
                push_char(&mut s, 'm');
                push_char(&mut s, 't');
            },
        }
        proof {
            assert(s@ =~= tool_display_name(self));
        }
        s
    }

    /// The configuration key and executable name, such as `eslint`.
    pub fn config_key(self) -> (r: String)
        ensures
            r@ == tool_config_key(self),
    {
        let mut s = String::new();
        match self {
            Tool::Eslint => {
                push_char(&mut s, 'e');
                push_char(&mut s, 's');
                push_char(&mut s, 'l');
                push_char(&mut s, 'i');
                push_char(&mut s, 'n');
                push_char(&mut s, 't');
            },
            Tool::Biome => {
                push_char(&mut s, 'b');
                push_char(&mut s, 'i');
                push_char(&mut s, 'o');
                push_char(&mut s, 'm');
                push_char(&mut s, 'e');
            },
            Tool::Oxlint => {
                push_char(&mut s, 'o');
                push_char(&mut s, 'x');
                push_char(&mut s, 'l');
                push_char(&mut s, 'i');
                push_char(&mut s, 'n');
                push_char(&mut s, 't');
            },
            Tool::Prettier => {
                push_char(&mut s, 'p');
                push_char(&mut s, 'r');
                push_char(&mut s, 'e');
                push_char(&mut s, 't');
                push_char(&mut s, 't');
                push_char(&mut s, 'i');
                push_char(&mut s, 'e');
                push_char(&mut s, 'r');
            },
            Tool::Oxfmt => {
                push_char(&mut s, 'o');
                push_char(&mut s, 'x');
                push_char(&mut s, 'f');
                push_char(&mut s, 'm');
                push_char(&mut s, 't');
            },
        }
        proof {
            assert(s@ =~= tool_config_key(self));
        }
        s
    }

    /// Whether the tool is one of the supported linters.
    pub fn is_linter(self) -> (r: bool)
        ensures
            r == spec_is_linter(self),
    {
        matches!(self, Tool::Eslint | Tool::Biome | Tool::Oxlint)
    }

    /// Whether the tool is one of the supported formatters.
    pub fn is_formatter(self) -> (r: bool)
        ensures
            r == spec_is_formatter(self),
    {
        matches!(self, Tool::Prettier | Tool::Biome | Tool::Oxfmt)
    }

    /// The tool named by `value`, compared without ASCII case, or the error that
    /// names the unknown value.
    pub fn from_name(value: &str) -> (r: Result<Tool, String>)
        ensures
            match tool_named(crate::text::lower_seq(value@)) {
                Some(t) => r == Ok::<Tool, String>(t),
                None => (r matches Err(e) && e@ == "unknown tool `"@ + value@ + "`"@),
            },
    {
        let lower = crate::text::to_ascii_lowercase(value);
        let all = Tool::all();
        let mut i: usize = 0;
        while i < 5
            invariant
                0 <= i <= 5,
                all@ == seq![Tool::Eslint, Tool::Biome, Tool::Oxlint, Tool::Prettier, Tool::Oxfmt],
                lower@ == crate::text::lower_seq(value@),
                forall|k: int| 0 <= k < i ==> lower@ != tool_config_key(#[trigger] all@[k]),
            decreases 5 - i,
        {
            let key = all[i].config_key();
            if crate::text::str_eq(lower.as_str(), key.as_str()) {
                return Ok(all[i]);
            }
            i = i + 1;
        }
        proof {
            assert(lower@ != tool_config_key(all@[0]));
            assert(lower@ != tool_config_key(all@[1]));
            assert(lower@ != tool_config_key(all@[2]));
            assert(lower@ != tool_config_key(all@[3]));
            assert(lower@ != tool_config_key(all@[4]));
        }
        let mut e = String::new();
        push_str(&mut e, "unknown tool `");
        push_str(&mut e, value);
        push_str(&mut e, "`");
        Err(e)
    }
}

/// The tool whose configuration key is `name`.
pub open spec fn tool_named(name: Seq<char>) -> Option<Tool> {
    if name == tool_config_key(Tool::Eslint) {
        Some(Tool::Eslint)
    } else if name == tool_config_key(Tool::Biome) {
        Some(Tool::Biome)
    } else if name == tool_config_key(Tool::Oxlint) {
        Some(Tool::Oxlint)
    } else if name == tool_config_key(Tool::Prettier) {
        Some(Tool::Prettier)
    } else if name == tool_config_key(Tool::Oxfmt) {
        Some(Tool::Oxfmt)
    } else {
        None
    }
}

impl std::str::FromStr for Tool {
    type Err = String;

    fn from_str(value: &str) -> (r: Result<Self, String>)
        ensures
            match tool_named(crate::text::lower_seq(value@)) {
                Some(t) => r == Ok::<Tool, String>(t),
                None => (r matches Err(e) && e@ == "unknown tool `"@ + value@ + "`"@),
            },
    {
        Tool::from_name(value)
    }
}

} // verus!

verus! {

/// How serious a diagnostic is.
#[derive(Debug, Clone, Copy, PartialEq, Eq, Hash, Structural)]
pub enum Severity {
    Info,
    Warning,
    Error,
}

/// The name of the variant, as `Debug` writes it.
pub open spec fn severity_debug_name(s: Severity) -> Seq<char> {
    match s {
        Severity::Info => "Info"@,
        Severity::Warning => "Warning"@,
        Severity::Error => "Error"@,
    }
}

/// A position range in a source file; lines and columns start at one.
#[derive(Debug, Clone, Copy, PartialEq, Eq, Hash, Structural)]
pub struct Span {
    pub start_line: u32,
    pub start_column: u32,
    pub end_line: Option<u32>,
    pub end_column: Option<u32>,
}

impl Span {
    /// Whether both spans start at the same line and column.
    pub fn same_start(&self, other: &Self) -> (r: bool)
        ensures
            r == (self.start_line == other.start_line && self.start_column == other.start_column),
    {
        self.start_line == other.start_line && self.start_column == other.start_column
    }

    /// Whether the spans start on the same line or their line ranges overlap;
    /// a missing end line stands for the start line.
    pub fn overlaps_or_same_line(&self, other: &Self) -> (r: bool)
        ensures
            r == spec_overlaps_or_same_line(*self, *other),
    {
        if self.start_line == other.start_line {
            return true;
        }
        let self_end = match self.end_line {
            Some(line) => line,
            None => self.start_line,
        };
        let other_end = match other.end_line {
            Some(line) => line,
            None => other.start_line,
        };
        self.start_line <= other_end && other.start_line <= self_end
    }
}

/// The last line of a span, its start line when no end is known.
pub open spec fn span_end_line(s: Span) -> u32 {
    match s.end_line {
        Some(line) => line,
        None => s.start_line,
    }
}

/// Same start line, or overlapping line ranges.
pub open spec fn spec_overlaps_or_same_line(a: Span, b: Span) -> bool {
    a.start_line == b.start_line || (a.start_line <= span_end_line(b) && b.start_line
        <= span_end_line(a))
}

/// Equality of two optional spans.
pub fn span_option_eq(a: &Option<Span>, b: &Option<Span>) -> (r: bool)
    ensures
        r == (*a == *b),
{
    match (a, b) {
        (None, None) => true,
        (Some(x), Some(y)) => x.start_line == y.start_line && x.start_column == y.start_column
            && x.end_line == y.end_line && x.end_column == y.end_column,
        _ => false,
    }
}

/// A suggested fix: a byte range and its replacement text.
#[derive(Debug)]
pub struct Fix {
    pub start: Option<u64>,
    pub end: Option<u64>,
    pub replacement: Option<String>,
}

/// A lint diagnostic normalized across tools.
#[derive(Debug)]
pub struct Diagnostic {
    pub tool: Tool,
    pub path: String,
    pub code: Option<String>,
    pub canonical_code: Option<String>,
    pub severity: Severity,
    pub message: String,
    pub span: Option<Span>,
    pub fix: Option<Fix>,
    pub fingerprint: String,
}

/// The parts of a diagnostic that an adapter reads from the tool's output.
#[derive(Debug)]
pub struct DiagnosticData {
    pub code: Option<String>,
    pub canonical_code: Option<String>,
    pub severity: Severity,
    pub message: String,
    pub span: Option<Span>,
    pub fix: Option<Fix>,
}

/// A copy of an optional string.
pub fn clone_opt_string(o: &Option<String>) -> (r: Option<String>)
    ensures
        r == *o,
{
    match o {
        Some(s) => Some(s.clone()),
        None => None,
    }
}

impl Clone for Fix {
    fn clone(&self) -> (r: Self)
        ensures
            r == *self,
    {
        Fix { start: self.start, end: self.end, replacement: clone_opt_string(&self.replacement) }
    }
}

/// A copy of an optional fix.
pub fn clone_opt_fix(o: &Option<Fix>) -> (r: Option<Fix>)
    ensures
        r == *o,
{
    match o {
        Some(f) => Some(f.clone()),
        None => None,
    }
}

impl Clone for Diagnostic {
    fn clone(&self) -> (r: Self)
        ensures
            r == *self,
    {
        Diagnostic {
            tool: self.tool,
            path: self.path.clone(),
            code: clone_opt_string(&self.code),
            canonical_code: clone_opt_string(&self.canonical_code),
            severity: self.severity,
            message: self.message.clone(),
            span: self.span,
            fix: clone_opt_fix(&self.fix),
            fingerprint: self.fingerprint.clone(),
        }
    }
}

impl Clone for DiagnosticData {
    fn clone(&self) -> (r: Self)
        ensures
            r == *self,
    {
        DiagnosticData {
            code: clone_opt_string(&self.code),
            canonical_code: clone_opt_string(&self.canonical_code),
            severity: self.severity,
            message: self.message.clone(),
            span: self.span,
            fix: clone_opt_fix(&self.fix),
        }
    }
}

/// The view of an optional string.
pub open spec fn opt_view(o: Option<String>) -> Option<Seq<char>> {
    match o {
        Some(s) => Some(s@),
        None => None,
    }
}

/// `Debug` text of a string: the quoted and escaped form.
pub uninterp spec fn debug_text(s: Seq<char>) -> Seq<char>;

/// Lower-case hexadecimal SHA-256 digest of the UTF-8 encoding of `s`.
pub uninterp spec fn sha256_hex(s: Seq<char>) -> Seq<char>;

/// Quotes and escapes a string as `Debug` for `str` does (`<str as Debug>::fmt`).
/// Nothing is stated of the result beyond its name; the escaping rules of std
/// depend on Unicode tables.
#[verifier::external_body]
pub(crate) fn debug_quote(s: &str) -> (r: String)
    ensures
        r@ == debug_text(s@),
{
    format!("{:?}", s)
}

/// A digit of lower-case hexadecimal notation.
pub open spec fn is_lower_hex_digit(c: char) -> bool {
    ('0' <= c <= '9') || ('a' <= c <= 'f')
}

/// SHA-256 of the UTF-8 bytes of `s`, as 64 lower-case hexadecimal digits
/// (`sha2::Sha256::digest` written with `{:x}`).
#[verifier::external_body]
pub(crate) fn sha256_hex_of(s: &str) -> (r: String)
    ensures
        r@ == sha256_hex(s@),
        r@.len() == 64,
        forall|i: int| 0 <= i < 64 ==> is_lower_hex_digit(#[trigger] r@[i]),
{
    format!("{:x}", sha2::Sha256::digest(s.as_bytes()))
}

/// `Debug` text of an optional number.
pub open spec fn opt_u32_debug(o: Option<u32>) -> Seq<char> {
    match o {
        Some(n) => "Some("@ + decimal(n as nat) + ")"@,
        None => "None"@,
    }
}

/// `Debug` text of an optional string.
pub open spec fn opt_text_debug(o: Option<Seq<char>>) -> Seq<char> {
    match o {
        Some(s) => "Some("@ + debug_text(s) + ")"@,
        None => "None"@,
    }
}

/// `Debug` text of an optional span.
pub open spec fn span_debug(o: Option<Span>) -> Seq<char> {
    match o {
        Some(s) => "Some(Span { start_line: "@ + decimal(s.start_line as nat) + ", start_column: "@
            + decimal(s.start_column as nat) + ", end_line: "@ + opt_u32_debug(s.end_line)
            + ", end_column: "@ + opt_u32_debug(s.end_column) + " })"@,
        None => "None"@,
    }
}

/// The text whose digest identifies a diagnostic: tool, path, canonical rule,
/// severity, message and span, separated by NUL characters.
pub open spec fn fingerprint_material(
    tool: Tool,
    path: Seq<char>,
    canonical_code: Option<Seq<char>>,
    severity: Severity,
    message: Seq<char>,
    span: Option<Span>,
) -> Seq<char> {
    tool_debug_name(tool) + "\0"@ + path + "\0"@ + opt_text_debug(canonical_code) + "\0"@
        + severity_debug_name(severity) + "\0"@ + message + "\0"@ + span_debug(span)
}

/// The fingerprint a diagnostic with these fields carries.
pub open spec fn spec_fingerprint(d: Diagnostic) -> Seq<char> {
    sha256_hex(
        fingerprint_material(
            d.tool,
            d.path@,
            opt_view(d.canonical_code),
            d.severity,
            d.message@,
            d.span,
        ),
    )
}

/// Two diagnostics that agree on tool, path, canonical rule, severity, message and
/// span carry the same fingerprint, whatever their raw rule and fix.
pub proof fn lemma_fingerprint_identity(a: Diagnostic, b: Diagnostic)
    requires
        a.tool == b.tool,
        a.path@ == b.path@,
        opt_view(a.canonical_code) == opt_view(b.canonical_code),
        a.severity == b.severity,
        a.message@ == b.message@,
        a.span == b.span,
    ensures
        spec_fingerprint(a) == spec_fingerprint(b),
{
}

fn push_opt_u32_debug(s: &mut String, o: Option<u32>)
    ensures
        final(s)@ == old(s)@ + opt_u32_debug(o),
{
    match o {
        Some(n) => {
            push_str(s, "Some(");
            push_decimal(s, n as u64);
            push_str(s, ")");
            proof {
                assert(final(s)@ =~= old(s)@ + opt_u32_debug(o));
            }
        },
        None => push_str(s, "None"),
    }
}

fn push_span_debug(s: &mut String, o: Option<Span>)
    ensures
        final(s)@ == old(s)@ + span_debug(o),
{
    match o {
        Some(span) => {
            push_str(s, "Some(Span { start_line: ");
            push_decimal(s, span.start_line as u64);
            push_str(s, ", start_column: ");
            push_decimal(s, span.start_column as u64);
            push_str(s, ", end_line: ");
            push_opt_u32_debug(s, span.end_line);
            push_str(s, ", end_column: ");
            push_opt_u32_debug(s, span.end_column);
            push_str(s, " })");
            proof {
                assert(final(s)@ =~= old(s)@ + span_debug(o));
            }
        },
        None => push_str(s, "None"),
    }
}

fn push_tool_debug(s: &mut String, t: Tool)
    ensures
        final(s)@ == old(s)@ + tool_debug_name(t),
{
    match t {
        Tool::Eslint => push_str(s, "Eslint"),
        Tool::Biome => push_str(s, "Biome"),
        Tool::Oxlint => push_str(s, "Oxlint"),
        Tool::Prettier => push_str(s, "Prettier"),
        Tool::Oxfmt => push_str(s, "Oxfmt"),
    }
    proof {
        reveal_strlit("Eslint");
        reveal_strlit("Biome");
        reveal_strlit("Oxlint");
        reveal_strlit("Prettier");
        reveal_strlit("Oxfmt");
        assert(final(s)@ =~= old(s)@ + tool_debug_name(t));
    }
}

fn push_severity_debug(s: &mut String, v: Severity)
    ensures
        final(s)@ == old(s)@ + severity_debug_name(v),
{
    match v {
        Severity::Info => push_str(s, "Info"),
        Severity::Warning => push_str(s, "Warning"),
        Severity::Error => push_str(s, "Error"),
    }
}

/// Builds the fingerprint material of a diagnostic's fields.
pub fn fingerprint_text(
    tool: Tool,
    path: &str,
    canonical_code: &Option<String>,
    severity: Severity,
    message: &str,
    span: Option<Span>,
) -> (r: String)
    ensures
        r@ == fingerprint_material(tool, path@, opt_view(*canonical_code), severity, message@, span),
{
    let mut s = String::new();
    push_tool_debug(&mut s, tool);
    push_str(&mut s, "\0");
    push_str(&mut s, path);
    push_str(&mut s, "\0");
    match canonical_code {
        Some(code) => {
            push_str(&mut s, "Some(");
            let quoted = debug_quote(code.as_str());
            push_str(&mut s, quoted.as_str());
            push_str(&mut s, ")");
        },
        None => push_str(&mut s, "None"),
    }
    push_str(&mut s, "\0");
    push_severity_debug(&mut s, severity);
    push_str(&mut s, "\0");
    push_str(&mut s, message);
    push_str(&mut s, "\0");
    push_span_debug(&mut s, span);
    proof {
        assert(s@ =~= fingerprint_material(
            tool,
            path@,
            opt_view(*canonical_code),
            severity,
            message@,
            span,
        ));
    }
    s
}

impl Diagnostic {
    /// A diagnostic of `tool` at `path` with its fingerprint computed.
    pub fn new(tool: Tool, path: &str, data: DiagnosticData) -> (r: Self)
        ensures
            r.tool == tool,
            r.path@ == path@,
            r.code == data.code,
            r.canonical_code == data.canonical_code,
            r.severity == data.severity,
            r.message == data.message,
            r.span == data.span,
            r.fix == data.fix,
            r.fingerprint@ == spec_fingerprint(r),
            r.fingerprint@.len() == 64,
            forall|i: int| 0 <= i < 64 ==> is_lower_hex_digit(#[trigger] r.fingerprint@[i]),
    {
        let mut result = Diagnostic {
            tool,
            path: path.to_owned(),
            code: data.code,
            canonical_code: data.canonical_code,
            severity: data.severity,
            message: data.message,
            span: data.span,
            fix: data.fix,
            fingerprint: String::new(),
        };
        result.refresh_fingerprint();
        result
    }

    /// Recomputes the fingerprint from the identifying fields.
    pub fn refresh_fingerprint(&mut self)
        ensures
            final(self).tool == old(self).tool,
            final(self).path == old(self).path,
            final(self).code == old(self).code,
            final(self).canonical_code == old(self).canonical_code,
            final(self).severity == old(self).severity,
            final(self).message == old(self).message,
            final(self).span == old(self).span,
            final(self).fix == old(self).fix,
            final(self).fingerprint@ == spec_fingerprint(*old(self)),
            final(self).fingerprint@.len() == 64,
            forall|i: int| 0 <= i < 64 ==> is_lower_hex_digit(#[trigger] final(self).fingerprint@[i]),
    {
        let material = fingerprint_text(
            self.tool,
            self.path.as_str(),
            &self.canonical_code,
            self.severity,
            self.message.as_str(),
            self.span,
        );
        self.fingerprint = sha256_hex_of(material.as_str());
    }
}

/// One execution of a linter: what ran and what it reported.
#[derive(Debug, Clone)]
pub struct ToolRun {
    pub tool: Tool,
    pub executable: String,
    pub version: String,
    pub arguments: Vec<String>,
    pub exit_code: Option<i32>,
    pub duration_ms: u128,
    pub diagnostics: Vec<Diagnostic>,
    pub warnings: Vec<String>,
    pub stdout: String,
    pub stderr: String,
}

} // verus!
