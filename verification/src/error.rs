//! Errors that end a Concord run, and the failures of external tools.
use vstd::prelude::*;

use crate::text::{decimal, owned, push_decimal, push_signed_decimal, push_str, signed_decimal};

verus! {

/// Whether the user asked for something impossible or the environment failed.
#[derive(Debug, Clone, Copy, PartialEq, Eq, Structural)]
pub enum ErrorKind {
    Usage,
    Operational,
}

/// An error with the message that Concord prints.
#[derive(Debug)]
pub struct ConcordError {
    pub kind: ErrorKind,
    pub message: String,
}

impl ConcordError {
    /// An error in how Concord was invoked or configured.
    pub fn usage(message: &str) -> (r: Self)
        ensures
            r.kind == ErrorKind::Usage,
            r.message@ == message@,
    {
        ConcordError { kind: ErrorKind::Usage, message: owned(message) }
    }

    /// An error of the environment or of a tool.
    pub fn operational(message: &str) -> (r: Self)
        ensures
            r.kind == ErrorKind::Operational,
            r.message@ == message@,
    {
        ConcordError { kind: ErrorKind::Operational, message: owned(message) }
    }

    /// A failed file operation, with its context, path and the system's error text.
    pub fn io(context: &str, path: &str, source: &str) -> (r: Self)
        ensures
            r.kind == ErrorKind::Operational,
            r.message@ == context@ + "\npath: "@ + path@ + "\nerror: "@ + source@,
    {
        let mut message = owned(context);
        push_str(&mut message, "\npath: ");
        push_str(&mut message, path);
        push_str(&mut message, "\nerror: ");
        push_str(&mut message, source);
        ConcordError { kind: ErrorKind::Operational, message }
    }
}

/// How an external tool failed.
#[derive(Debug)]
pub enum ToolFailure {
    NotFound { tool: String, config_key: String, checked: String },
    Timeout { tool: String, seconds: u64, executable: String, arguments: String },
    Spawn { tool: String, executable: String, arguments: String, source: String },
    Exit {
        tool: String,
        executable: String,
        arguments: String,
        exit_code: Option<i32>,
        stderr: String,
    },
    InvalidOutput {
        tool: String,
        format: String,
        executable: String,
        arguments: String,
        exit_code: Option<i32>,
        stderr: String,
        detail: String,
    },
}

/// Debug notation of an optional exit code (`Some(2)` or `None`).
pub open spec fn exit_code_debug(code: Option<i32>) -> Seq<char> {
    match code {
        Some(c) => "Some("@ + signed_decimal(c as int) + ")"@,
        None => "None"@,
    }
}

/// The text of a tool failure.
pub open spec fn failure_message(f: ToolFailure) -> Seq<char> {
    match f {
        ToolFailure::NotFound { tool, config_key, checked } => tool@ + " was not found.\n\nChecked:\n"@
            + checked@ + "\n\nInstall it in the target project or configure tools."@ + config_key@
            + ".command\nin concord.toml."@,
        ToolFailure::Timeout { tool, seconds, executable, arguments } => tool@ + " timed out after "@
            + decimal(seconds as nat) + "s\ncommand: "@ + executable@ + " "@ + arguments@,
        ToolFailure::Spawn { tool, executable, arguments, source } => "failed to start "@ + tool@
            + "\ncommand: "@ + executable@ + " "@ + arguments@ + "\nerror: "@ + source@,
        ToolFailure::Exit { tool, executable, arguments, exit_code, stderr } => tool@
            + " failed\ncommand: "@ + executable@ + " "@ + arguments@ + "\nexit code: "@
            + exit_code_debug(exit_code) + "\nstderr: "@ + stderr@,
        ToolFailure::InvalidOutput {
            tool,
            format,
            executable,
            arguments,
            exit_code,
            stderr,
            detail,
        } => "failed to parse "@ + tool@ + " "@ + format@ + " output\ncommand: "@ + executable@
            + " "@ + arguments@ + "\nexit code: "@ + exit_code_debug(exit_code) + "\nstderr: "@
            + stderr@ + "\nerror: "@ + detail@,
    }
}

/// Appends the debug notation of an optional exit code.
fn push_exit_code(s: &mut String, code: Option<i32>)
    ensures
        final(s)@ == old(s)@ + exit_code_debug(code),
{
    match code {
        Some(c) => {
            push_str(s, "Some(");
            push_signed_decimal(s, c);
            push_str(s, ")");
            proof {
                assert(old(s)@ + "Some("@ + signed_decimal(c as int) + ")"@ =~= old(s)@ + ("Some("@
                    + signed_decimal(c as int) + ")"@));
            }
        },
        None => push_str(s, "None"),
    }
}

impl ToolFailure {
    /// The text that reports the failure.
    pub fn message(&self) -> (r: String)
        ensures
            r@ == failure_message(*self),
    {
        let mut s = String::new();
        match self {
            ToolFailure::NotFound { tool, config_key, checked } => {
                push_str(&mut s, tool.as_str());
                push_str(&mut s, " was not found.\n\nChecked:\n");
                push_str(&mut s, checked.as_str());
                push_str(&mut s, "\n\nInstall it in the target project or configure tools.");
                push_str(&mut s, config_key.as_str());
                push_str(&mut s, ".command\nin concord.toml.");
            },
            ToolFailure::Timeout { tool, seconds, executable, arguments } => {
                push_str(&mut s, tool.as_str());
                push_str(&mut s, " timed out after ");
                push_decimal(&mut s, *seconds);
                push_str(&mut s, "s\ncommand: ");
                push_str(&mut s, executable.as_str());
                push_str(&mut s, " ");
                push_str(&mut s, arguments.as_str());
            },
            ToolFailure::Spawn { tool, executable, arguments, source } => {
                push_str(&mut s, "failed to start ");
                push_str(&mut s, tool.as_str());
                push_str(&mut s, "\ncommand: ");
                push_str(&mut s, executable.as_str());
                push_str(&mut s, " ");
                push_str(&mut s, arguments.as_str());
                push_str(&mut s, "\nerror: ");
                push_str(&mut s, source.as_str());
            },
            ToolFailure::Exit { tool, executable, arguments, exit_code, stderr } => {
                push_str(&mut s, tool.as_str());
                push_str(&mut s, " failed\ncommand: ");
                push_str(&mut s, executable.as_str());
                push_str(&mut s, " ");
                push_str(&mut s, arguments.as_str());
                push_str(&mut s, "\nexit code: ");
                push_exit_code(&mut s, *exit_code);
                push_str(&mut s, "\nstderr: ");
                push_str(&mut s, stderr.as_str());
            },
            ToolFailure::InvalidOutput {
                tool,
                format,
                executable,
                arguments,
                exit_code,
                stderr,
                detail,
            } => {
                push_str(&mut s, "failed to parse ");
                push_str(&mut s, tool.as_str());
                push_str(&mut s, " ");
                push_str(&mut s, format.as_str());
                push_str(&mut s, " output\ncommand: ");
                push_str(&mut s, executable.as_str());
                push_str(&mut s, " ");
                push_str(&mut s, arguments.as_str());
                push_str(&mut s, "\nexit code: ");
                push_exit_code(&mut s, *exit_code);
                push_str(&mut s, "\nstderr: ");
                push_str(&mut s, stderr.as_str());
                push_str(&mut s, "\nerror: ");
                push_str(&mut s, detail.as_str());
            },
        }
        proof {
            assert(s@ =~= failure_message(*self));
        }
        s
    }
}

impl ToolFailure {
    /// The operational error that reports the failure.
    pub fn into_error(self) -> (r: ConcordError)
        ensures
            r.kind == ErrorKind::Operational,
            r.message@ == failure_message(self),
    {
        let message = self.message();
        ConcordError { kind: ErrorKind::Operational, message }
    }
}

} // verus!
