//! Code execution: small Python or Rust snippets run with a timeout and an
//! output cap, after explicit confirmation.

use vstd::prelude::*;
use super::{missing_arg, opt_str, optional_str, required_str, ToolInfo};
use crate::backends::{from_utf8_lossy, to_lowercase, unicode_lower, utf8_lossy};
use crate::json::Json;
use crate::text::{
    byte_len, byte_prefix, byte_take, decimal, decimal_string, is_boundary, push_str, str_eq, trim,
    trim_str, utf8_len,
};

verus! {

/// Runs a Python or Rust snippet after confirmation.
pub struct CodeExecTool;

impl CodeExecTool {
    /// The tool's name, as the model calls it.
    pub fn name(&self) -> (r: String)
        ensures
            r@ == "code_exec"@,
    {
        "code_exec".to_owned()
    }

    /// What the tool does, as shown to the model.
    pub fn description(&self) -> (r: String)
        ensures
            r@ == "Execute a small Python or Rust snippet and return its output. Requires confirmation."@,
    {
        "Execute a small Python or Rust snippet and return its output. Requires confirmation.".to_owned()
    }

    /// The tool's arguments, as the JSON text shown to the model.
    pub fn args_hint(&self) -> (r: String)
        ensures
            r@ == "{\"code\":\"source code to run\",\"language\":\"python | rust\"}"@,
    {
        "{\"code\":\"source code to run\",\"language\":\"python | rust\"}".to_owned()
    }

    /// Whether invoking the tool mutates state (requires confirmation).
    pub fn mutating(&self) -> (r: bool)
        ensures
            r == true,
    {
        true
    }

    /// The tool's registry entry.
    pub fn info(&self) -> (r: ToolInfo)
        ensures
            r.name@ == "code_exec"@,
            r.description@ == "Execute a small Python or Rust snippet and return its output. Requires confirmation."@,
            r.args_hint@ == "{\"code\":\"source code to run\",\"language\":\"python | rust\"}"@,
            r.mutating == true,
    {
        ToolInfo {
            name: self.name(),
            description: self.description(),
            args_hint: self.args_hint(),
            mutating: self.mutating(),
        }
    }
}


/// Wall-clock limit of a run, in seconds.
pub const TIMEOUT_SECS: u64 = 20;

/// The most of a run's output that is shown, in bytes.
pub const MAX_OUTPUT: usize = 8000;

/// The language of a call (lower-cased, `python` when not given) and its
/// code, or the error when the code is missing.
pub open spec fn exec_args_spec(args: Json) -> Result<(Seq<char>, Seq<char>), Seq<char>> {
    let lang = unicode_lower(
        match opt_str(args, "language"@) {
            Some(l) => l,
            None => "python"@,
        },
    );
    match opt_str(args, "code"@) {
        Some(code) => Ok((lang, code)),
        None => Err(missing_arg("code"@)),
    }
}

/// The language and code of a call.
pub fn exec_args(args: &Json) -> (r: Result<(String, String), String>)
    ensures
        match (r, exec_args_spec(*args)) {
            (Ok((l, c)), Ok((sl, sc))) => l@ == sl && c@ == sc,
            (Err(e), Err(se)) => e@ == se,
            _ => false,
        },
{
    let lang = match optional_str(args, "language") {
        Some(l) => to_lowercase(l.as_str()),
        None => to_lowercase("python"),
    };
    match required_str(args, "code") {
        Ok(code) => Ok((lang, code)),
        Err(e) => Err(e),
    }
}

/// The languages a snippet can be in.
pub enum Language {
    Python,
    Rust,
}

/// The language named `lang`, or the error for any other name.
pub fn language(lang: &str) -> (r: Result<Language, String>)
    ensures
        lang@ == "python"@ ==> r matches Ok(Language::Python),
        lang@ == "rust"@ ==> r matches Ok(Language::Rust),
        lang@ != "python"@ && lang@ != "rust"@ ==> (r matches Err(e) && e@ == "unsupported language: "@
            + lang@ + " (use python or rust)"@),
{
    proof {
        reveal_strlit("python");
        reveal_strlit("rust");
        assert("python"@.len() != "rust"@.len());
    }
    if str_eq(lang, "python") {
        Ok(Language::Python)
    } else if str_eq(lang, "rust") {
        Ok(Language::Rust)
    } else {
        let mut e = "unsupported language: ".to_owned();
        push_str(&mut e, lang);
        push_str(&mut e, " (use python or rust)");
        Err(e)
    }
}

/// The confirmation text of a run.
pub fn exec_preview(lang: &str, code: &str) -> (r: String)
    ensures
        r@ == "language: "@ + lang@ + "\ntimeout: 20s\n\n"@ + code@,
{
    let mut r = "language: ".to_owned();
    push_str(&mut r, lang);
    push_str(&mut r, "\ntimeout: 20s\n\n");
    push_str(&mut r, code);
    r
}

/// The confirmation subtitle of a run.
pub fn exec_subtitle(lang: &str) -> (r: String)
    ensures
        r@ == lang@ + " snippet"@,
{
    let mut r = lang.to_owned();
    push_str(&mut r, " snippet");
    r
}

/// The activity-log line of a run.
pub fn exec_activity(lang: &str, code: &str) -> (r: String)
    ensures
        r@ == lang@ + " snippet ("@ + decimal(utf8_len(code@)) + " chars)"@,
{
    let mut r = lang.to_owned();
    push_str(&mut r, " snippet (");
    push_str(&mut r, decimal_string(byte_len(code) as u64).as_str());
    push_str(&mut r, " chars)");
    r
}

/// The observation when compiling a Rust snippet made no executable.
pub fn compile_failed(compiler_output: &str) -> (r: String)
    ensures
        r@ == "Compilation failed:\n"@ + compiler_output@,
{
    let mut r = "Compilation failed:\n".to_owned();
    push_str(&mut r, compiler_output);
    r
}

/// What a finished process printed: its standard output, then its standard
/// error under a `[stderr]` line when that is not blank, or "(no output)"
/// when all of it is blank.
pub open spec fn process_output_spec(out: Seq<u8>, err: Seq<u8>) -> Seq<char> {
    combined_output(utf8_lossy(out), utf8_lossy(err))
}

/// Standard output, then standard error under a `[stderr]` line when it is
/// not blank; "(no output)" when all of it is blank.
pub open spec fn combined_output(o: Seq<char>, e: Seq<char>) -> Seq<char> {
    let s = if trim(e).len() > 0 {
        o + "\n[stderr]\n"@ + e
    } else {
        o
    };
    if trim(s).len() == 0 {
        "(no output)"@
    } else {
        s
    }
}

/// The text of a finished process's output.
pub fn process_output(out: &[u8], err: &[u8]) -> (r: String)
    ensures
        r@ == process_output_spec(out@, err@),
{
    let o = from_utf8_lossy(out);
    let e = from_utf8_lossy(err);
    combine_output(o.as_str(), e.as_str())
}

/// The text of a process's decoded standard output and standard error.
pub fn combine_output(out: &str, err: &str) -> (r: String)
    ensures
        r@ == combined_output(out@, err@),
{
    let mut s = out.to_owned();
    if !trim_str(err).as_str().is_empty() {
        push_str(&mut s, "\n[stderr]\n");
        push_str(&mut s, err);
    }
    if trim_str(s.as_str()).as_str().is_empty() {
        s = "(no output)".to_owned();
    }
    s
}

/// How a run of a process ended.
pub enum RunOutcome {
    /// It exited; what it wrote to standard output and standard error.
    Finished { stdout: Vec<u8>, stderr: Vec<u8> },
    /// It could not be started.
    SpawnFailed(String),
    /// Waiting for it failed.
    ProcessError(String),
    /// It ran past the time limit.
    TimedOut,
}

/// The output of a run, or its error.
pub fn run_result(o: &RunOutcome) -> (r: Result<String, String>)
    ensures
        match o {
            RunOutcome::Finished { stdout, stderr } => r matches Ok(s) && s@ == process_output_spec(
                stdout@,
                stderr@,
            ),
            RunOutcome::SpawnFailed(e) => r matches Err(m) && m@ == "spawn failed: "@ + e@,
            RunOutcome::ProcessError(e) => r matches Err(m) && m@ == "process error: "@ + e@,
            RunOutcome::TimedOut => r matches Err(m) && m@ == "timed out after 20s"@,
        },
{
    match o {
        RunOutcome::Finished { stdout, stderr } => Ok(process_output(stdout.as_slice(), stderr.as_slice())),
        RunOutcome::SpawnFailed(e) => {
            let mut m = "spawn failed: ".to_owned();
            push_str(&mut m, e.as_str());
            Err(m)
        },
        RunOutcome::ProcessError(e) => {
            let mut m = "process error: ".to_owned();
            push_str(&mut m, e.as_str());
            Err(m)
        },
        RunOutcome::TimedOut => Err("timed out after 20s".to_owned()),
    }
}

/// A run's output, cut to 8000 bytes with a note when longer.
pub open spec fn cap_spec(s: Seq<char>) -> Seq<char> {
    if utf8_len(s) > MAX_OUTPUT {
        byte_take(s, MAX_OUTPUT as int) + "\n\n[output truncated at 8000 chars]"@
    } else {
        s
    }
}

/// Caps a run's output for the model.
pub fn cap(s: &str) -> (r: String)
    requires
        utf8_len(s@) > MAX_OUTPUT ==> is_boundary(s@, MAX_OUTPUT as int),
    ensures
        r@ == cap_spec(s@),
{
    if byte_len(s) > MAX_OUTPUT {
        let mut r = byte_prefix(s, MAX_OUTPUT).to_owned();
        push_str(&mut r, "\n\n[output truncated at 8000 chars]");
        r
    } else {
        s.to_owned()
    }
}

} // verus!
