//! File read (read-only, logged) and file write (mutating, confirmed with a
//! before/after preview).

use vstd::prelude::*;
use super::{missing_arg, required_str, ToolInfo};
use crate::json::Json;
use crate::text::{byte_len, byte_prefix, byte_take, decimal, decimal_string, is_boundary, push_str, utf8_len};

verus! {

/// Reads a local file.
pub struct ReadFileTool;

impl ReadFileTool {
    /// The tool's name, as the model calls it.
    pub fn name(&self) -> (r: String)
        ensures
            r@ == "read_file"@,
    {
        "read_file".to_owned()
    }

    /// What the tool does, as shown to the model.
    pub fn description(&self) -> (r: String)
        ensures
            r@ == "Read a local text/code file (read-only)."@,
    {
        "Read a local text/code file (read-only).".to_owned()
    }

    /// The tool's arguments, as the JSON text shown to the model.
    pub fn args_hint(&self) -> (r: String)
        ensures
            r@ == "{\"path\":\"absolute or relative file path\"}"@,
    {
        "{\"path\":\"absolute or relative file path\"}".to_owned()
    }

    /// Whether invoking the tool mutates state (requires confirmation).
    pub fn mutating(&self) -> (r: bool)
        ensures
            r == false,
    {
        false
    }

    /// The tool's registry entry.
    pub fn info(&self) -> (r: ToolInfo)
        ensures
            r.name@ == "read_file"@,
            r.description@ == "Read a local text/code file (read-only)."@,
            r.args_hint@ == "{\"path\":\"absolute or relative file path\"}"@,
            r.mutating == false,
    {
        ToolInfo {
            name: self.name(),
            description: self.description(),
            args_hint: self.args_hint(),
            mutating: self.mutating(),
        }
    }
}

/// Writes a local file after confirmation.
pub struct WriteFileTool;

impl WriteFileTool {
    /// The tool's name, as the model calls it.
    pub fn name(&self) -> (r: String)
        ensures
            r@ == "write_file"@,
    {
        "write_file".to_owned()
    }

    /// What the tool does, as shown to the model.
    pub fn description(&self) -> (r: String)
        ensures
            r@ == "Write/overwrite a local file. Requires user confirmation."@,
    {
        "Write/overwrite a local file. Requires user confirmation.".to_owned()
    }

    /// The tool's arguments, as the JSON text shown to the model.
    pub fn args_hint(&self) -> (r: String)
        ensures
            r@ == "{\"content\":\"full file contents to write\",\"path\":\"file path\"}"@,
    {
        "{\"content\":\"full file contents to write\",\"path\":\"file path\"}".to_owned()
    }

    /// Whether invoking the tool mutates state (requires confirmation).
    pub fn mutating(&self) -> (r: bool)
        ensures
            r == true,
    {
        true
    }

    /// The tool's registry entry.
    pub fn info(&self) -> (r: ToolInfo)
        ensures
            r.name@ == "write_file"@,
            r.description@ == "Write/overwrite a local file. Requires user confirmation."@,
            r.args_hint@ == "{\"content\":\"full file contents to write\",\"path\":\"file path\"}"@,
            r.mutating == true,
    {
        ToolInfo {
            name: self.name(),
            description: self.description(),
            args_hint: self.args_hint(),
            mutating: self.mutating(),
        }
    }
}


/// The most of a file that is shown, in bytes.
pub const MAX_READ: usize = 20000;

/// What reading a file shows: its text, or, past 20000 bytes, the first
/// 20000 bytes and a note of the whole length.
pub open spec fn read_output_spec(content: Seq<char>) -> Seq<char> {
    if utf8_len(content) > MAX_READ {
        byte_take(content, MAX_READ as int) + "\n\n[truncated at 20000 chars of "@ + decimal(utf8_len(content))
            + "]"@
    } else {
        content
    }
}

/// The observation for a file's text.
pub fn read_output(content: &str) -> (r: String)
    requires
        utf8_len(content@) > MAX_READ ==> is_boundary(content@, MAX_READ as int),
    ensures
        r@ == read_output_spec(content@),
{
    let n = byte_len(content);
    if n > MAX_READ {
        let mut r = byte_prefix(content, MAX_READ).to_owned();
        push_str(&mut r, "\n\n[truncated at 20000 chars of ");
        push_str(&mut r, decimal_string(n as u64).as_str());
        push_str(&mut r, "]");
        r
    } else {
        content.to_owned()
    }
}

/// The error of a file that could not be read.
pub fn read_error(path: &str, err: &str) -> (r: String)
    ensures
        r@ == "could not read "@ + path@ + ": "@ + err@,
{
    let mut r = "could not read ".to_owned();
    push_str(&mut r, path);
    push_str(&mut r, ": ");
    push_str(&mut r, err);
    r
}

/// `s` cut to `n` bytes with a note of how many were left out, when longer.
pub open spec fn clip_spec(s: Seq<char>, n: nat) -> Seq<char> {
    if utf8_len(s) > n {
        byte_take(s, n as int) + "…[+"@ + decimal((utf8_len(s) - n) as nat) + " chars]"@
    } else {
        s
    }
}

/// `s` cut to `n` bytes, marked with the number of bytes left out.
pub fn truncate(s: &str, n: usize) -> (r: String)
    requires
        utf8_len(s@) > n ==> is_boundary(s@, n as int),
    ensures
        r@ == clip_spec(s@, n as nat),
{
    let len = byte_len(s);
    if len > n {
        let mut r = byte_prefix(s, n).to_owned();
        push_str(&mut r, "…[+");
        push_str(&mut r, decimal_string((len - n) as u64).as_str());
        push_str(&mut r, " chars]");
        r
    } else {
        s.to_owned()
    }
}

/// The path and content of a write request, or the error for the first one
/// missing.
pub fn write_args(args: &Json) -> (r: Result<(String, String), String>)
    ensures
        match (args.get_spec("path"@), args.get_spec("content"@)) {
            (Some(p), Some(c)) => match (p.str_spec(), c.str_spec()) {
                (Some(ps), Some(cs)) => r matches Ok((x, y)) && x@ == ps && y@ == cs,
                (None, _) => r matches Err(e) && e@ == missing_arg("path"@),
                (Some(_), None) => r matches Err(e) && e@ == missing_arg("content"@),
            },
            (Some(p), None) => match p.str_spec() {
                Some(_) => r matches Err(e) && e@ == missing_arg("content"@),
                None => r matches Err(e) && e@ == missing_arg("path"@),
            },
            (None, _) => r matches Err(e) && e@ == missing_arg("path"@),
        },
{
    let path = match required_str(args, "path") {
        Ok(p) => p,
        Err(e) => return Err(e),
    };
    let content = match required_str(args, "content") {
        Ok(c) => c,
        Err(e) => return Err(e),
    };
    Ok((path, content))
}

/// The confirmation text of a write: the current file (cut to 1500 bytes)
/// against the new content (cut to 3000 bytes), or the new content alone
/// for a new file.
pub open spec fn write_preview_spec(path: Seq<char>, existing: Option<Seq<char>>, content: Seq<char>) -> Seq<
    char,
> {
    match existing {
        Some(old) => "OVERWRITE "@ + path + "\n\n--- current ("@ + decimal(utf8_len(old)) + " bytes) ---\n"@
            + clip_spec(old, 1500) + "\n\n+++ new ("@ + decimal(utf8_len(content)) + " bytes) +++\n"@
            + clip_spec(content, 3000),
        None => "CREATE "@ + path + "\n\n+++ new ("@ + decimal(utf8_len(content)) + " bytes) +++\n"@
            + clip_spec(content, 3000),
    }
}

/// The confirmation text shown before a write.
pub fn write_preview(path: &str, existing: Option<&str>, content: &str) -> (r: String)
    requires
        utf8_len(content@) > 3000 ==> is_boundary(content@, 3000),
        existing matches Some(old) ==> (utf8_len(old@) > 1500 ==> is_boundary(old@, 1500)),
    ensures
        r@ == write_preview_spec(path@, match existing { Some(o) => Some(o@), None => None }, content@),
{
    match existing {
        Some(old) => {
            let mut r = "OVERWRITE ".to_owned();
            push_str(&mut r, path);
            push_str(&mut r, "\n\n--- current (");
            push_str(&mut r, decimal_string(byte_len(old) as u64).as_str());
            push_str(&mut r, " bytes) ---\n");
            push_str(&mut r, truncate(old, 1500).as_str());
            push_str(&mut r, "\n\n+++ new (");
            push_str(&mut r, decimal_string(byte_len(content) as u64).as_str());
            push_str(&mut r, " bytes) +++\n");
            push_str(&mut r, truncate(content, 3000).as_str());
            r
        },
        None => {
            let mut r = "CREATE ".to_owned();
            push_str(&mut r, path);
            push_str(&mut r, "\n\n+++ new (");
            push_str(&mut r, decimal_string(byte_len(content) as u64).as_str());
            push_str(&mut r, " bytes) +++\n");
            push_str(&mut r, truncate(content, 3000).as_str());
            r
        },
    }
}

/// The observation when the user declines a write.
pub fn write_denied(path: &str) -> (r: String)
    ensures
        r@ == "DENIED: user declined to write "@ + path@ + "."@,
{
    let mut r = "DENIED: user declined to write ".to_owned();
    push_str(&mut r, path);
    push_str(&mut r, ".");
    r
}

/// The error of a failed write.
pub fn write_error(err: &str) -> (r: String)
    ensures
        r@ == "write failed: "@ + err@,
{
    let mut r = "write failed: ".to_owned();
    push_str(&mut r, err);
    r
}

/// The activity-log line of a write.
pub fn write_activity(path: &str, content: &str) -> (r: String)
    ensures
        r@ == path@ + " ("@ + decimal(utf8_len(content@)) + " bytes)"@,
{
    let mut r = path.to_owned();
    push_str(&mut r, " (");
    push_str(&mut r, decimal_string(byte_len(content) as u64).as_str());
    push_str(&mut r, " bytes)");
    r
}

/// The observation after a successful write.
pub fn wrote(path: &str, content: &str) -> (r: String)
    ensures
        r@ == "Wrote "@ + decimal(utf8_len(content@)) + " bytes to "@ + path@ + "."@,
{
    let mut r = "Wrote ".to_owned();
    push_str(&mut r, decimal_string(byte_len(content) as u64).as_str());
    push_str(&mut r, " bytes to ");
    push_str(&mut r, path);
    push_str(&mut r, ".");
    r
}

} // verus!
