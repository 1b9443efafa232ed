//! Shell command execution on the host, confirmed before it runs.

use vstd::prelude::*;
use super::ToolInfo;

verus! {

/// Runs a shell command after confirmation.
pub struct ShellTool;

impl ShellTool {
    /// The tool's name, as the model calls it.
    pub fn name(&self) -> (r: String)
        ensures
            r@ == "shell"@,
    {
        "shell".to_owned()
    }

    /// What the tool does, as shown to the model.
    pub fn description(&self) -> (r: String)
        ensures
            r@ == "Run a shell command on the PC (scripts, tooling, file ops). Requires confirmation."@,
    {
        "Run a shell command on the PC (scripts, tooling, file ops). Requires confirmation.".to_owned()
    }

    /// The tool's arguments, as the JSON text shown to the model.
    pub fn args_hint(&self) -> (r: String)
        ensures
            r@ == "{\"command\":\"the command line to execute\"}"@,
    {
        "{\"command\":\"the command line to execute\"}".to_owned()
    }

    /// Whether invoking the tool mutates state (requires confirmation).
    pub fn mutating(&self) -> (r: bool)
        ensures
            r == true,
    {
        true
    }

    /// The tool's registry entry.
    pub fn info(&self) -> (r: ToolInfo)
        ensures
            r.name@ == "shell"@,
            r.description@ == "Run a shell command on the PC (scripts, tooling, file ops). Requires confirmation."@,
            r.args_hint@ == "{\"command\":\"the command line to execute\"}"@,
            r.mutating == true,
    {
        ToolInfo {
            name: self.name(),
            description: self.description(),
            args_hint: self.args_hint(),
            mutating: self.mutating(),
        }
    }
}


/// The program and arguments that run a command line: `cmd /C` on Windows,
/// `sh -c` elsewhere.
pub fn shell_invocation(windows: bool, command: &str) -> (r: (String, Vec<String>))
    ensures
        windows ==> r.0@ == "cmd"@ && r.1@.len() == 2 && r.1@[0]@ == "/C"@ && r.1@[1]@ == command@,
        !windows ==> r.0@ == "sh"@ && r.1@.len() == 2 && r.1@[0]@ == "-c"@ && r.1@[1]@ == command@,
{
    let mut args: Vec<String> = Vec::new();
    if windows {
        args.push("/C".to_owned());
        args.push(command.to_owned());
        ("cmd".to_owned(), args)
    } else {
        args.push("-c".to_owned());
        args.push(command.to_owned());
        ("sh".to_owned(), args)
    }
}

/// The observation when the user declines a command.
pub fn shell_denied() -> (r: String)
    ensures
        r@ == "DENIED: user declined to run the command."@,
{
    "DENIED: user declined to run the command.".to_owned()
}

} // verus!
