//! Tool layer: the registry of tools the agent can invoke, the
//! model-facing description of them, and the approval rule for mutating
//! actions. Running a tool (network, files, processes, the confirmation
//! dialog) is done by the application around this module.

pub mod arxiv;
pub mod code_exec;
pub mod deep_research;
pub mod file_ops;
pub mod memory_tool;
pub mod openalex;
pub mod pdf_create;
pub mod shell;
pub mod web_fetch;
pub mod web_search;
pub mod wikipedia;

use vstd::prelude::*;
use crate::json::Json;
use crate::text::{push_str};

verus! {

/// A tool as the model sees it.
pub struct ToolInfo {
    pub name: String,
    pub description: String,
    pub args_hint: String,
    pub mutating: bool,
}

/// The default tool registry, in the order the model is told about it.
pub fn registry() -> (r: Vec<ToolInfo>)
    ensures
        r@.len() == 13,
        r@[0].name@ == "deep_research"@,
        r@[1].name@ == "read_file"@,
        r@[2].name@ == "write_file"@,
        r@[3].name@ == "code_exec"@,
        r@[4].name@ == "shell"@,
        r@[5].name@ == "web_search"@,
        r@[6].name@ == "web_fetch"@,
        r@[7].name@ == "wikipedia"@,
        r@[8].name@ == "openalex"@,
        r@[9].name@ == "arxiv"@,
        r@[10].name@ == "create_pdf"@,
        r@[11].name@ == "remember"@,
        r@[12].name@ == "recall"@,
        forall|i: int|
            0 <= i < 13 ==> (#[trigger] r@[i]).mutating == (i == 2 || i == 3 || i == 4 || i == 10),
{
    let mut v: Vec<ToolInfo> = Vec::new();
    v.push(deep_research::DeepResearchTool.info());
    v.push(file_ops::ReadFileTool.info());
    v.push(file_ops::WriteFileTool.info());
    v.push(code_exec::CodeExecTool.info());
    v.push(shell::ShellTool.info());
    v.push(web_search::WebSearchTool.info());
    v.push(web_fetch::WebFetchTool.info());
    v.push(wikipedia::WikipediaTool.info());
    v.push(openalex::OpenAlexTool.info());
    v.push(arxiv::ArxivTool.info());
    v.push(pdf_create::CreatePdfTool.info());
    v.push(memory_tool::RememberTool.info());
    v.push(memory_tool::RecallTool.info());
    v
}

/// One line of the tools prompt:
/// `- name: description | args: hint` and an approval note for mutating tools.
pub open spec fn tool_line(t: ToolInfo) -> Seq<char> {
    "- "@ + t.name@ + ": "@ + t.description@ + " | args: "@ + t.args_hint@ + (if t.mutating {
        " [needs user approval]"@
    } else {
        seq![]
    }) + "\n"@
}

/// The tools prompt: one line per tool.
pub open spec fn tools_prompt_spec(tools: Seq<ToolInfo>) -> Seq<char>
    decreases tools.len(),
{
    if tools.len() == 0 {
        seq![]
    } else {
        tools_prompt_spec(tools.drop_last()) + tool_line(tools.last())
    }
}

/// A compact, model-facing description of all tools for the system prompt.
pub fn tools_prompt(tools: &Vec<ToolInfo>) -> (r: String)
    ensures
        r@ == tools_prompt_spec(tools@),
{
    let mut s = String::new();
    let mut i: usize = 0;
    while i < tools.len()
        invariant
            i <= tools@.len(),
            s@ == tools_prompt_spec(tools@.take(i as int)),
        decreases tools@.len() - i,
    {
        let t = &tools[i];
        assert(tools@.take(i + 1).drop_last() =~= tools@.take(i as int));
        push_str(&mut s, "- ");
        push_str(&mut s, t.name.as_str());
        push_str(&mut s, ": ");
        push_str(&mut s, t.description.as_str());
        push_str(&mut s, " | args: ");
        push_str(&mut s, t.args_hint.as_str());
        if t.mutating {
            push_str(&mut s, " [needs user approval]");
        } else {
            assert(s@ + Seq::<char>::empty() =~= s@);
        }
        push_str(&mut s, "\n");
        assert(s@ =~= tools_prompt_spec(tools@.take(i as int)) + tool_line(tools@[i as int]));
        i += 1;
    }
    assert(tools@.take(tools@.len() as int) =~= tools@);
    s
}

/// The error for a missing or non-string argument.
pub open spec fn missing_arg(key: Seq<char>) -> Seq<char> {
    "missing '"@ + key + "'"@
}

/// A required string argument of a tool call (`args[key].as_str()`), or the
/// "missing" error.
pub fn required_str(args: &Json, key: &str) -> (r: Result<String, String>)
    ensures
        match args.get_spec(key@) {
            Some(v) => match v.str_spec() {
                Some(s) => r matches Ok(x) && x@ == s,
                None => r matches Err(e) && e@ == missing_arg(key@),
            },
            None => r matches Err(e) && e@ == missing_arg(key@),
        },
{
    match args.get(key) {
        Some(v) => match v.as_str() {
            Some(s) => Ok(s.to_owned()),
            None => Err(missing_error(key)),
        },
        None => Err(missing_error(key)),
    }
}

/// `missing 'key'`.
pub fn missing_error(key: &str) -> (r: String)
    ensures
        r@ == missing_arg(key@),
{
    let mut e = "missing '".to_owned();
    push_str(&mut e, key);
    push_str(&mut e, "'");
    e
}

/// An optional string argument (`args[key].as_str()`).
pub open spec fn opt_str(args: Json, key: Seq<char>) -> Option<Seq<char>> {
    match args.get_spec(key) {
        Some(v) => v.str_spec(),
        None => None,
    }
}

/// An optional string argument of a tool call.
pub fn optional_str(args: &Json, key: &str) -> (r: Option<String>)
    ensures
        r matches Some(x) ==> opt_str(*args, key@) == Some(x@),
        r is None ==> opt_str(*args, key@) is None,
{
    match args.get(key) {
        Some(v) => match v.as_str() {
            Some(s) => Some(s.to_owned()),
            None => None,
        },
        None => None,
    }
}

/// `DENIED: user declined to <what>.`, the observation of a refused action.
pub fn denied(what: &str) -> (r: String)
    ensures
        r@ == "DENIED: user declined to "@ + what@ + "."@,
{
    let mut s = "DENIED: user declined to ".to_owned();
    push_str(&mut s, what);
    push_str(&mut s, ".");
    s
}

} // verus!
