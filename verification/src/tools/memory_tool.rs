//! Memory tools: `remember` stores durable facts or notes in long-term
//! memory; `recall` retrieves relevant memories.

use vstd::prelude::*;
use super::{missing_arg, opt_str, optional_str, required_str, ToolInfo};
use crate::agent::MemoryHit;
use crate::json::Json;
use crate::text::{byte_len, byte_prefix, byte_take, is_boundary, push_str, str_eq, utf8_len};

verus! {

/// Saves a fact to long-term memory.
pub struct RememberTool;

impl RememberTool {
    /// The tool's name, as the model calls it.
    pub fn name(&self) -> (r: String)
        ensures
            r@ == "remember"@,
    {
        "remember".to_owned()
    }

    /// What the tool does, as shown to the model.
    pub fn description(&self) -> (r: String)
        ensures
            r@ == "Save a durable fact to long-term memory. Use kind 'soul' for facts about the user."@,
    {
        "Save a durable fact to long-term memory. Use kind 'soul' for facts about the user.".to_owned()
    }

    /// The tool's arguments, as the JSON text shown to the model.
    pub fn args_hint(&self) -> (r: String)
        ensures
            r@ == "{\"content\":\"the fact to remember\",\"kind\":\"soul | note (default soul)\"}"@,
    {
        "{\"content\":\"the fact to remember\",\"kind\":\"soul | note (default soul)\"}".to_owned()
    }

    /// Whether invoking the tool mutates state (requires confirmation).
    pub fn mutating(&self) -> (r: bool)
        ensures
            r == false,
    {
        false
    }

    /// The tool's registry entry.
    pub fn info(&self) -> (r: ToolInfo)
        ensures
            r.name@ == "remember"@,
            r.description@ == "Save a durable fact to long-term memory. Use kind 'soul' for facts about the user."@,
            r.args_hint@ == "{\"content\":\"the fact to remember\",\"kind\":\"soul | note (default soul)\"}"@,
            r.mutating == false,
    {
        ToolInfo {
            name: self.name(),
            description: self.description(),
            args_hint: self.args_hint(),
            mutating: self.mutating(),
        }
    }
}

/// Searches long-term memory.
pub struct RecallTool;

impl RecallTool {
    /// The tool's name, as the model calls it.
    pub fn name(&self) -> (r: String)
        ensures
            r@ == "recall"@,
    {
        "recall".to_owned()
    }

    /// What the tool does, as shown to the model.
    pub fn description(&self) -> (r: String)
        ensures
            r@ == "Search long-term memory (past chats, documents, images, soul) for relevant info."@,
    {
        "Search long-term memory (past chats, documents, images, soul) for relevant info.".to_owned()
    }

    /// The tool's arguments, as the JSON text shown to the model.
    pub fn args_hint(&self) -> (r: String)
        ensures
            r@ == "{\"query\":\"what to look up\"}"@,
    {
        "{\"query\":\"what to look up\"}".to_owned()
    }

    /// Whether invoking the tool mutates state (requires confirmation).
    pub fn mutating(&self) -> (r: bool)
        ensures
            r == false,
    {
        false
    }

    /// The tool's registry entry.
    pub fn info(&self) -> (r: ToolInfo)
        ensures
            r.name@ == "recall"@,
            r.description@ == "Search long-term memory (past chats, documents, images, soul) for relevant info."@,
            r.args_hint@ == "{\"query\":\"what to look up\"}"@,
            r.mutating == false,
    {
        ToolInfo {
            name: self.name(),
            description: self.description(),
            args_hint: self.args_hint(),
            mutating: self.mutating(),
        }
    }
}


/// The kind and content of a `remember` call: kind `note` when asked for,
/// `soul` otherwise; the content is required.
pub open spec fn remember_args_spec(args: Json) -> Result<(Seq<char>, Seq<char>), Seq<char>> {
    match opt_str(args, "content"@) {
        Some(c) => Ok((if opt_str(args, "kind"@) == Some("note"@) { "note"@ } else { "soul"@ }, c)),
        None => Err(missing_arg("content"@)),
    }
}

/// The kind and content of a `remember` call.
pub fn remember_args(args: &Json) -> (r: Result<(String, String), String>)
    ensures
        match (r, remember_args_spec(*args)) {
            (Ok((k, c)), Ok((sk, sc))) => k@ == sk && c@ == sc,
            (Err(e), Err(se)) => e@ == se,
            _ => false,
        },
{
    let content = match required_str(args, "content") {
        Ok(c) => c,
        Err(e) => return Err(e),
    };
    let kind = match optional_str(args, "kind") {
        Some(k) => if str_eq(k.as_str(), "note") {
            "note".to_owned()
        } else {
            "soul".to_owned()
        },
        None => "soul".to_owned(),
    };
    Ok((kind, content))
}

/// The activity-log line of a stored memory.
pub fn remembered_note(kind: &str, content: &str) -> (r: String)
    ensures
        r@ == "remembered ("@ + kind@ + "): "@ + content@,
{
    let mut r = "remembered (".to_owned();
    push_str(&mut r, kind);
    push_str(&mut r, "): ");
    push_str(&mut r, content);
    r
}

/// The observation after storing a memory.
pub fn saved_note(kind: &str) -> (r: String)
    ensures
        r@ == "Saved to long-term memory ("@ + kind@ + ")."@,
{
    let mut r = "Saved to long-term memory (".to_owned();
    push_str(&mut r, kind);
    push_str(&mut r, ").");
    r
}

/// The number of memories a recall retrieves.
pub const RECALL_LIMIT: usize = 6;

/// One recalled memory: kind and score, source, and the content cut to 400
/// bytes.
pub open spec fn recall_line(h: MemoryHit) -> Seq<char> {
    "["@ + h.kind@ + " "@ + h.score_text@ + "] (src: "@ + h.source@ + ")\n"@ + (if utf8_len(h.content@) > 400 {
        byte_take(h.content@, 400)
    } else {
        h.content@
    }) + "\n\n"@
}

/// The lines of the relevant memories, in order.
pub open spec fn recall_lines(hits: Seq<MemoryHit>) -> Seq<char>
    decreases hits.len(),
{
    if hits.len() == 0 {
        seq![]
    } else {
        recall_lines(hits.drop_last()) + if hits.last().relevant {
            recall_line(hits.last())
        } else {
            seq![]
        }
    }
}

/// The observation of a recall: "No relevant memories found." when nothing
/// was retrieved, the relevant memories, or "No sufficiently relevant
/// memories found." when none of them is relevant.
pub open spec fn recall_output_spec(hits: Seq<MemoryHit>) -> Seq<char> {
    if hits.len() == 0 {
        "No relevant memories found."@
    } else if recall_lines(hits).len() == 0 {
        "No sufficiently relevant memories found."@
    } else {
        recall_lines(hits)
    }
}

/// The relevant memories' contents can be cut at 400 bytes.
pub open spec fn recall_cuttable(hits: Seq<MemoryHit>) -> bool {
    forall|i: int|
        0 <= i < hits.len() && #[trigger] hits[i].relevant ==> (utf8_len(hits[i].content@) > 400
            ==> is_boundary(hits[i].content@, 400))
}

/// Formats retrieved memories for the model.
pub fn recall_output(hits: &Vec<MemoryHit>) -> (r: String)
    requires
        recall_cuttable(hits@),
    ensures
        r@ == recall_output_spec(hits@),
{
    if hits.len() == 0 {
        return "No relevant memories found.".to_owned();
    }
    let mut out = String::new();
    let mut i: usize = 0;
    while i < hits.len()
        invariant
            i <= hits@.len(),
            recall_cuttable(hits@),
            out@ == recall_lines(hits@.take(i as int)),
        decreases hits@.len() - i,
    {
        assert(hits@.take(i + 1).drop_last() =~= hits@.take(i as int));
        let h = &hits[i];
        if h.relevant {
            push_str(&mut out, "[");
            push_str(&mut out, h.kind.as_str());
            push_str(&mut out, " ");
            push_str(&mut out, h.score_text.as_str());
            push_str(&mut out, "] (src: ");
            push_str(&mut out, h.source.as_str());
            push_str(&mut out, ")\n");
            if byte_len(h.content.as_str()) > 400 {
                push_str(&mut out, byte_prefix(h.content.as_str(), 400));
            } else {
                push_str(&mut out, h.content.as_str());
            }
            push_str(&mut out, "\n\n");
        } else {
            assert(out@ =~= out@ + Seq::<char>::empty());
        }
        i += 1;
    }
    assert(hits@.take(hits@.len() as int) =~= hits@);
    if out.as_str().is_empty() {
        out = "No sufficiently relevant memories found.".to_owned();
    }
    out
}

} // verus!
