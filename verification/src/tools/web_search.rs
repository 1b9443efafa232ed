//! Web search via the Tavily API (read-only, logged).

use vstd::prelude::*;
use super::ToolInfo;
use crate::json::Json;
use crate::text::{cut_bytes, cut_bytes_str, decimal, decimal_string, is_boundary, push_str, utf8_len};

verus! {

/// Searches the web.
pub struct WebSearchTool;

impl WebSearchTool {
    /// The tool's name, as the model calls it.
    pub fn name(&self) -> (r: String)
        ensures
            r@ == "web_search"@,
    {
        "web_search".to_owned()
    }

    /// What the tool does, as shown to the model.
    pub fn description(&self) -> (r: String)
        ensures
            r@ == "Search the web for current information."@,
    {
        "Search the web for current information.".to_owned()
    }

    /// The tool's arguments, as the JSON text shown to the model.
    pub fn args_hint(&self) -> (r: String)
        ensures
            r@ == "{\"query\":\"search query\"}"@,
    {
        "{\"query\":\"search query\"}".to_owned()
    }

    /// Whether invoking the tool mutates state (requires confirmation).
    pub fn mutating(&self) -> (r: bool)
        ensures
            r == false,
    {
        false
    }

    /// The tool's registry entry.
    pub fn info(&self) -> (r: ToolInfo)
        ensures
            r.name@ == "web_search"@,
            r.description@ == "Search the web for current information."@,
            r.args_hint@ == "{\"query\":\"search query\"}"@,
            r.mutating == false,
    {
        ToolInfo {
            name: self.name(),
            description: self.description(),
            args_hint: self.args_hint(),
            mutating: self.mutating(),
        }
    }
}

/// The observation when no Tavily key is configured.
pub open spec fn unavailable_note() -> Seq<char> {
    "web_search unavailable: TAVILY_API_KEY is not set in .env."@
}

/// The observation when web search is not configured.
pub fn unavailable() -> (r: String)
    ensures
        r@ == unavailable_note(),
{
    "web_search unavailable: TAVILY_API_KEY is not set in .env.".to_owned()
}

/// `s` cut to `n` bytes with `…` appended, when longer.
pub fn truncate(s: &str, n: usize) -> (r: String)
    requires
        utf8_len(s@) > n ==> is_boundary(s@, n as int),
    ensures
        r@ == cut_bytes(s@, n as int, "…"@),
{
    cut_bytes_str(s, n, "…")
}

/// One numbered search hit: title, URL and the content cut to 500 bytes.
pub open spec fn hit_block(i: nat, r: Json) -> Seq<char> {
    "["@ + decimal(i + 1) + "] "@ + r.str_or_empty("title"@) + "\n"@ + r.str_or_empty("url"@) + "\n"@
        + cut_bytes(r.str_or_empty("content"@), 500, "…"@) + "\n\n"@
}

/// The numbered hits.
pub open spec fn hit_blocks(rs: Seq<Json>) -> Seq<char>
    decreases rs.len(),
{
    if rs.len() == 0 {
        seq![]
    } else {
        hit_blocks(rs.drop_last()) + hit_block((rs.len() - 1) as nat, rs.last())
    }
}

/// The `results` array of a reply.
pub open spec fn results_of(v: Json) -> Seq<Json> {
    match v.get_spec("results"@) {
        Some(Json::Array(rs)) => rs@,
        _ => seq![],
    }
}

/// Every hit's content can be cut at 500 bytes.
pub open spec fn contents_cuttable(v: Json) -> bool {
    forall|i: int|
        0 <= i < results_of(v).len() ==> (utf8_len(#[trigger] results_of(v)[i].str_or_empty("content"@))
            > 500 ==> is_boundary(results_of(v)[i].str_or_empty("content"@), 500))
}

/// The observation for a Tavily reply: the summary answer if any, then the
/// numbered hits; "No results." when there is neither.
pub open spec fn search_output_spec(v: Json) -> Seq<char> {
    let summary = match v.get_spec("answer"@) {
        Some(a) => match a.str_spec() {
            Some(t) => if t.len() > 0 { "Summary: "@ + t + "\n\n"@ } else { seq![] },
            None => seq![],
        },
        None => seq![],
    };
    let out = summary + hit_blocks(results_of(v));
    if out.len() == 0 {
        "No results."@
    } else {
        out
    }
}

/// One numbered hit.
fn hit_text(i: usize, r: &Json) -> (t: String)
    requires
        i < u64::MAX,
        utf8_len(r.str_or_empty("content"@)) > 500 ==> is_boundary(r.str_or_empty("content"@), 500),
    ensures
        t@ == hit_block(i as nat, *r),
{
    let mut out = "[".to_owned();
    push_str(&mut out, decimal_string((i as u64) + 1).as_str());
    push_str(&mut out, "] ");
    push_str(&mut out, r.str_field("title").as_str());
    push_str(&mut out, "\n");
    push_str(&mut out, r.str_field("url").as_str());
    push_str(&mut out, "\n");
    let c = r.str_field("content");
    push_str(&mut out, truncate(c.as_str(), 500).as_str());
    push_str(&mut out, "\n\n");
    out
}

/// Formats a Tavily search reply for the model.
pub fn search_output(v: &Json) -> (r: String)
    requires
        contents_cuttable(*v),
    ensures
        r@ == search_output_spec(*v),
{
    let mut out = String::new();
    match v.get("answer") {
        Some(a) => match a.as_str() {
            Some(t) => if !t.is_empty() {
                push_str(&mut out, "Summary: ");
                push_str(&mut out, t);
                push_str(&mut out, "\n\n");
            },
            None => {},
        },
        None => {},
    }
    let ghost summary = out@;
    match v.get("results") {
        Some(Json::Array(rs)) => {
            let mut i: usize = 0;
            while i < rs.len()
                invariant
                    i <= rs@.len(),
                    rs@ == results_of(*v),
                    contents_cuttable(*v),
                    out@ == summary + hit_blocks(rs@.take(i as int)),
                decreases rs@.len() - i,
            {
                assert(rs@.take(i + 1).drop_last() =~= rs@.take(i as int));
                let r = &rs[i];
                assert(results_of(*v)[i as int] == *r);
                let block = hit_text(i, r);
                push_str(&mut out, block.as_str());
                assert(out@ =~= summary + hit_blocks(rs@.take(i + 1)));
                i += 1;
            }
            assert(rs@.take(rs@.len() as int) =~= rs@);
        },
        _ => {
            assert(out@ =~= summary + hit_blocks(results_of(*v)));
        },
    }
    if out.as_str().is_empty() {
        "No results.".to_owned()
    } else {
        out
    }
}

} // verus!
