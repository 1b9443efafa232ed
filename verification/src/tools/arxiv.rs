//! arXiv fetcher: search by query, or fetch by arXiv id, via the Atom API.

use vstd::prelude::*;
use super::{opt_str, optional_str, ToolInfo};
use crate::json::Json;
use crate::research::{slice_vec, split_chars, split_on, url_encode, urlencode};
use crate::text::{
    chars_of, collapse_chars, collapse_str, collapsed, cut_bytes, cut_bytes_str, find, find_from_exec,
    is_boundary, join, join_strings, push_str, string_of, trim, trim_range, utf8_len,
};
use vstd::utf8::encode_utf8;

verus! {

/// Fetches arXiv papers.
pub struct ArxivTool;

impl ArxivTool {
    /// The tool's name, as the model calls it.
    pub fn name(&self) -> (r: String)
        ensures
            r@ == "arxiv"@,
    {
        "arxiv".to_owned()
    }

    /// What the tool does, as shown to the model.
    pub fn description(&self) -> (r: String)
        ensures
            r@ == "Fetch/summarize arXiv papers by search query or by paper id."@,
    {
        "Fetch/summarize arXiv papers by search query or by paper id.".to_owned()
    }

    /// The tool's arguments, as the JSON text shown to the model.
    pub fn args_hint(&self) -> (r: String)
        ensures
            r@ == "{\"id\":\"arXiv id e.g. 2403.01234 (optional)\",\"query\":\"search terms (optional)\"}"@,
    {
        "{\"id\":\"arXiv id e.g. 2403.01234 (optional)\",\"query\":\"search terms (optional)\"}".to_owned()
    }

    /// Whether invoking the tool mutates state (requires confirmation).
    pub fn mutating(&self) -> (r: bool)
        ensures
            r == false,
    {
        false
    }

    /// The tool's registry entry.
    pub fn info(&self) -> (r: ToolInfo)
        ensures
            r.name@ == "arxiv"@,
            r.description@ == "Fetch/summarize arXiv papers by search query or by paper id."@,
            r.args_hint@ == "{\"id\":\"arXiv id e.g. 2403.01234 (optional)\",\"query\":\"search terms (optional)\"}"@,
            r.mutating == false,
    {
        ToolInfo {
            name: self.name(),
            description: self.description(),
            args_hint: self.args_hint(),
            mutating: self.mutating(),
        }
    }
}


/// What a tool call asks of arXiv: the activity line and the API URL. A
/// non-empty `id` wins over a non-empty `query`; with neither the call is
/// refused.
pub open spec fn request_spec(args: Json) -> Result<(Seq<char>, Seq<char>), Seq<char>> {
    let id = match opt_str(args, "id"@) {
        Some(x) => x,
        None => seq![],
    };
    let q = match opt_str(args, "query"@) {
        Some(x) => x,
        None => seq![],
    };
    if id.len() > 0 {
        Ok(("id "@ + id, "http://export.arxiv.org/api/query?id_list="@ + id))
    } else if q.len() > 0 {
        Ok((
            "search "@ + q,
            "http://export.arxiv.org/api/query?search_query=all:"@ + url_encode(encode_utf8(q), "+"@)
                + "&start=0&max_results=5"@,
        ))
    } else {
        Err("provide 'query' or 'id'"@)
    }
}

/// The activity line and API URL for a tool call, or the refusal.
pub fn request(args: &Json) -> (r: Result<(String, String), String>)
    ensures
        match (r, request_spec(*args)) {
            (Ok((a, u)), Ok((sa, su))) => a@ == sa && u@ == su,
            (Err(e), Err(se)) => e@ == se,
            _ => false,
        },
{
    let id = optional_str(args, "id");
    let q = optional_str(args, "query");
    match id {
        Some(x) => {
            if !x.as_str().is_empty() {
                let mut a = "id ".to_owned();
                push_str(&mut a, x.as_str());
                let mut u = "http://export.arxiv.org/api/query?id_list=".to_owned();
                push_str(&mut u, x.as_str());
                return Ok((a, u));
            }
        },
        None => {},
    }
    proof {
        reveal_strlit("");
    }
    match q {
        Some(x) => {
            if !x.as_str().is_empty() {
                let mut a = "search ".to_owned();
                push_str(&mut a, x.as_str());
                let mut u = "http://export.arxiv.org/api/query?search_query=all:".to_owned();
                push_str(&mut u, urlencoding(x.as_str()).as_str());
                push_str(&mut u, "&start=0&max_results=5");
                return Ok((a, u));
            }
        },
        None => {},
    }
    Err("provide 'query' or 'id'".to_owned())
}

/// Query-string encoding of search terms: unreserved bytes kept, space as
/// `+`, every other byte as `%XX`.
pub fn urlencoding(s: &str) -> (r: String)
    ensures
        r@ == url_encode(encode_utf8(s@), "+"@),
{
    urlencode(s)
}

/// Whitespace runs collapsed to single spaces, ends trimmed.
pub fn collapse(s: &str) -> (r: String)
    ensures
        r@ == collapsed(s@),
{
    collapse_str(s)
}

/// `s` cut to `n` bytes followed by `…`, when longer.
pub fn truncate(s: &str, n: usize) -> (r: String)
    requires
        utf8_len(s@) > n ==> is_boundary(s@, n as int),
    ensures
        r@ == cut_bytes(s@, n as int, "…"@),
{
    cut_bytes_str(s, n, "…")
}

/// `<name>`.
pub open spec fn open_tag(name: Seq<char>) -> Seq<char> {
    "<"@ + name + ">"@
}

/// `</name>`.
pub open spec fn close_tag(name: Seq<char>) -> Seq<char> {
    "</"@ + name + ">"@
}

/// The text between the first `<name>` and the first `</name>` of `s`, or
/// nothing when either is missing.
pub open spec fn tag_text(s: Seq<char>, name: Seq<char>) -> Seq<char> {
    match (find(s, open_tag(name)), find(s, close_tag(name))) {
        (Some(a), Some(b)) => s.subrange(a + open_tag(name).len(), b),
        _ => seq![],
    }
}

/// The first `</name>` does not start before the first `<name>` ends (the
/// slice between them is defined).
pub open spec fn tag_ok(s: Seq<char>, name: Seq<char>) -> bool {
    match (find(s, open_tag(name)), find(s, close_tag(name))) {
        (Some(a), Some(b)) => a + open_tag(name).len() <= b,
        _ => true,
    }
}

/// What precedes the first `</entry>` of a chunk (all of it when there is none).
pub open spec fn entry_body(chunk: Seq<char>) -> Seq<char> {
    match find(chunk, "</entry>"@) {
        Some(p) => chunk.take(p),
        None => chunk,
    }
}

/// The text of one Atom entry: title, link and abstract (cut to 700 bytes),
/// when it has a non-empty title.
pub open spec fn entry_text(e: Seq<char>) -> Option<Seq<char>> {
    let title = tag_text(e, "title"@);
    let id = tag_text(e, "id"@);
    let summary = tag_text(e, "summary"@);
    if title.len() == 0 {
        None
    } else {
        Some(
            "Title: "@ + collapsed(title) + "\nLink: "@ + trim(id) + "\nAbstract: "@ + collapsed(
                cut_bytes(summary, 700, "…"@),
            ),
        )
    }
}

/// An entry whose reading is defined: its three tags are in order, and a kept
/// entry's abstract, when longer than 700 bytes, can be cut there.
pub open spec fn entry_ok(e: Seq<char>) -> bool {
    &&& tag_ok(e, "title"@)
    &&& tag_ok(e, "id"@)
    &&& tag_ok(e, "summary"@)
    &&& (tag_text(e, "title"@).len() > 0 && utf8_len(tag_text(e, "summary"@)) > 700 ==> is_boundary(
        tag_text(e, "summary"@),
        700,
    ))
}

/// The chunks of a feed that follow each `<entry>`.
pub open spec fn atom_chunks(xml: Seq<char>) -> Seq<Seq<char>> {
    split_on(xml, "<entry>"@).drop_first()
}

/// The texts of the entries of the chunks, in order.
pub open spec fn entry_texts(chunks: Seq<Seq<char>>) -> Seq<Seq<char>>
    decreases chunks.len(),
{
    if chunks.len() == 0 {
        seq![]
    } else {
        match entry_text(entry_body(chunks.last())) {
            Some(t) => entry_texts(chunks.drop_last()).push(t),
            None => entry_texts(chunks.drop_last()),
        }
    }
}

/// The texts of the entries of an Atom feed.
pub open spec fn atom_entries(xml: Seq<char>) -> Seq<Seq<char>> {
    entry_texts(atom_chunks(xml))
}

/// Every entry of the feed can be read.
pub open spec fn atom_ok(xml: Seq<char>) -> bool {
    forall|i: int| 0 <= i < atom_chunks(xml).len() ==> entry_ok(entry_body(#[trigger] atom_chunks(xml)[i]))
}

/// The observation for an arXiv feed: the entries separated by blank lines,
/// or "No papers found.".
pub open spec fn papers_output_spec(xml: Seq<char>) -> Seq<char> {
    if atom_entries(xml).len() == 0 {
        "No papers found."@
    } else {
        join(atom_entries(xml), "\n\n"@)
    }
}

fn open_tag_chars(name: &str) -> (r: Vec<char>)
    ensures
        r@ == open_tag(name@),
{
    let mut t = "<".to_owned();
    push_str(&mut t, name);
    push_str(&mut t, ">");
    chars_of(t.as_str())
}

fn close_tag_chars(name: &str) -> (r: Vec<char>)
    ensures
        r@ == close_tag(name@),
{
    let mut t = "</".to_owned();
    push_str(&mut t, name);
    push_str(&mut t, ">");
    chars_of(t.as_str())
}

/// Whether the tag `name` can be read from `e`.
fn tag_ok_exec(e: &Vec<char>, name: &str) -> (r: bool)
    ensures
        r == tag_ok(e@, name@),
{
    let open = open_tag_chars(name);
    let close = close_tag_chars(name);
    match (find_from_exec(e, &open, 0), find_from_exec(e, &close, 0)) {
        (Some(a), Some(b)) => {
            proof {
                crate::text::lemma_find_from_some(e@, open@, 0);
            }
            open.len() <= b && a <= b - open.len()
        },
        _ => true,
    }
}

/// The text between `<name>` and `</name>` in `e`.
fn tag_chars(e: &Vec<char>, name: &str) -> (r: Vec<char>)
    requires
        tag_ok(e@, name@),
    ensures
        r@ == tag_text(e@, name@),
{
    let open = open_tag_chars(name);
    let close = close_tag_chars(name);
    match (find_from_exec(e, &open, 0), find_from_exec(e, &close, 0)) {
        (Some(a), Some(b)) => {
            proof {
                crate::text::lemma_find_from_some(e@, open@, 0);
                crate::text::lemma_find_from_some(e@, close@, 0);
            }
            slice_vec(e, a + open.len(), b)
        },
        _ => Vec::new(),
    }
}

/// The text between the first `<name>` and the first `</name>` of `s`
/// (empty when either is missing).
pub fn tag(s: &str, name: &str) -> (r: String)
    requires
        tag_ok(s@, name@),
    ensures
        r@ == tag_text(s@, name@),
{
    let cs = chars_of(s);
    let t = tag_chars(&cs, name);
    let r = string_of(&t, 0, t.len());
    assert(t@.subrange(0, t@.len() as int) =~= t@);
    r
}

/// What precedes the first `</entry>` of a chunk.
fn entry_body_exec(chunk: &Vec<char>) -> (r: Vec<char>)
    ensures
        r@ == entry_body(chunk@),
{
    let close = chars_of("</entry>");
    match find_from_exec(chunk, &close, 0) {
        Some(p) => {
            proof {
                crate::text::lemma_find_from_some(chunk@, close@, 0);
            }
            let r = slice_vec(chunk, 0, p);
            assert(r@ =~= chunk@.take(p as int));
            r
        },
        None => slice_vec(chunk, 0, chunk.len()),
    }
}

/// Whether an entry can be read.
fn entry_ok_exec(e: &Vec<char>) -> (r: bool)
    ensures
        r == entry_ok(e@),
{
    if !tag_ok_exec(e, "title") || !tag_ok_exec(e, "id") || !tag_ok_exec(e, "summary") {
        return false;
    }
    let title = tag_chars(e, "title");
    let summary = tag_chars(e, "summary");
    let sum = string_of(&summary, 0, summary.len());
    assert(summary@.subrange(0, summary@.len() as int) =~= summary@);
    if title.len() == 0 {
        return true;
    }
    let s = sum.as_str();
    crate::text::byte_len(s) <= 700 || s.is_char_boundary(700)
}

/// The text of one entry, when it has a title.
fn entry_text_exec(e: &Vec<char>) -> (r: Option<String>)
    requires
        entry_ok(e@),
    ensures
        match r {
            Some(t) => entry_text(e@) == Some(t@),
            None => entry_text(e@) is None,
        },
{
    let title = tag_chars(e, "title");
    let id = tag_chars(e, "id");
    let summary = tag_chars(e, "summary");
    if title.len() == 0 {
        return None;
    }
    let (a, b) = trim_range(&id, 0, id.len());
    assert(id@.subrange(0, id@.len() as int) =~= id@);
    let sum = string_of(&summary, 0, summary.len());
    assert(summary@.subrange(0, summary@.len() as int) =~= summary@);
    let cut = truncate(sum.as_str(), 700);
    let mut out = "Title: ".to_owned();
    push_str(&mut out, collapse_chars(&title).as_str());
    push_str(&mut out, "\nLink: ");
    push_str(&mut out, string_of(&id, a, b).as_str());
    push_str(&mut out, "\nAbstract: ");
    push_str(&mut out, collapse(cut.as_str()).as_str());
    Some(out)
}

/// The chunks of a feed that follow each `<entry>`.
fn chunks_of(xml: &str) -> (r: Vec<Vec<char>>)
    ensures
        r@.map_values(|v: Vec<char>| v@) == split_on(xml@, "<entry>"@),
{
    let cs = chars_of(xml);
    let sep = chars_of("<entry>");
    proof {
        reveal_strlit("<entry>");
    }
    split_chars(&cs, &sep)
}

/// Whether every entry of an Atom feed can be read (see [`parse_entries`]).
pub fn atom_readable(xml: &str) -> (r: bool)
    ensures
        r == atom_ok(xml@),
{
    let parts = chunks_of(xml);
    let ghost chunks = atom_chunks(xml@);
    if parts.len() == 0 {
        assert(chunks.len() == 0);
        return true;
    }
    let mut i: usize = 1;
    while i < parts.len()
        invariant
            1 <= i <= parts@.len(),
            chunks == parts@.map_values(|v: Vec<char>| v@).drop_first(),
            chunks == atom_chunks(xml@),
            forall|j: int| 0 <= j < i - 1 ==> entry_ok(entry_body(#[trigger] chunks[j])),
        decreases parts@.len() - i,
    {
        let body = entry_body_exec(&parts[i]);
        assert(chunks[i - 1] == parts@[i as int]@);
        if !entry_ok_exec(&body) {
            assert(!entry_ok(entry_body(atom_chunks(xml@)[i - 1])));
            return false;
        }
        i += 1;
    }
    true
}

/// The texts of the entries of an Atom feed: for each `<entry>`, its title
/// and abstract with whitespace collapsed, its trimmed id as the link, and
/// the abstract cut to 700 bytes; entries without a title are skipped.
pub fn parse_entries(xml: &str) -> (r: Vec<String>)
    requires
        atom_ok(xml@),
    ensures
        r@.map_values(|s: String| s@) == atom_entries(xml@),
{
    let parts = chunks_of(xml);
    let ghost chunks = atom_chunks(xml@);
    let mut out: Vec<String> = Vec::new();
    if parts.len() == 0 {
        assert(chunks.len() == 0);
        assert(out@.map_values(|s: String| s@) =~= entry_texts(chunks));
        return out;
    }
    let mut i: usize = 1;
    assert(chunks.take(0) =~= Seq::<Seq<char>>::empty());
    assert(out@.map_values(|s: String| s@) =~= entry_texts(chunks.take(0)));
    while i < parts.len()
        invariant
            1 <= i <= parts@.len(),
            chunks == parts@.map_values(|v: Vec<char>| v@).drop_first(),
            atom_ok(xml@),
            chunks == atom_chunks(xml@),
            out@.map_values(|s: String| s@) == entry_texts(chunks.take(i - 1)),
        decreases parts@.len() - i,
    {
        let body = entry_body_exec(&parts[i]);
        assert(chunks[i - 1] == parts@[i as int]@);
        assert(chunks.take(i as int).drop_last() =~= chunks.take(i - 1));
        assert(entry_ok(entry_body(chunks[i - 1])));
        let ghost before = out@.map_values(|s: String| s@);
        match entry_text_exec(&body) {
            Some(t) => {
                out.push(t);
                assert(out@.map_values(|s: String| s@) =~= before.push(out@.last()@));
            },
            None => {},
        }
        i += 1;
    }
    assert(chunks.take(chunks.len() as int) =~= chunks);
    out
}

/// Formats an arXiv Atom feed for the model.
pub fn papers_output(xml: &str) -> (r: String)
    requires
        atom_ok(xml@),
    ensures
        r@ == papers_output_spec(xml@),
{
    let entries = parse_entries(xml);
    if entries.len() == 0 {
        "No papers found.".to_owned()
    } else {
        join_strings(&entries, "\n\n")
    }
}

} // verus!
