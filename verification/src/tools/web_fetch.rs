//! Fetch a URL and extract its readable text (read-only, logged).

use vstd::prelude::*;
use super::ToolInfo;
use crate::research::{is_html, strip_block_spec};
use crate::text::{
    chars_of, collapse_chars, collapsed, cut_bytes, cut_bytes_str, find_from_exec, is_boundary, is_ws_exec,
    replace, replace_chars, trim, trim_start, trim_str, untagged, strip_tags_str, utf8_len,
};

verus! {

/// Fetches a page as readable text.
pub struct WebFetchTool;

impl WebFetchTool {
    /// The tool's name, as the model calls it.
    pub fn name(&self) -> (r: String)
        ensures
            r@ == "web_fetch"@,
    {
        "web_fetch".to_owned()
    }

    /// What the tool does, as shown to the model.
    pub fn description(&self) -> (r: String)
        ensures
            r@ == "Fetch a web page (or raw URL) and return its readable text content."@,
    {
        "Fetch a web page (or raw URL) and return its readable text content.".to_owned()
    }

    /// The tool's arguments, as the JSON text shown to the model.
    pub fn args_hint(&self) -> (r: String)
        ensures
            r@ == "{\"url\":\"http(s) URL to fetch\"}"@,
    {
        "{\"url\":\"http(s) URL to fetch\"}".to_owned()
    }

    /// Whether invoking the tool mutates state (requires confirmation).
    pub fn mutating(&self) -> (r: bool)
        ensures
            r == false,
    {
        false
    }

    /// The tool's registry entry.
    pub fn info(&self) -> (r: ToolInfo)
        ensures
            r.name@ == "web_fetch"@,
            r.description@ == "Fetch a web page (or raw URL) and return its readable text content."@,
            r.args_hint@ == "{\"url\":\"http(s) URL to fetch\"}"@,
            r.mutating == false,
    {
        ToolInfo {
            name: self.name(),
            description: self.description(),
            args_hint: self.args_hint(),
            mutating: self.mutating(),
        }
    }
}

/// Most bytes of page text returned.
pub const MAX_TEXT: usize = 14_000;

/// The entities this reader decodes, `&nbsp;` first.
pub open spec fn decode_entities(s: Seq<char>) -> Seq<char> {
    replace(
        replace(
            replace(
                replace(
                    replace(
                        replace(
                            replace(replace(s, "&nbsp;"@, " "@), "&amp;"@, "&"@),
                            "&lt;"@,
                            "<"@,
                        ),
                        "&gt;"@,
                        ">"@,
                    ),
                    "&quot;"@,
                    "\""@,
                ),
                "&#39;"@,
                "'"@,
            ),
            "&rsquo;"@,
            "'"@,
        ),
        "&mdash;"@,
        "—"@,
    )
}

/// Very small HTML to text: script/style blocks dropped, tags stripped,
/// common entities decoded, whitespace collapsed.
pub open spec fn html_to_text_spec(html: Seq<char>) -> Seq<char> {
    collapsed(decode_entities(untagged(strip_block_spec(strip_block_spec(html, "script"@), "style"@))))
}

/// Removes `<tag ...>...</tag>` blocks (case-insensitive) entirely.
pub fn strip_block(s: &str, tag: &str) -> (r: String)
    ensures
        r@ == strip_block_spec(s@, tag@),
{
    crate::research::strip_block(s, tag)
}

/// Readable text of an HTML page.
pub fn html_to_text(html: &str) -> (r: String)
    ensures
        r@ == html_to_text_spec(html@),
{
    let without_blocks = strip_block(strip_block(html, "script").as_str(), "style");
    let out = strip_tags_str(without_blocks.as_str());
    let c0 = chars_of(out.as_str());
    let c1 = replace_chars(&c0, &chars_of("&nbsp;"), " ");
    let c2 = replace_chars(&c1, &chars_of("&amp;"), "&");
    let c3 = replace_chars(&c2, &chars_of("&lt;"), "<");
    let c4 = replace_chars(&c3, &chars_of("&gt;"), ">");
    let c5 = replace_chars(&c4, &chars_of("&quot;"), "\"");
    let c6 = replace_chars(&c5, &chars_of("&#39;"), "'");
    let c7 = replace_chars(&c6, &chars_of("&rsquo;"), "'");
    let c8 = replace_chars(&c7, &chars_of("&mdash;"), "—");
    collapse_chars(&c8)
}

/// The page text before capping: readable text for HTML, the body
/// otherwise, trimmed.
pub open spec fn fetched_text(ctype: Seq<char>, body: Seq<char>) -> Seq<char> {
    trim(if is_html(ctype, body) { html_to_text_spec(body) } else { body })
}

/// The observation of a fetched page: its text, cut to `MAX_TEXT` bytes
/// with a note when longer.
pub open spec fn fetch_output_spec(ctype: Seq<char>, body: Seq<char>) -> Seq<char> {
    cut_bytes(fetched_text(ctype, body), MAX_TEXT as int, "\n\n[truncated at 14000 chars]"@)
}

/// The text of a fetched response, trimmed.
pub fn fetched(ctype: &str, body: &str) -> (r: String)
    ensures
        r@ == fetched_text(ctype@, body@),
{
    let tc = chars_of(ctype);
    let bc = chars_of(body);
    let html_type = find_from_exec(&tc, &chars_of("html"), 0).is_some();
    let mut a: usize = 0;
    assert(bc@.skip(0) =~= bc@);
    while a < bc.len() && is_ws_exec(bc[a])
        invariant
            a <= bc@.len(),
            bc@ == body@,
            trim_start(bc@) == trim_start(bc@.skip(a as int)),
        decreases bc@.len() - a,
    {
        assert(bc@.skip(a as int).drop_first() =~= bc@.skip(a + 1));
        a += 1;
    }
    proof {
        reveal_strlit("<");
    }
    let starts_tag = a < bc.len() && bc[a] == '<';
    proof {
        if a < bc@.len() {
            assert(bc@.skip(a as int)[0] == bc@[a as int]);
            assert(trim_start(bc@.skip(a as int)) == bc@.skip(a as int));
            assert(bc@.skip(a as int).take(1) =~= seq![bc@[a as int]]);
            assert("<"@ =~= seq!['<']);
            if crate::text::starts_with(bc@.skip(a as int), "<"@) {
                assert(bc@.skip(a as int).take(1)[0] == "<"@[0]);
            }
        } else {
            assert(bc@.skip(a as int).len() == 0);
        }
        assert(starts_tag == crate::text::starts_with(trim_start(body@), "<"@));
    }
    if html_type || starts_tag {
        trim_str(html_to_text(body).as_str())
    } else {
        trim_str(body)
    }
}

/// The observation for a fetched page.
pub fn fetch_output(ctype: &str, body: &str) -> (r: String)
    requires
        utf8_len(fetched_text(ctype@, body@)) > MAX_TEXT ==> is_boundary(fetched_text(ctype@, body@), MAX_TEXT as int),
    ensures
        r@ == fetch_output_spec(ctype@, body@),
{
    let text = fetched(ctype, body);
    cut_bytes_str(text.as_str(), MAX_TEXT, "\n\n[truncated at 14000 chars]")
}

} // verus!
