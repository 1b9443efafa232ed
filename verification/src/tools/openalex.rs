//! OpenAlex scholarly search: titles, authors, year, citations, venue, links.

use vstd::prelude::*;
use super::ToolInfo;
use crate::json::{get2, get2_of, get3, get3_of, Json};
use crate::research::{url_encode, url_encode_with};
use crate::text::{join, join_strings, push_str, signed_decimal, signed_decimal_string};
use vstd::utf8::encode_utf8;

verus! {

/// Searches scholarly works on OpenAlex.
pub struct OpenAlexTool;

impl OpenAlexTool {
    /// The tool's name, as the model calls it.
    pub fn name(&self) -> (r: String)
        ensures
            r@ == "openalex"@,
    {
        "openalex".to_owned()
    }

    /// What the tool does, as shown to the model.
    pub fn description(&self) -> (r: String)
        ensures
            r@ == "Search scholarly papers (OpenAlex): titles, authors, year, citations, open-access PDFs."@,
    {
        "Search scholarly papers (OpenAlex): titles, authors, year, citations, open-access PDFs.".to_owned()
    }

    /// The tool's arguments, as the JSON text shown to the model.
    pub fn args_hint(&self) -> (r: String)
        ensures
            r@ == "{\"query\":\"topic or paper search\"}"@,
    {
        "{\"query\":\"topic or paper search\"}".to_owned()
    }

    /// Whether invoking the tool mutates state (requires confirmation).
    pub fn mutating(&self) -> (r: bool)
        ensures
            r == false,
    {
        false
    }

    /// The tool's registry entry.
    pub fn info(&self) -> (r: ToolInfo)
        ensures
            r.name@ == "openalex"@,
            r.description@ == "Search scholarly papers (OpenAlex): titles, authors, year, citations, open-access PDFs."@,
            r.args_hint@ == "{\"query\":\"topic or paper search\"}"@,
            r.mutating == false,
    {
        ToolInfo {
            name: self.name(),
            description: self.description(),
            args_hint: self.args_hint(),
            mutating: self.mutating(),
        }
    }
}

/// Percent-encoding of a query for OpenAlex (space as `%20`).
pub fn encode(s: &str) -> (r: String)
    ensures
        r@ == url_encode(encode_utf8(s@), "%20"@),
{
    url_encode_with(s, "%20")
}

/// The OpenAlex works-search URL for a query.
pub fn works_url(query: &str) -> (r: String)
    ensures
        r@ == "https://api.openalex.org/works?search="@ + url_encode(encode_utf8(query@), "%20"@)
            + "&per_page=6&sort=relevance_score:desc&mailto=research@sleepers.local"@,
{
    let mut u = "https://api.openalex.org/works?search=".to_owned();
    push_str(&mut u, encode(query).as_str());
    push_str(&mut u, "&per_page=6&sort=relevance_score:desc&mailto=research@sleepers.local");
    u
}

/// The text of an optional value, or `dflt`.
pub open spec fn text_or(v: Option<Json>, dflt: Seq<char>) -> Seq<char> {
    match v {
        Some(x) => match x.str_spec() {
            Some(s) => s,
            None => dflt,
        },
        None => dflt,
    }
}

/// The integer of an optional value, or `dflt`.
pub open spec fn int_or(v: Option<Json>, dflt: int) -> int {
    match v {
        Some(x) => match x.i64_spec() {
            Some(n) => n as int,
            None => dflt,
        },
        None => dflt,
    }
}

/// The display names of the authorships that have one.
pub open spec fn author_names(aus: Seq<Json>) -> Seq<Seq<char>>
    decreases aus.len(),
{
    if aus.len() == 0 {
        seq![]
    } else {
        match get2(aus.last(), "author"@, "display_name"@) {
            Some(n) => match n.str_spec() {
                Some(s) => author_names(aus.drop_last()).push(s),
                None => author_names(aus.drop_last()),
            },
            None => author_names(aus.drop_last()),
        }
    }
}

/// The first three author names, comma-separated.
pub open spec fn authors_of(w: Json) -> Seq<char> {
    let names = match w.get_spec("authorships"@) {
        Some(Json::Array(a)) => author_names(a@),
        _ => seq![],
    };
    join(if names.len() > 3 { names.take(3) } else { names }, ", "@)
}

/// The head of a work's block: title, year, authors and citation count.
pub open spec fn work_head(w: Json) -> Seq<char> {
    let title = text_or(w.get_spec("title"@), "(untitled)"@);
    let year = int_or(w.get_spec("publication_year"@), 0);
    let cites = int_or(w.get_spec("cited_by_count"@), 0);
    "- "@ + title + " ("@ + signed_decimal(year) + ") — "@ + authors_of(w) + " | "@ + signed_decimal(cites)
        + " citations"@
}

/// The tail of a work's block: venue, link, open-access PDF.
pub open spec fn work_tail(w: Json) -> Seq<char> {
    let venue = text_or(get3(w, "primary_location"@, "source"@, "display_name"@), seq![]);
    let doi = text_or(w.get_spec("doi"@), seq![]);
    let landing = text_or(get2(w, "primary_location"@, "landing_page_url"@), seq![]);
    let oa = text_or(get2(w, "open_access"@, "oa_url"@), seq![]);
    let link = if doi.len() > 0 { doi } else { landing };
    (if venue.len() == 0 { seq![] } else { " | "@ + venue }) + "\n  "@ + link + (
    if oa.len() == 0 {
        seq![]
    } else {
        "\n  open-access PDF: "@ + oa
    }) + "\n"@
}

/// One work: title (year) — authors | citations, venue, link, open-access PDF.
pub open spec fn work_line(w: Json) -> Seq<char> {
    work_head(w) + work_tail(w)
}

/// The lines of the works.
pub open spec fn work_lines(ws: Seq<Json>) -> Seq<char>
    decreases ws.len(),
{
    if ws.len() == 0 {
        seq![]
    } else {
        work_lines(ws.drop_last()) + work_line(ws.last())
    }
}

/// The observation for an OpenAlex reply: one block per work, or "No
/// scholarly results." when `results` is missing or empty.
pub open spec fn works_output_spec(v: Json) -> Seq<char> {
    match v.get_spec("results"@) {
        Some(Json::Array(ws)) => if ws@.len() > 0 { work_lines(ws@) } else { "No scholarly results."@ },
        _ => "No scholarly results."@,
    }
}

fn text_of(v: Option<&Json>, dflt: &str) -> (r: String)
    ensures
        r@ == text_or(match v { Some(x) => Some(*x), None => None }, dflt@),
{
    match v {
        Some(x) => match x.as_str() {
            Some(s) => s.to_owned(),
            None => dflt.to_owned(),
        },
        None => dflt.to_owned(),
    }
}

fn int_of(v: Option<&Json>, dflt: i64) -> (r: i64)
    ensures
        r as int == int_or(match v { Some(x) => Some(*x), None => None }, dflt as int),
{
    match v {
        Some(x) => match x.as_i64() {
            Some(n) => n,
            None => dflt,
        },
        None => dflt,
    }
}

fn authors_text(w: &Json) -> (r: String)
    ensures
        r@ == authors_of(*w),
{
    let mut names: Vec<String> = Vec::new();
    match w.get("authorships") {
        Some(Json::Array(a)) => {
            let mut i: usize = 0;
            while i < a.len()
                invariant
                    i <= a@.len(),
                    names@.map_values(|s: String| s@) == author_names(a@.take(i as int)),
                decreases a@.len() - i,
            {
                assert(a@.take(i + 1).drop_last() =~= a@.take(i as int));
                let ghost before = names@.map_values(|s: String| s@);
                match get2_of(&a[i], "author", "display_name") {
                    Some(n) => match n.as_str() {
                        Some(s) => {
                            names.push(s.to_owned());
                            assert(names@.map_values(|s: String| s@) =~= before.push(s@));
                        },
                        None => {},
                    },
                    None => {},
                }
                i += 1;
            }
            assert(a@.take(a@.len() as int) =~= a@);
        },
        _ => {
            assert(names@.map_values(|s: String| s@) =~= Seq::<Seq<char>>::empty());
        },
    }
    let ghost all = names@.map_values(|s: String| s@);
    if names.len() > 3 {
        names.truncate(3);
        assert(names@.map_values(|s: String| s@) =~= all.take(3));
    }
    join_strings(&names, ", ")
}

fn work_head_text(w: &Json) -> (r: String)
    ensures
        r@ == work_head(*w),
{
    let title = text_of(w.get("title"), "(untitled)");
    let year = int_of(w.get("publication_year"), 0);
    let cites = int_of(w.get("cited_by_count"), 0);
    let mut out = "- ".to_owned();
    push_str(&mut out, title.as_str());
    push_str(&mut out, " (");
    push_str(&mut out, signed_decimal_string(year).as_str());
    push_str(&mut out, ") — ");
    push_str(&mut out, authors_text(w).as_str());
    push_str(&mut out, " | ");
    push_str(&mut out, signed_decimal_string(cites).as_str());
    push_str(&mut out, " citations");
    out
}

fn work_tail_text(w: &Json) -> (r: String)
    ensures
        r@ == work_tail(*w),
{
    let venue = text_of(get3_of(w, "primary_location", "source", "display_name"), "");
    let doi = text_of(w.get("doi"), "");
    let landing = text_of(get2_of(w, "primary_location", "landing_page_url"), "");
    let oa = text_of(get2_of(w, "open_access", "oa_url"), "");
    proof {
        reveal_strlit("");
    }
    let mut out = String::new();
    if !venue.as_str().is_empty() {
        push_str(&mut out, " | ");
        push_str(&mut out, venue.as_str());
    }
    let ghost before_link = out@;
    push_str(&mut out, "\n  ");
    if !doi.as_str().is_empty() {
        push_str(&mut out, doi.as_str());
    } else {
        push_str(&mut out, landing.as_str());
    }
    let ghost before_oa = out@;
    if !oa.as_str().is_empty() {
        push_str(&mut out, "\n  open-access PDF: ");
        push_str(&mut out, oa.as_str());
    } else {
        assert(out@ =~= before_oa + Seq::<char>::empty());
    }
    push_str(&mut out, "\n");
    out
}

fn work_text(w: &Json) -> (r: String)
    ensures
        r@ == work_line(*w),
{
    let mut out = work_head_text(w);
    push_str(&mut out, work_tail_text(w).as_str());
    out
}

/// Formats an OpenAlex works reply for the model.
pub fn works_output(v: &Json) -> (r: String)
    ensures
        r@ == works_output_spec(*v),
{
    match v.get("results") {
        Some(Json::Array(ws)) => {
            if ws.len() == 0 {
                return "No scholarly results.".to_owned();
            }
            let mut out = String::new();
            let mut i: usize = 0;
            while i < ws.len()
                invariant
                    i <= ws@.len(),
                    out@ == work_lines(ws@.take(i as int)),
                decreases ws@.len() - i,
            {
                assert(ws@.take(i + 1).drop_last() =~= ws@.take(i as int));
                push_str(&mut out, work_text(&ws[i]).as_str());
                i += 1;
            }
            assert(ws@.take(ws@.len() as int) =~= ws@);
            out
        },
        _ => "No scholarly results.".to_owned(),
    }
}

} // verus!
