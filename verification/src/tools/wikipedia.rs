//! Wikipedia lookup: intro extracts for the top matching articles.

use vstd::prelude::*;
use super::ToolInfo;
use crate::json::{get2, get2_of, Json};
use crate::research::{url_encode, url_encode_with};
use crate::text::{chars_of, push_char, push_str, take_chars, take_chars_str};
use vstd::utf8::encode_utf8;

verus! {

/// Looks a topic up on Wikipedia.
pub struct WikipediaTool;

impl WikipediaTool {
    /// The tool's name, as the model calls it.
    pub fn name(&self) -> (r: String)
        ensures
            r@ == "wikipedia"@,
    {
        "wikipedia".to_owned()
    }

    /// What the tool does, as shown to the model.
    pub fn description(&self) -> (r: String)
        ensures
            r@ == "Look up a topic on Wikipedia (intro extracts + links)."@,
    {
        "Look up a topic on Wikipedia (intro extracts + links).".to_owned()
    }

    /// The tool's arguments, as the JSON text shown to the model.
    pub fn args_hint(&self) -> (r: String)
        ensures
            r@ == "{\"query\":\"topic to look up\"}"@,
    {
        "{\"query\":\"topic to look up\"}".to_owned()
    }

    /// Whether invoking the tool mutates state (requires confirmation).
    pub fn mutating(&self) -> (r: bool)
        ensures
            r == false,
    {
        false
    }

    /// The tool's registry entry.
    pub fn info(&self) -> (r: ToolInfo)
        ensures
            r.name@ == "wikipedia"@,
            r.description@ == "Look up a topic on Wikipedia (intro extracts + links)."@,
            r.args_hint@ == "{\"query\":\"topic to look up\"}"@,
            r.mutating == false,
    {
        ToolInfo {
            name: self.name(),
            description: self.description(),
            args_hint: self.args_hint(),
            mutating: self.mutating(),
        }
    }
}


/// Percent-encoding of a query: every byte outside the unreserved set,
/// space included, as `%XX`.
pub fn encode(s: &str) -> (r: String)
    ensures
        r@ == url_encode(encode_utf8(s@), "%20"@),
{
    url_encode_with(s, "%20")
}

/// The Wikipedia search-and-extract API URL for a query (every byte outside
/// the unreserved set percent-encoded).
pub fn api_url(query: &str) -> (r: String)
    ensures
        r@ == "https://en.wikipedia.org/w/api.php?action=query&format=json&prop=extracts&exintro=1&explaintext=1&redirects=1&generator=search&gsrsearch="@
            + url_encode(encode_utf8(query@), "%20"@) + "&gsrlimit=3"@,
{
    let mut u = "https://en.wikipedia.org/w/api.php?action=query&format=json&prop=extracts&exintro=1&explaintext=1&redirects=1&generator=search&gsrsearch=".to_owned();
    push_str(&mut u, encode(query).as_str());
    push_str(&mut u, "&gsrlimit=3");
    u
}

/// A page of the reply: its search rank, title and intro extract.
pub struct WikiPage {
    pub index: i64,
    pub title: String,
    pub extract: String,
}

impl View for WikiPage {
    type V = (i64, Seq<char>, Seq<char>);

    open spec fn view(&self) -> (i64, Seq<char>, Seq<char>) {
        (self.index, self.title@, self.extract@)
    }
}

/// The pages of a list, by view.
pub open spec fn pages_view(v: Seq<WikiPage>) -> Seq<(i64, Seq<char>, Seq<char>)> {
    v.map_values(|p: WikiPage| p@)
}

/// The entry a page of the reply gives: its `index` (999 when missing), title
/// and extract, when both of these are non-empty.
pub open spec fn page_entry(p: Json) -> Option<(i64, Seq<char>, Seq<char>)> {
    let title = p.str_or_empty("title"@);
    let extract = p.str_or_empty("extract"@);
    let index = match p.get_spec("index"@) {
        Some(x) => match x.i64_spec() {
            Some(n) => n,
            None => 999,
        },
        None => 999,
    };
    if title.len() > 0 && extract.len() > 0 {
        Some((index, title, extract))
    } else {
        None
    }
}

/// The entries of the pages, in the order of the reply's object.
pub open spec fn page_entries(ps: Seq<(String, Json)>) -> Seq<(i64, Seq<char>, Seq<char>)>
    decreases ps.len(),
{
    if ps.len() == 0 {
        seq![]
    } else {
        match page_entry(ps.last().1) {
            Some(e) => page_entries(ps.drop_last()).push(e),
            None => page_entries(ps.drop_last()),
        }
    }
}

/// The first position at or after `j` whose index exceeds `k` (the length
/// when there is none).
pub open spec fn first_after(s: Seq<(i64, Seq<char>, Seq<char>)>, k: i64, j: int) -> int
    decreases s.len() - j,
{
    if j < 0 || j >= s.len() {
        s.len() as int
    } else if s[j].0 > k {
        j
    } else {
        first_after(s, k, j + 1)
    }
}

/// `e` placed after every entry whose index is not larger than its own.
pub open spec fn insert_by_index(s: Seq<(i64, Seq<char>, Seq<char>)>, e: (i64, Seq<char>, Seq<char>)) -> Seq<
    (i64, Seq<char>, Seq<char>),
> {
    s.insert(first_after(s, e.0, 0), e)
}

/// The entries ordered by index, entries of equal index keeping their order
/// (a stable sort by key).
pub open spec fn sort_by_index(s: Seq<(i64, Seq<char>, Seq<char>)>) -> Seq<(i64, Seq<char>, Seq<char>)>
    decreases s.len(),
{
    if s.len() == 0 {
        seq![]
    } else {
        insert_by_index(sort_by_index(s.drop_last()), s.last())
    }
}

/// Entries in non-decreasing order of index.
pub open spec fn sorted_by_index(s: Seq<(i64, Seq<char>, Seq<char>)>) -> bool {
    forall|i: int, j: int| 0 <= i <= j < s.len() ==> s[i].0 <= s[j].0
}

proof fn lemma_first_after_bounds(s: Seq<(i64, Seq<char>, Seq<char>)>, k: i64, j: int)
    requires
        0 <= j <= s.len(),
    ensures
        j <= first_after(s, k, j) <= s.len(),
        forall|t: int| j <= t < first_after(s, k, j) ==> s[t].0 <= k,
        first_after(s, k, j) < s.len() ==> s[first_after(s, k, j)].0 > k,
    decreases s.len() - j,
{
    if j < s.len() && s[j].0 <= k {
        lemma_first_after_bounds(s, k, j + 1);
    }
}

proof fn lemma_insert_sorted(s: Seq<(i64, Seq<char>, Seq<char>)>, e: (i64, Seq<char>, Seq<char>))
    requires
        sorted_by_index(s),
    ensures
        sorted_by_index(insert_by_index(s, e)),
        insert_by_index(s, e).to_multiset() == s.to_multiset().insert(e),
{
    lemma_first_after_bounds(s, e.0, 0);
    let p = first_after(s, e.0, 0);
    let r = s.insert(p, e);
    assert forall|i: int, j: int| 0 <= i <= j < r.len() implies r[i].0 <= r[j].0 by {
        if i < p && j > p {
            assert(r[j] == s[j - 1]);
            if p < s.len() {
                assert(s[i].0 <= s[p].0);
            }
        }
        if i == p && j > p {
            assert(r[j] == s[j - 1]);
            assert(s[p].0 > e.0);
            assert(s[p].0 <= s[j - 1].0);
        }
        if i < p && j == p {
            assert(s[i].0 <= e.0);
        }
    }
    vstd::seq_lib::to_multiset_insert(s, p, e);
}

/// Sorting by index yields the entries in non-decreasing index order, and
/// exactly the entries it was given.
pub proof fn law_sort_by_index(s: Seq<(i64, Seq<char>, Seq<char>)>)
    ensures
        sorted_by_index(sort_by_index(s)),
        sort_by_index(s).to_multiset() == s.to_multiset(),
    decreases s.len(),
{
    if s.len() > 0 {
        law_sort_by_index(s.drop_last());
        lemma_insert_sorted(sort_by_index(s.drop_last()), s.last());
        assert(s =~= s.drop_last().push(s.last()));
        vstd::seq_lib::to_multiset_build(s.drop_last(), s.last());
    } else {
        assert(sort_by_index(s) =~= s);
    }
}

/// A title with its spaces written as underscores, as in article URLs.
pub open spec fn underscored(t: Seq<char>) -> Seq<char> {
    t.map_values(|c: char| if c == ' ' { '_' } else { c })
}

/// One page's block: heading, article link and the first 1200 characters of
/// the extract.
pub open spec fn page_block(e: (i64, Seq<char>, Seq<char>)) -> Seq<char> {
    "## "@ + e.1 + "\n"@ + "https://en.wikipedia.org/wiki/"@ + underscored(e.1) + "\n"@ + take_chars(e.2, 1200)
        + "\n\n"@
}

/// The blocks of the entries, in order.
pub open spec fn page_blocks(s: Seq<(i64, Seq<char>, Seq<char>)>) -> Seq<char>
    decreases s.len(),
{
    if s.len() == 0 {
        seq![]
    } else {
        page_blocks(s.drop_last()) + page_block(s.last())
    }
}

/// The observation for a Wikipedia reply: the pages with a title and an
/// extract, by search rank, or "No Wikipedia results." when there are none.
pub open spec fn lookup_output_spec(v: Json) -> Seq<char> {
    match get2(v, "query"@, "pages"@) {
        Some(Json::Object(ps)) => {
            let es = page_entries(ps@);
            if es.len() == 0 {
                "No Wikipedia results."@
            } else {
                page_blocks(sort_by_index(es))
            }
        },
        _ => "No Wikipedia results."@,
    }
}

/// The entry of one page of the reply.
pub fn read_page(p: &Json) -> (r: Option<WikiPage>)
    ensures
        match r {
            Some(w) => page_entry(*p) == Some(w@),
            None => page_entry(*p) is None,
        },
{
    let title = p.str_field("title");
    let extract = p.str_field("extract");
    let index = match p.get("index") {
        Some(x) => match x.as_i64() {
            Some(n) => n,
            None => 999,
        },
        None => 999,
    };
    if !title.as_str().is_empty() && !extract.as_str().is_empty() {
        Some(WikiPage { index, title, extract })
    } else {
        None
    }
}

/// The entries of the reply's pages, in the object's order.
pub fn read_pages(ps: &Vec<(String, Json)>) -> (r: Vec<WikiPage>)
    ensures
        pages_view(r@) == page_entries(ps@),
{
    let mut out: Vec<WikiPage> = Vec::new();
    let mut i: usize = 0;
    while i < ps.len()
        invariant
            i <= ps@.len(),
            pages_view(out@) == page_entries(ps@.take(i as int)),
        decreases ps@.len() - i,
    {
        assert(ps@.take(i + 1).drop_last() =~= ps@.take(i as int));
        let ghost before = pages_view(out@);
        match read_page(&ps[i].1) {
            Some(w) => {
                out.push(w);
                assert(pages_view(out@) =~= before.push(out@.last()@));
            },
            None => {},
        }
        i += 1;
    }
    assert(ps@.take(ps@.len() as int) =~= ps@);
    out
}

/// Where a page of index `k` goes among `v`: after every page whose index is
/// not larger.
fn insert_position(v: &Vec<WikiPage>, k: i64) -> (r: usize)
    ensures
        r as int == first_after(pages_view(v@), k, 0),
        r <= v@.len(),
{
    let ghost s = pages_view(v@);
    proof {
        lemma_first_after_bounds(s, k, 0);
    }
    let mut j: usize = 0;
    while j < v.len() && v[j].index <= k
        invariant
            j <= v@.len(),
            s == pages_view(v@),
            first_after(s, k, 0) == first_after(s, k, j as int),
        decreases v@.len() - j,
    {
        j += 1;
    }
    j
}

/// The pages ordered by index, equal indexes keeping their order
/// (`sort_by_key` on the index).
pub fn sort_pages(v: Vec<WikiPage>) -> (r: Vec<WikiPage>)
    ensures
        pages_view(r@) == sort_by_index(pages_view(v@)),
{
    let ghost all = pages_view(v@);
    let mut out: Vec<WikiPage> = Vec::new();
    let mut rest = v;
    let ghost n = all.len();
    assert(pages_view(rest@) =~= all.skip(0));
    assert(pages_view(out@) =~= sort_by_index(all.take(0)));
    while rest.len() > 0
        invariant
            n == all.len(),
            rest@.len() <= n,
            pages_view(rest@) == all.skip(n - rest@.len()),
            pages_view(out@) == sort_by_index(all.take(n - rest@.len())),
        decreases rest@.len(),
    {
        let ghost i = n - rest@.len();
        let ghost before = rest@;
        let w = rest.remove(0);
        assert(all.skip(i)[0] == w@);
        assert forall|t: int| 0 <= t < rest@.len() implies pages_view(rest@)[t] == all.skip(i + 1)[t] by {
            assert(rest@[t] == before[t + 1]);
            assert(pages_view(before)[t + 1] == all.skip(i)[t + 1]);
        }
        assert(pages_view(rest@) =~= all.skip(i + 1));
        assert(all.take(i + 1).drop_last() =~= all.take(i));
        assert(all.take(i + 1).last() == all.skip(i)[0]);
        let ghost sorted = pages_view(out@);
        let pos = insert_position(&out, w.index);
        out.insert(pos, w);
        assert(pages_view(out@) =~= sorted.insert(pos as int, w@));
    }
    assert(all.take(n as int) =~= all);
    out
}

/// A title with its spaces replaced by underscores.
pub fn underscore_title(t: &str) -> (r: String)
    ensures
        r@ == underscored(t@),
{
    let cs = chars_of(t);
    let mut out = String::new();
    let mut i: usize = 0;
    while i < cs.len()
        invariant
            i <= cs@.len(),
            cs@ == t@,
            out@ == underscored(cs@.take(i as int)),
        decreases cs@.len() - i,
    {
        let c = cs[i];
        if c == ' ' {
            push_char(&mut out, '_');
        } else {
            push_char(&mut out, c);
        }
        assert(underscored(cs@.take(i + 1)) =~= underscored(cs@.take(i as int)).push(
            if c == ' ' { '_' } else { c },
        ));
        i += 1;
    }
    assert(cs@.take(cs@.len() as int) =~= cs@);
    out
}

fn page_text(w: &WikiPage) -> (r: String)
    ensures
        r@ == page_block(w@),
{
    let mut out = "## ".to_owned();
    push_str(&mut out, w.title.as_str());
    push_str(&mut out, "\n");
    push_str(&mut out, "https://en.wikipedia.org/wiki/");
    push_str(&mut out, underscore_title(w.title.as_str()).as_str());
    push_str(&mut out, "\n");
    push_str(&mut out, take_chars_str(w.extract.as_str(), 1200).as_str());
    push_str(&mut out, "\n\n");
    out
}

/// Formats a Wikipedia search-and-extract reply for the model.
pub fn lookup_output(v: &Json) -> (r: String)
    ensures
        r@ == lookup_output_spec(*v),
{
    match get2_of(v, "query", "pages") {
        Some(Json::Object(ps)) => {
            let pages = read_pages(ps);
            if pages.len() == 0 {
                return "No Wikipedia results.".to_owned();
            }
            let sorted = sort_pages(pages);
            let mut out = String::new();
            let mut i: usize = 0;
            while i < sorted.len()
                invariant
                    i <= sorted@.len(),
                    out@ == page_blocks(pages_view(sorted@).take(i as int)),
                decreases sorted@.len() - i,
            {
                assert(pages_view(sorted@).take(i + 1).drop_last() =~= pages_view(sorted@).take(i as int));
                push_str(&mut out, page_text(&sorted[i]).as_str());
                i += 1;
            }
            assert(pages_view(sorted@).take(sorted@.len() as int) =~= pages_view(sorted@));
            out
        },
        _ => "No Wikipedia results.".to_owned(),
    }
}

} // verus!
