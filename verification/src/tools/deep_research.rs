//! deep_research: decomposes a question into sub-queries, searches each,
//! reads the top unique sources and returns numbered evidence to cite as [n].

use vstd::prelude::*;
use super::ToolInfo;
use crate::backends::ChatMessage;
use crate::json::{json_string_list, parse_string_list};
use crate::research::{result_view, SearchResult};
use crate::text::{
    chars_of, decimal, decimal_string, find, find_from_exec, push_str, rfind, rfind_exec, string_of,
    str_eq, trim, trim_str,
};

verus! {

/// Deep multi-source web research.
pub struct DeepResearchTool;

impl DeepResearchTool {
    /// The tool's name, as the model calls it.
    pub fn name(&self) -> (r: String)
        ensures
            r@ == "deep_research"@,
    {
        "deep_research".to_owned()
    }

    /// What the tool does, as shown to the model.
    pub fn description(&self) -> (r: String)
        ensures
            r@ == "Deep multi-source web research: plans sub-queries, searches, reads several pages in parallel, and returns numbered evidence to cite as [n]."@,
    {
        "Deep multi-source web research: plans sub-queries, searches, reads several pages in parallel, and returns numbered evidence to cite as [n].".to_owned()
    }

    /// The tool's arguments, as the JSON text shown to the model.
    pub fn args_hint(&self) -> (r: String)
        ensures
            r@ == "{\"query\":\"the research question\"}"@,
    {
        "{\"query\":\"the research question\"}".to_owned()
    }

    /// Whether invoking the tool mutates state (requires confirmation).
    pub fn mutating(&self) -> (r: bool)
        ensures
            r == false,
    {
        false
    }

    /// The tool's registry entry.
    pub fn info(&self) -> (r: ToolInfo)
        ensures
            r.name@ == "deep_research"@,
            r.description@ == "Deep multi-source web research: plans sub-queries, searches, reads several pages in parallel, and returns numbered evidence to cite as [n]."@,
            r.args_hint@ == "{\"query\":\"the research question\"}"@,
            r.mutating == false,
    {
        ToolInfo {
            name: self.name(),
            description: self.description(),
            args_hint: self.args_hint(),
            mutating: self.mutating(),
        }
    }
}


/// At most this many sub-queries are searched.
pub const MAX_SUBQUERIES: usize = 5;

/// At most this many sources are read.
pub const MAX_SOURCES: usize = 8;

/// The most of each source's text that is kept, in characters.
pub const PER_SOURCE_CHARS: usize = 2600;

/// The instruction given to the planner.
pub open spec fn planner_instruction() -> Seq<char> {
    "You are a research planner. Given a question, output ONLY a JSON array of 3-5 specific web-search queries that together thoroughly answer it. No prose, no markdown."@
}

/// The conversation that asks the model for sub-queries.
pub fn plan_prompt(query: &str) -> (r: Vec<ChatMessage>)
    ensures
        r@.len() == 2,
        r@[0].role@ == "system"@,
        r@[0].content@ == planner_instruction(),
        r@[1].role@ == "user"@,
        r@[1].content@ == "Question: "@ + query@,
{
    let mut v: Vec<ChatMessage> = Vec::new();
    v.push(ChatMessage::system(
        "You are a research planner. Given a question, output ONLY a JSON array of 3-5 specific web-search queries that together thoroughly answer it. No prose, no markdown.".to_owned(),
    ));
    let mut q = "Question: ".to_owned();
    push_str(&mut q, query);
    v.push(ChatMessage::user(q));
    v
}

/// The JSON array of strings in a reply: the text from its first `[` to its
/// last `]`, read as a list of strings.
pub open spec fn string_array_spec(s: Seq<char>) -> Option<Seq<Seq<char>>> {
    match (find(s, "["@), rfind(s, "]"@)) {
        (Some(start), Some(end)) => if end <= start {
            None
        } else {
            json_string_list(s.subrange(start, end + 1))
        },
        _ => None,
    }
}

/// The list of strings a reply holds between its first `[` and last `]`.
pub fn parse_string_array(s: &str) -> (r: Option<Vec<String>>)
    ensures
        match r {
            Some(v) => string_array_spec(s@) == Some(v@.map_values(|x: String| x@)),
            None => string_array_spec(s@) is None,
        },
{
    let cs = chars_of(s);
    let open = chars_of("[");
    let close = chars_of("]");
    let start = match find_from_exec(&cs, &open, 0) {
        Some(i) => i,
        None => return None,
    };
    let end = match rfind_exec(&cs, &close) {
        Some(j) => j,
        None => return None,
    };
    if end <= start {
        return None;
    }
    proof {
        reveal_strlit("]");
        crate::text::lemma_find_from_some(cs@, open@, 0);
        lemma_rfind_in_range(cs@, close@);
    }
    let n = cs.len();
    assert(end + 1 <= n);
    let slice = string_of(&cs, start, end + 1);
    parse_string_list(slice.as_str())
}

proof fn lemma_rfind_in_range(h: Seq<char>, p: Seq<char>)
    requires
        p.len() == 1,
        rfind(h, p) is Some,
    ensures
        0 <= rfind(h, p).unwrap() && rfind(h, p).unwrap() + 1 <= h.len(),
{
    lemma_rfind_before_range(h, p, h.len() as int + 1);
}

proof fn lemma_rfind_before_range(h: Seq<char>, p: Seq<char>, end: int)
    requires
        p.len() == 1,
        crate::text::rfind_before(h, p, end) is Some,
    ensures
        0 <= crate::text::rfind_before(h, p, end).unwrap() && crate::text::rfind_before(h, p, end).unwrap()
            + 1 <= h.len(),
    decreases end,
{
    if end > 0 && !crate::text::occurs_at(h, p, end - 1) {
        lemma_rfind_before_range(h, p, end - 1);
    }
}

/// The sub-queries to search: the planner's list when it gave a non-empty
/// one, the question itself otherwise.
pub open spec fn plan_spec(list: Option<Seq<Seq<char>>>, query: Seq<char>) -> Seq<Seq<char>> {
    match list {
        Some(l) => if l.len() > 0 { l } else { seq![query] },
        None => seq![query],
    }
}

/// The sub-queries from the planner's parsed reply (`None` when the call
/// failed or its reply held no list).
pub fn plan_queries(list: Option<Vec<String>>, query: &str) -> (r: Vec<String>)
    ensures
        r@.map_values(|x: String| x@) == plan_spec(
            match list {
                Some(v) => Some(v@.map_values(|x: String| x@)),
                None => None,
            },
            query@,
        ),
{
    match list {
        Some(v) => {
            if v.len() > 0 {
                return v;
            }
        },
        None => {},
    }
    let mut r: Vec<String> = Vec::new();
    r.push(query.to_owned());
    assert(r@.map_values(|x: String| x@) =~= seq![query@]);
    r
}

/// Search results as plain values.
pub open spec fn results_view(v: Seq<SearchResult>) -> Seq<(Seq<char>, Seq<char>, Seq<char>)> {
    v.map_values(|r: SearchResult| result_view(r))
}

/// Some source has the URL `url`.
pub open spec fn has_url(s: Seq<(Seq<char>, Seq<char>, Seq<char>)>, url: Seq<char>) -> bool {
    exists|i: int| 0 <= i < s.len() && #[trigger] s[i].1 == url
}

/// Sources after adding search results: each result with a URL that no
/// earlier source has, in order.
pub open spec fn add_spec(cur: Seq<(Seq<char>, Seq<char>, Seq<char>)>, rs: Seq<(Seq<char>, Seq<char>, Seq<char>)>) -> Seq<
    (Seq<char>, Seq<char>, Seq<char>),
>
    decreases rs.len(),
{
    if rs.len() == 0 {
        cur
    } else {
        let prev = add_spec(cur, rs.drop_last());
        let r = rs.last();
        if r.1.len() > 0 && !has_url(prev, r.1) {
            prev.push(r)
        } else {
            prev
        }
    }
}

/// Non-empty URLs, no two alike.
pub open spec fn distinct_urls(s: Seq<(Seq<char>, Seq<char>, Seq<char>)>) -> bool {
    &&& forall|i: int| 0 <= i < s.len() ==> (#[trigger] s[i]).1.len() > 0
    &&& forall|i: int, j: int| 0 <= i < j < s.len() ==> (#[trigger] s[i]).1 != (#[trigger] s[j]).1
}

/// Adding search results keeps the sources' URLs non-empty and distinct.
pub proof fn law_sources_distinct(
    cur: Seq<(Seq<char>, Seq<char>, Seq<char>)>,
    rs: Seq<(Seq<char>, Seq<char>, Seq<char>)>,
)
    requires
        distinct_urls(cur),
    ensures
        distinct_urls(add_spec(cur, rs)),
    decreases rs.len(),
{
    if rs.len() > 0 {
        law_sources_distinct(cur, rs.drop_last());
        let prev = add_spec(cur, rs.drop_last());
        let r = rs.last();
        if r.1.len() > 0 && !has_url(prev, r.1) {
            let next = prev.push(r);
            assert forall|i: int, j: int| 0 <= i < j < next.len() implies (#[trigger] next[i]).1 != (
            #[trigger] next[j]).1 by {
                if j == prev.len() {
                    if next[i].1 == r.1 {
                        assert(prev[i].1 == r.1);
                    }
                }
            }
        }
    }
}

/// The sources gathered for a question, no two with the same URL.
pub struct SourceSet {
    pub sources: Vec<SearchResult>,
}

impl SourceSet {
    /// The sources, as plain values.
    pub open spec fn view_sources(&self) -> Seq<(Seq<char>, Seq<char>, Seq<char>)> {
        self.sources@.map_values(|r: SearchResult| result_view(r))
    }

    /// Well-formed: URLs non-empty and distinct.
    pub open spec fn wf(&self) -> bool {
        distinct_urls(self.view_sources())
    }

    /// No sources yet.
    pub fn new() -> (r: Self)
        ensures
            r.view_sources() == Seq::<(Seq<char>, Seq<char>, Seq<char>)>::empty(),
            r.wf(),
    {
        let r = SourceSet { sources: Vec::new() };
        assert(r.view_sources() =~= Seq::<(Seq<char>, Seq<char>, Seq<char>)>::empty());
        r
    }

    /// Whether `url` is among the sources.
    fn contains_url(&self, url: &str) -> (r: bool)
        ensures
            r == has_url(self.view_sources(), url@),
    {
        let mut i: usize = 0;
        while i < self.sources.len()
            invariant
                i <= self.sources@.len(),
                forall|j: int| 0 <= j < i ==> (#[trigger] self.view_sources()[j]).1 != url@,
            decreases self.sources@.len() - i,
        {
            if str_eq(self.sources[i].url.as_str(), url) {
                assert(self.view_sources()[i as int].1 == url@);
                return true;
            }
            i += 1;
        }
        false
    }

    /// Adds the results of one search: each one with a URL not seen before.
    pub fn add_results(&mut self, results: Vec<SearchResult>)
        requires
            old(self).wf(),
        ensures
            final(self).wf(),
            final(self).view_sources() == add_spec(
                old(self).view_sources(),
                results@.map_values(|r: SearchResult| result_view(r)),
            ),
    {
        let ghost rv = results@.map_values(|r: SearchResult| result_view(r));
        let ghost start = self.view_sources();
        let mut rest = results;
        let ghost n = rv.len();
        assert(rv.take(0) =~= Seq::<(Seq<char>, Seq<char>, Seq<char>)>::empty());
        assert(results_view(rest@) =~= rv.skip(0));
        while rest.len() > 0
            invariant
                n == rv.len(),
                rest@.len() <= n,
                results_view(rest@) == rv.skip(n - rest@.len()),
                self.view_sources() == add_spec(start, rv.take(n - rest@.len())),
                distinct_urls(start),
            decreases rest@.len(),
        {
            let ghost i = n - rest@.len();
            let ghost before = rest@;
            let r = rest.remove(0);
            assert(rv.skip(i)[0] == result_view(r));
            assert forall|t: int| 0 <= t < rest@.len() implies #[trigger] results_view(rest@)[t] == rv.skip(
                i + 1,
            )[t] by {
                assert(rest@[t] == before[t + 1]);
                assert(results_view(before)[t + 1] == rv.skip(i)[t + 1]);
            }
            assert(results_view(rest@) =~= rv.skip(i + 1));
            assert(rv.take(i + 1).drop_last() =~= rv.take(i));
            assert(rv.take(i + 1).last() == rv.skip(i)[0]);
            let ghost prev = self.view_sources();
            if !r.url.as_str().is_empty() && !self.contains_url(r.url.as_str()) {
                self.sources.push(r);
                assert(self.view_sources() =~= prev.push(result_view(r)));
            }
        }
        assert(rv.take(n as int) =~= rv);
        proof {
            law_sources_distinct(start, rv);
        }
    }

    /// Whether enough sources were gathered to stop searching.
    pub fn is_full(&self) -> (r: bool)
        ensures
            r == (self.sources@.len() >= MAX_SOURCES),
    {
        self.sources.len() >= MAX_SOURCES
    }

    /// The sources to read: the first eight.
    pub fn into_sources(self) -> (r: Vec<SearchResult>)
        requires
            self.wf(),
        ensures
            r@.map_values(|x: SearchResult| result_view(x)) == (if self.sources@.len() > MAX_SOURCES {
                self.view_sources().take(MAX_SOURCES as int)
            } else {
                self.view_sources()
            }),
            distinct_urls(r@.map_values(|x: SearchResult| result_view(x))),
            r@.len() <= MAX_SOURCES,
    {
        let ghost all = self.view_sources();
        let mut v = self.sources;
        if v.len() > MAX_SOURCES {
            v.truncate(MAX_SOURCES);
            assert(v@.map_values(|x: SearchResult| result_view(x)) =~= all.take(MAX_SOURCES as int));
        }
        v
    }
}

/// The most results asked of each search.
pub const RESULTS_PER_SEARCH: usize = 4;

/// The search phase of a research request: the planned sub-queries, how
/// many of them have been searched, and the sources gathered so far.
pub struct Gathering {
    pub queries: Vec<String>,
    pub searched: usize,
    pub sources: SourceSet,
}

impl Gathering {
    /// Well-formed: the sources are, and no more than five sub-queries (nor
    /// more than were planned) have been searched.
    pub open spec fn wf(&self) -> bool {
        &&& self.sources.wf()
        &&& self.searched <= MAX_SUBQUERIES
        &&& self.searched <= self.queries@.len()
    }

    /// Another search is due: fewer than five sub-queries searched, one is
    /// left, and fewer than eight sources are held.
    pub open spec fn wants_search(&self) -> bool {
        &&& self.searched < MAX_SUBQUERIES
        &&& self.searched < self.queries@.len()
        &&& self.sources.sources@.len() < MAX_SOURCES
    }

    /// The start of the search phase for the planned sub-queries.
    pub fn new(queries: Vec<String>) -> (r: Self)
        ensures
            r.wf(),
            r.queries == queries,
            r.searched == 0,
            r.sources.view_sources() == Seq::<(Seq<char>, Seq<char>, Seq<char>)>::empty(),
    {
        Gathering { queries, searched: 0, sources: SourceSet::new() }
    }

    /// The next search to run: the next sub-query and the number of results
    /// to ask for, or `None` when the search phase is over.
    pub fn next_search(&self) -> (r: Option<(String, usize)>)
        requires
            self.wf(),
        ensures
            r is Some <==> self.wants_search(),
            r matches Some((q, n)) ==> q@ == self.queries@[self.searched as int]@ && n == RESULTS_PER_SEARCH,
    {
        if self.searched < MAX_SUBQUERIES && self.searched < self.queries.len() && !self.sources.is_full() {
            Some((self.queries[self.searched].clone(), RESULTS_PER_SEARCH))
        } else {
            None
        }
    }

    /// The due search finished: its results (`None` when it failed) are
    /// added to the sources and the next sub-query is up.
    pub fn on_results(&mut self, results: Option<Vec<SearchResult>>)
        requires
            old(self).wf(),
            old(self).wants_search(),
        ensures
            final(self).wf(),
            final(self).queries == old(self).queries,
            final(self).searched == old(self).searched + 1,
            final(self).sources.view_sources() == (match results {
                Some(v) => add_spec(old(self).sources.view_sources(), results_view(v@)),
                None => old(self).sources.view_sources(),
            }),
    {
        match results {
            Some(v) => self.sources.add_results(v),
            None => {},
        }
        self.searched = self.searched + 1;
    }

    /// The sources to read: the first eight gathered.
    pub fn into_sources(self) -> (r: Vec<SearchResult>)
        requires
            self.wf(),
        ensures
            results_view(r@) == (if self.sources.sources@.len() > MAX_SOURCES {
                self.sources.view_sources().take(MAX_SOURCES as int)
            } else {
                self.sources.view_sources()
            }),
            distinct_urls(results_view(r@)),
            r@.len() <= MAX_SOURCES,
    {
        self.sources.into_sources()
    }
}

/// The search phase ends: each search either is one of the first five
/// planned sub-queries, or none is due; once five were searched, the plan
/// ran out, or eight sources are held, no further search is due.
pub proof fn law_search_phase_bounded(g: Gathering)
    requires
        g.wf(),
    ensures
        g.wants_search() ==> g.searched < MAX_SUBQUERIES && g.searched < g.queries@.len(),
        g.searched == MAX_SUBQUERIES || g.searched == g.queries@.len() || g.sources.sources@.len()
            >= MAX_SOURCES ==> !g.wants_search(),
{
}

/// The observation when no source was found.
pub fn no_sources() -> (r: String)
    ensures
        r@ == "deep_research found no sources (search may be unavailable)."@,
{
    "deep_research found no sources (search may be unavailable).".to_owned()
}

/// The text of one source: the fetched text when it is not blank, else the
/// search snippet marked as unavailable.
pub open spec fn source_body(fetched: Result<Seq<char>, Seq<char>>, snippet: Seq<char>) -> Seq<char> {
    match fetched {
        Ok(t) => if trim(t).len() > 0 {
            t
        } else {
            "(page unavailable) "@ + snippet
        },
        Err(_) => "(page unavailable) "@ + snippet,
    }
}

/// One numbered evidence block.
pub open spec fn evidence_block(
    n: nat,
    src: (Seq<char>, Seq<char>, Seq<char>),
    fetched: (Seq<char>, Result<Seq<char>, Seq<char>>),
) -> Seq<char> {
    "["@ + decimal(n) + "] "@ + src.0 + " — "@ + fetched.0 + "\n"@ + source_body(fetched.1, src.2) + "\n\n"@
}

/// A fetch result as plain values.
pub open spec fn fetched_view(f: (String, Result<String, String>)) -> (Seq<char>, Result<Seq<char>, Seq<char>>) {
    (
        f.0@,
        match f.1 {
            Ok(t) => Ok(t@),
            Err(e) => Err(e@),
        },
    )
}

/// The evidence blocks of the first `k` sources and fetches, numbered from 1.
pub open spec fn evidence_spec(
    srcs: Seq<(Seq<char>, Seq<char>, Seq<char>)>,
    fetched: Seq<(Seq<char>, Result<Seq<char>, Seq<char>>)>,
    k: nat,
) -> Seq<char>
    decreases k,
{
    if k == 0 {
        seq![]
    } else {
        evidence_spec(srcs, fetched, (k - 1) as nat) + evidence_block(k, srcs[k - 1], fetched[k - 1])
    }
}

/// The smaller of two lengths.
pub open spec fn min_len(a: nat, b: nat) -> nat {
    if a <= b { a } else { b }
}

/// The numbered evidence: each source beside its fetch result, as many as
/// both lists have.
pub fn evidence(srcs: &Vec<SearchResult>, fetched: &Vec<(String, Result<String, String>)>) -> (r: String)
    requires
        min_len(srcs@.len(), fetched@.len()) < u64::MAX,
    ensures
        r@ == evidence_spec(
            srcs@.map_values(|x: SearchResult| result_view(x)),
            fetched@.map_values(|f: (String, Result<String, String>)| fetched_view(f)),
            min_len(srcs@.len(), fetched@.len()),
        ),
{
    let ghost sv = srcs@.map_values(|x: SearchResult| result_view(x));
    let ghost fv = fetched@.map_values(|f: (String, Result<String, String>)| fetched_view(f));
    let k = if srcs.len() <= fetched.len() { srcs.len() } else { fetched.len() };
    let mut out = String::new();
    let mut i: usize = 0;
    while i < k
        invariant
            i <= k,
            k == min_len(srcs@.len(), fetched@.len()),
            k < u64::MAX,
            sv == srcs@.map_values(|x: SearchResult| result_view(x)),
            fv == fetched@.map_values(|f: (String, Result<String, String>)| fetched_view(f)),
            out@ == evidence_spec(sv, fv, i as nat),
        decreases k - i,
    {
        let src = &srcs[i];
        let f = &fetched[i];
        push_str(&mut out, "[");
        push_str(&mut out, decimal_string((i + 1) as u64).as_str());
        push_str(&mut out, "] ");
        push_str(&mut out, src.title.as_str());
        push_str(&mut out, " — ");
        push_str(&mut out, f.0.as_str());
        push_str(&mut out, "\n");
        match &f.1 {
            Ok(t) => {
                if !trim_str(t.as_str()).as_str().is_empty() {
                    push_str(&mut out, t.as_str());
                } else {
                    push_str(&mut out, "(page unavailable) ");
                    push_str(&mut out, src.snippet.as_str());
                }
            },
            Err(_) => {
                push_str(&mut out, "(page unavailable) ");
                push_str(&mut out, src.snippet.as_str());
            },
        }
        push_str(&mut out, "\n\n");
        assert(sv[i as int] == result_view(srcs@[i as int]));
        assert(fv[i as int] == fetched_view(fetched@[i as int]));
        i += 1;
    }
    out
}

/// The observation of a finished research: the instruction to answer with
/// citations, then the evidence.
pub fn research_output(n_sources: usize, query: &str, evidence: &str) -> (r: String)
    ensures
        r@ == "Evidence gathered from "@ + decimal(n_sources as nat)
            + " sources. Write a thorough, well-structured answer to \""@ + query@
            + "\" and cite sources inline as [n] matching the numbers below. End with a \"Sources\" list.\n\n"@
            + evidence@,
{
    let mut r = "Evidence gathered from ".to_owned();
    push_str(&mut r, decimal_string(n_sources as u64).as_str());
    push_str(&mut r, " sources. Write a thorough, well-structured answer to \"");
    push_str(&mut r, query);
    push_str(
        &mut r,
        "\" and cite sources inline as [n] matching the numbers below. End with a \"Sources\" list.\n\n",
    );
    push_str(&mut r, evidence);
    r
}

/// The activity line before planning.
pub fn planning_note(query: &str) -> (r: String)
    ensures
        r@ == "planning: "@ + query@,
{
    let mut r = "planning: ".to_owned();
    push_str(&mut r, query);
    r
}

/// The activity line with the number of sub-queries.
pub fn subqueries_note(n: usize) -> (r: String)
    ensures
        r@ == decimal(n as nat) + " sub-queries"@,
{
    let mut r = decimal_string(n as u64);
    push_str(&mut r, " sub-queries");
    r
}

/// The activity line of one search.
pub fn search_note(sub_query: &str, provider: &str) -> (r: String)
    ensures
        r@ == sub_query@ + " ("@ + provider@ + ")"@,
{
    let mut r = sub_query.to_owned();
    push_str(&mut r, " (");
    push_str(&mut r, provider);
    push_str(&mut r, ")");
    r
}

/// The activity line before fetching.
pub fn fetch_note(n: usize) -> (r: String)
    ensures
        r@ == decimal(n as nat) + " sources in parallel"@,
{
    let mut r = decimal_string(n as u64);
    push_str(&mut r, " sources in parallel");
    r
}

} // verus!
