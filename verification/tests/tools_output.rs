use sleepers_researcher::tools::code_exec::combine_output;
use sleepers_researcher::json::{Json, JsonNumber};
use sleepers_researcher::research::SearchResult;
use sleepers_researcher::agent::MemoryHit;
use sleepers_researcher::tools::{denied, missing_error, optional_str, registry, required_str, tools_prompt};
use sleepers_researcher::tools::arxiv::{atom_readable, collapse, papers_output, parse_entries, request, tag, truncate, urlencoding};
use sleepers_researcher::tools::code_exec::{
    cap, compile_failed, exec_activity, exec_args, exec_preview, exec_subtitle, language, process_output,
    run_result, Language, RunOutcome,
};
use sleepers_researcher::tools::deep_research::{
    evidence, fetch_note, no_sources, parse_string_array, plan_prompt, plan_queries, planning_note,
    research_output, search_note, subqueries_note, SourceSet,
};
use sleepers_researcher::tools::file_ops::{
    read_error, read_output, truncate as clip, write_activity, write_args, write_denied, write_error,
    write_preview, wrote,
};
use sleepers_researcher::tools::memory_tool::{recall_output, remember_args, remembered_note, saved_note};
use sleepers_researcher::tools::openalex::{encode, works_output, works_url};
use sleepers_researcher::tools::pdf_create::{
    layout, pdf_args, pdf_created, pdf_denied, pdf_preview, sanitize, wrap, PdfOp, TOP,
};
use sleepers_researcher::tools::shell::{shell_denied, shell_invocation};
use sleepers_researcher::tools::web_fetch::{fetch_output, html_to_text};
use sleepers_researcher::tools::web_search::{search_output, unavailable};
use sleepers_researcher::tools::wikipedia::{api_url, lookup_output, read_pages, sort_pages, underscore_title, WikiPage};

fn s(x: &str) -> Json {
    Json::Str(x.to_string())
}

fn num(n: i64) -> Json {
    Json::Number(JsonNumber { int: Some(n), text: n.to_string() })
}

fn obj(fields: Vec<(&str, Json)>) -> Json {
    Json::Object(fields.into_iter().map(|(k, v)| (k.to_string(), v)).collect())
}

#[test]
fn registry_lists_thirteen_tools_in_order() {
    let r = registry();
    let names: Vec<&str> = r.iter().map(|t| t.name.as_str()).collect();
    assert_eq!(
        names,
        vec![
            "deep_research", "read_file", "write_file", "code_exec", "shell", "web_search", "web_fetch",
            "wikipedia", "openalex", "arxiv", "create_pdf", "remember", "recall"
        ]
    );
    let mutating: Vec<&str> = r.iter().filter(|t| t.mutating).map(|t| t.name.as_str()).collect();
    assert_eq!(mutating, vec!["write_file", "code_exec", "shell", "create_pdf"]);
}

#[test]
fn tools_prompt_marks_mutating_tools() {
    let r = registry();
    let p = tools_prompt(&r);
    assert!(p.starts_with("- deep_research: "));
    assert!(p.contains(
        "- read_file: Read a local text/code file (read-only). | args: {\"path\":\"absolute or relative file path\"}\n"
    ));
    assert!(p.contains("- shell: Run a shell command on the PC (scripts, tooling, file ops). Requires confirmation. | args: {\"command\":\"the command line to execute\"} [needs user approval]\n"));
    assert_eq!(p.lines().count(), 13);
}

#[test]
fn argument_helpers() {
    let args = obj(vec![("path", s("/tmp/a")), ("n", num(3))]);
    assert_eq!(required_str(&args, "path"), Ok("/tmp/a".to_string()));
    assert_eq!(required_str(&args, "n"), Err("missing 'n'".to_string()));
    assert_eq!(required_str(&args, "x"), Err("missing 'x'".to_string()));
    assert_eq!(optional_str(&args, "path"), Some("/tmp/a".to_string()));
    assert_eq!(optional_str(&args, "n"), None);
    assert_eq!(missing_error("q"), "missing 'q'");
    assert_eq!(denied("run the code"), "DENIED: user declined to run the code.");
}

#[test]
fn web_search_formats_summary_and_hits() {
    assert_eq!(unavailable(), "web_search unavailable: TAVILY_API_KEY is not set in .env.");
    let v = obj(vec![
        ("answer", s("Short answer")),
        (
            "results",
            Json::Array(vec![
                obj(vec![("title", s("A")), ("url", s("https://a")), ("content", s("alpha"))]),
                obj(vec![("title", s("B")), ("url", s("https://b")), ("content", s(&"b".repeat(600)))]),
            ]),
        ),
    ]);
    let out = search_output(&v);
    let expected = format!(
        "Summary: Short answer\n\n[1] A\nhttps://a\nalpha\n\n[2] B\nhttps://b\n{}…\n\n",
        "b".repeat(500)
    );
    assert_eq!(out, expected);
    assert_eq!(search_output(&obj(vec![("answer", s(""))])), "No results.");
}

#[test]
fn web_fetch_output_is_trimmed_and_capped() {
    assert_eq!(fetch_output("text/plain", "  body  "), "body");
    assert_eq!(fetch_output("text/html", "<p>a &mdash; b</p>"), "a — b");
    let long = "x".repeat(15000);
    assert_eq!(fetch_output("text/plain", &long), format!("{}\n\n[truncated at 14000 chars]", "x".repeat(14000)));
    assert_eq!(html_to_text("<p>it&rsquo;s</p>"), "it's");
}

#[test]
fn openalex_url_and_works() {
    assert_eq!(encode("a b/é"), "a%20b%2F%C3%A9");
    assert_eq!(
        works_url("deep learning"),
        "https://api.openalex.org/works?search=deep%20learning&per_page=6&sort=relevance_score:desc&mailto=research@sleepers.local"
    );
    let author = |n: &str| obj(vec![("author", obj(vec![("display_name", s(n))]))]);
    let work = obj(vec![
        ("title", s("Paper")),
        ("publication_year", num(2020)),
        ("cited_by_count", num(42)),
        ("authorships", Json::Array(vec![author("A"), author("B"), author("C"), author("D")])),
        ("doi", s("https://doi.org/10.1/x")),
        ("primary_location", obj(vec![("source", obj(vec![("display_name", s("Venue"))]))])),
        ("open_access", obj(vec![("oa_url", s("https://oa/x.pdf"))])),
    ]);
    let bare = obj(vec![("primary_location", obj(vec![("landing_page_url", s("https://land"))]))]);
    let v = obj(vec![("results", Json::Array(vec![work, bare]))]);
    assert_eq!(
        works_output(&v),
        "- Paper (2020) — A, B, C | 42 citations | Venue\n  https://doi.org/10.1/x\n  open-access PDF: https://oa/x.pdf\n- (untitled) (0) —  | 0 citations\n  https://land\n"
    );
    assert_eq!(works_output(&obj(vec![("results", Json::Array(vec![]))])), "No scholarly results.");
}

#[test]
fn wikipedia_pages_sorted_by_rank() {
    assert_eq!(
        api_url("rust lang"),
        "https://en.wikipedia.org/w/api.php?action=query&format=json&prop=extracts&exintro=1&explaintext=1&redirects=1&generator=search&gsrsearch=rust%20lang&gsrlimit=3"
    );
    let page = |t: &str, e: &str, i: Option<i64>| {
        let mut f = vec![("title", s(t)), ("extract", s(e))];
        if let Some(i) = i {
            f.push(("index", num(i)));
        }
        obj(f)
    };
    let pages = obj(vec![
        ("1", page("Second Page", "two", Some(2))),
        ("2", page("No rank", "nr", None)),
        ("3", page("First", "one", Some(1))),
        ("4", page("", "no title", Some(0))),
        ("5", page("Also second", "two b", Some(2))),
    ]);
    let v = obj(vec![("query", obj(vec![("pages", pages)]))]);
    assert_eq!(
        lookup_output(&v),
        "## First\nhttps://en.wikipedia.org/wiki/First\none\n\n## Second Page\nhttps://en.wikipedia.org/wiki/Second_Page\ntwo\n\n## Also second\nhttps://en.wikipedia.org/wiki/Also_second\ntwo b\n\n## No rank\nhttps://en.wikipedia.org/wiki/No_rank\nnr\n\n"
    );
    assert_eq!(lookup_output(&obj(vec![])), "No Wikipedia results.");
    assert_eq!(underscore_title("a b c"), "a_b_c");
}

#[test]
fn wikipedia_sort_is_stable() {
    let mk = |i: i64, t: &str| WikiPage { index: i, title: t.to_string(), extract: "e".to_string() };
    let sorted = sort_pages(vec![mk(3, "c"), mk(1, "a1"), mk(2, "b"), mk(1, "a2"), mk(0, "z")]);
    let titles: Vec<&str> = sorted.iter().map(|p| p.title.as_str()).collect();
    assert_eq!(titles, vec!["z", "a1", "a2", "b", "c"]);
    let read = read_pages(&vec![("k".to_string(), obj(vec![("title", s("T")), ("extract", s("E"))]))]);
    assert_eq!(read.len(), 1);
    assert_eq!(read[0].index, 999);
}

#[test]
fn wikipedia_extract_cut_to_1200_chars() {
    let long = "é".repeat(1300);
    let v = obj(vec![("query", obj(vec![("pages", obj(vec![("1", obj(vec![("title", s("T")), ("extract", s(&long))]))]))]))]);
    assert_eq!(lookup_output(&v), format!("## T\nhttps://en.wikipedia.org/wiki/T\n{}\n\n", "é".repeat(1200)));
}

#[test]
fn arxiv_requests() {
    let by_id = obj(vec![("id", s("2403.01234")), ("query", s("ignored"))]);
    assert_eq!(
        request(&by_id),
        Ok(("id 2403.01234".to_string(), "http://export.arxiv.org/api/query?id_list=2403.01234".to_string()))
    );
    let by_query = obj(vec![("id", s("")), ("query", s("graph nets"))]);
    assert_eq!(
        request(&by_query),
        Ok((
            "search graph nets".to_string(),
            "http://export.arxiv.org/api/query?search_query=all:graph+nets&start=0&max_results=5".to_string()
        ))
    );
    assert_eq!(request(&obj(vec![])), Err("provide 'query' or 'id'".to_string()));
    assert_eq!(urlencoding("a b"), "a+b");
}

#[test]
fn arxiv_feed_is_parsed() {
    let feed = "<feed><title>ArXiv Query</title><entry><id> http://arxiv.org/abs/1 </id><title>A  Paper\n Title</title><summary>  Some   abstract\ntext </summary></entry><entry><id>x</id><summary>no title</summary></entry></feed>";
    assert!(atom_readable(feed));
    let entries = parse_entries(feed);
    assert_eq!(entries, vec!["Title: A Paper Title\nLink: http://arxiv.org/abs/1\nAbstract: Some abstract text".to_string()]);
    assert_eq!(papers_output(feed), entries[0]);
    assert_eq!(papers_output("<feed></feed>"), "No papers found.");
    let two = "<entry><title>A</title></entry><entry><title>B</title></entry>";
    assert_eq!(papers_output(two), "Title: A\nLink: \nAbstract: \n\nTitle: B\nLink: \nAbstract: ");
    assert!(!atom_readable("<entry></title><title>x</entry>"));
    assert_eq!(tag("<a>x</a>", "a"), "x");
    assert_eq!(tag("no tags", "a"), "");
    assert_eq!(collapse(" a  b "), "a b");
    assert_eq!(truncate("abcdef", 3), "abc…");
    let long_summary = format!("<entry><title>T</title><summary>{}</summary></entry>", "s".repeat(800));
    assert_eq!(
        papers_output(&long_summary),
        format!("Title: T\nLink: \nAbstract: {}…", "s".repeat(700))
    );
}

#[test]
fn file_tools() {
    assert_eq!(read_output("small"), "small");
    let big = "r".repeat(20010);
    assert_eq!(read_output(&big), format!("{}\n\n[truncated at 20000 chars of 20010]", "r".repeat(20000)));
    assert_eq!(read_error("/x", "not found"), "could not read /x: not found");
    assert_eq!(clip("abcdef", 4), "abcd…[+2 chars]");
    assert_eq!(clip("ab", 4), "ab");
    let args = obj(vec![("path", s("/p")), ("content", s("new"))]);
    assert_eq!(write_args(&args), Ok(("/p".to_string(), "new".to_string())));
    assert_eq!(write_args(&obj(vec![("content", s("c"))])), Err("missing 'path'".to_string()));
    assert_eq!(write_args(&obj(vec![("path", s("/p"))])), Err("missing 'content'".to_string()));
    assert_eq!(
        write_preview("/p", Some("old"), "new"),
        "OVERWRITE /p\n\n--- current (3 bytes) ---\nold\n\n+++ new (3 bytes) +++\nnew"
    );
    assert_eq!(write_preview("/p", None, "né"), "CREATE /p\n\n+++ new (3 bytes) +++\nné");
    assert_eq!(write_denied("/p"), "DENIED: user declined to write /p.");
    assert_eq!(write_error("disk full"), "write failed: disk full");
    assert_eq!(write_activity("/p", "abc"), "/p (3 bytes)");
    assert_eq!(wrote("/p", "abc"), "Wrote 3 bytes to /p.");
}

#[test]
fn code_exec_pieces() {
    let args = obj(vec![("language", s("Python")), ("code", s("print(1)"))]);
    assert_eq!(exec_args(&args), Ok(("python".to_string(), "print(1)".to_string())));
    assert_eq!(exec_args(&obj(vec![("code", s("x"))])), Ok(("python".to_string(), "x".to_string())));
    assert_eq!(exec_args(&obj(vec![("language", s("RUST"))])), Err("missing 'code'".to_string()));
    assert!(matches!(language("python"), Ok(Language::Python)));
    assert!(matches!(language("rust"), Ok(Language::Rust)));
    match language("go") {
        Err(e) => assert_eq!(e, "unsupported language: go (use python or rust)"),
        Ok(_) => panic!("go is not supported"),
    }
    assert_eq!(exec_preview("python", "x=1"), "language: python\ntimeout: 20s\n\nx=1");
    assert_eq!(exec_subtitle("rust"), "rust snippet");
    assert_eq!(exec_activity("rust", "fn main(){}"), "rust snippet (11 chars)");
    assert_eq!(compile_failed("E0001"), "Compilation failed:\nE0001");
}

#[test]
fn process_output_and_results() {
    assert_eq!(process_output(b"out\n", b""), "out\n");
    assert_eq!(process_output(b"out", b"warn"), "out\n[stderr]\nwarn");
    assert_eq!(process_output(b"  ", b" \n"), "(no output)");
    assert_eq!(process_output(&[0x66, 0xff, 0x6f], b""), "f\u{fffd}o");
    let done = RunOutcome::Finished { stdout: b"hi".to_vec(), stderr: Vec::new() };
    assert_eq!(run_result(&done), Ok("hi".to_string()));
    assert_eq!(run_result(&RunOutcome::SpawnFailed("no such file".into())), Err("spawn failed: no such file".to_string()));
    assert_eq!(run_result(&RunOutcome::ProcessError("io".into())), Err("process error: io".to_string()));
    assert_eq!(run_result(&RunOutcome::TimedOut), Err("timed out after 20s".to_string()));
    assert_eq!(cap("short"), "short");
    assert_eq!(cap(&"o".repeat(8001)), format!("{}\n\n[output truncated at 8000 chars]", "o".repeat(8000)));
}

#[test]
fn shell_pieces() {
    let (prog, args) = shell_invocation(true, "dir");
    assert_eq!(prog, "cmd");
    assert_eq!(args, vec!["/C".to_string(), "dir".to_string()]);
    let (prog, args) = shell_invocation(false, "ls -l");
    assert_eq!(prog, "sh");
    assert_eq!(args, vec!["-c".to_string(), "ls -l".to_string()]);
    assert_eq!(shell_denied(), "DENIED: user declined to run the command.");
}

#[test]
fn memory_tools() {
    let a = obj(vec![("content", s("likes tea")), ("kind", s("note"))]);
    assert_eq!(remember_args(&a), Ok(("note".to_string(), "likes tea".to_string())));
    let b = obj(vec![("content", s("x")), ("kind", s("other"))]);
    assert_eq!(remember_args(&b), Ok(("soul".to_string(), "x".to_string())));
    assert_eq!(remember_args(&obj(vec![])), Err("missing 'content'".to_string()));
    assert_eq!(remembered_note("soul", "x"), "remembered (soul): x");
    assert_eq!(saved_note("note"), "Saved to long-term memory (note).");
    let hit = |c: &str, rel: bool| MemoryHit {
        kind: "document".to_string(),
        content: c.to_string(),
        source: "a.md".to_string(),
        score_text: "0.91".to_string(),
        relevant: rel,
    };
    assert_eq!(recall_output(&vec![]), "No relevant memories found.");
    assert_eq!(recall_output(&vec![hit("x", false)]), "No sufficiently relevant memories found.");
    assert_eq!(
        recall_output(&vec![hit("fact", true), hit("low", false), hit(&"y".repeat(450), true)]),
        format!("[document 0.91] (src: a.md)\nfact\n\n[document 0.91] (src: a.md)\n{}\n\n", "y".repeat(400))
    );
}

#[test]
fn pdf_pieces() {
    let args = obj(vec![("path", s("/o.pdf")), ("content", s("body"))]);
    assert_eq!(pdf_args(&args), Ok(("/o.pdf".to_string(), "Document".to_string(), "body".to_string())));
    assert_eq!(pdf_args(&obj(vec![("content", s("b"))])), Err("missing 'path'".to_string()));
    assert_eq!(pdf_args(&obj(vec![("path", s("/o.pdf"))])), Err("missing 'content'".to_string()));
    assert_eq!(pdf_preview("/o.pdf", "T", "body"), "PDF -> /o.pdf\ntitle: T\n\nbody");
    assert_eq!(pdf_denied("/o.pdf"), "DENIED: user declined to create /o.pdf.");
    assert_eq!(pdf_created("/o.pdf"), "Created PDF at /o.pdf.");
    assert_eq!(sanitize("café → ok"), "café ? ok");
    assert_eq!(wrap("   ", 10), Vec::<String>::new());
    assert_eq!(wrap("aaa bbb ccc", 7), vec!["aaa bbb".to_string(), "ccc".to_string()]);
    assert_eq!(wrap("averyveryverylongword b", 5), vec!["averyveryverylongword".to_string(), "b".to_string()]);
}

#[test]
fn wrapping_keeps_words() {
    let line = "  the quick  brown fox\tjumps over the lazy dog ";
    for width in [1usize, 5, 10, 95] {
        assert_eq!(wrap(line, width).join(" "), "the quick brown fox jumps over the lazy dog");
    }
}

#[test]
fn pdf_layout_pages() {
    let ops = layout("Title", "one\n\ntwo");
    assert_eq!(ops.len(), 3);
    assert!(matches!(&ops[0], PdfOp::Heading(t) if t == "Title"));
    assert!(matches!(&ops[1], PdfOp::Line(t, y) if t == "one" && *y == TOP - 120));
    assert!(matches!(&ops[2], PdfOp::Line(t, y) if t == "two" && *y == TOP - 120 - 55 - 50));
    let many: Vec<String> = (0..60).map(|i| format!("line {i}")).collect();
    let ops = layout("T", &many.join("\n"));
    let pages = ops.iter().filter(|o| matches!(o, PdfOp::NewPage)).count();
    assert_eq!(pages, 1);
    for op in &ops {
        if let PdfOp::Line(_, y) = op {
            assert!(*y >= 145 && *y <= TOP);
        }
    }
}

#[test]
fn deep_research_planning() {
    let p = plan_prompt("why?");
    assert_eq!(p.len(), 2);
    assert_eq!(p[0].role, "system");
    assert!(p[0].content.starts_with("You are a research planner."));
    assert_eq!(p[1].role, "user");
    assert_eq!(p[1].content, "Question: why?");
    assert_eq!(
        parse_string_array("Sure: [\"a\", \"b\"] done"),
        Some(vec!["a".to_string(), "b".to_string()])
    );
    assert_eq!(parse_string_array("] nothing ["), None);
    assert_eq!(parse_string_array("[1, 2]"), None);
    assert_eq!(parse_string_array("no list"), None);
    assert_eq!(plan_queries(Some(vec!["x".into()]), "q"), vec!["x".to_string()]);
    assert_eq!(plan_queries(Some(vec![]), "q"), vec!["q".to_string()]);
    assert_eq!(plan_queries(None, "q"), vec!["q".to_string()]);
}

fn sr(t: &str, u: &str, sn: &str) -> SearchResult {
    SearchResult { title: t.to_string(), url: u.to_string(), snippet: sn.to_string() }
}

#[test]
fn deep_research_sources_are_unique() {
    let mut set = SourceSet::new();
    set.add_results(vec![sr("A", "https://a", "sa"), sr("E", "", "se"), sr("A2", "https://a", "dup")]);
    assert!(!set.is_full());
    set.add_results(vec![sr("B", "https://b", "sb"), sr("A3", "https://a", "again")]);
    let titles: Vec<&str> = set.sources.iter().map(|r| r.title.as_str()).collect();
    assert_eq!(titles, vec!["A", "B"]);
    let batch: Vec<SearchResult> = (0..10).map(|i| sr("T", &format!("https://{i}"), "")).collect();
    set.add_results(batch);
    assert!(set.is_full());
    let sources = set.into_sources();
    assert_eq!(sources.len(), 8);
    assert_eq!(sources[0].url, "https://a");
}

#[test]
fn deep_research_evidence_and_output() {
    let srcs = vec![sr("A", "https://a", "snip a"), sr("B", "https://b", "snip b"), sr("C", "https://c", "snip c")];
    let fetched = vec![
        ("https://a".to_string(), Ok("page a".to_string())),
        ("https://b".to_string(), Ok("   ".to_string())),
        ("https://c".to_string(), Err("timeout".to_string())),
    ];
    let ev = evidence(&srcs, &fetched);
    assert_eq!(
        ev,
        "[1] A — https://a\npage a\n\n[2] B — https://b\n(page unavailable) snip b\n\n[3] C — https://c\n(page unavailable) snip c\n\n"
    );
    assert_eq!(evidence(&srcs, &fetched[..1].to_vec()), "[1] A — https://a\npage a\n\n");
    assert_eq!(
        research_output(3, "q", "EV"),
        "Evidence gathered from 3 sources. Write a thorough, well-structured answer to \"q\" and cite sources inline as [n] matching the numbers below. End with a \"Sources\" list.\n\nEV"
    );
    assert_eq!(no_sources(), "deep_research found no sources (search may be unavailable).");
    assert_eq!(planning_note("q"), "planning: q");
    assert_eq!(subqueries_note(4), "4 sub-queries");
    assert_eq!(search_note("sq", "tavily"), "sq (tavily)");
    assert_eq!(fetch_note(8), "8 sources in parallel");
}

#[test]
fn decoded_output_is_combined() {
    assert_eq!(combine_output("a", ""), "a");
    assert_eq!(combine_output("", "err"), "\n[stderr]\nerr");
    assert_eq!(combine_output(" ", "\t"), "(no output)");
}
