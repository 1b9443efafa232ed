use sleepers_researcher::research::has_block_marker;
use sleepers_researcher::research::{
    after_archive_fetch, after_direct_fetch, between, cap, check_fetch_url, collapse, ddg_href_decodable,
    ddg_search_url, decode_ddg_href, html_to_text, html_unescape, looks_blocked, page_text, parse_ddg,
    parse_ddg_checked, pd_ok_bytes, percent_decode, provider_name, strip_block, strip_tags, tavily_results,
    urlencode, use_tavily, wayback_api_url, wayback_snapshot_url, FetchStep,
};
use sleepers_researcher::json::{Json, JsonNumber};

fn s(x: &str) -> Json {
    Json::Str(x.to_string())
}

fn obj(fields: Vec<(&str, Json)>) -> Json {
    Json::Object(fields.into_iter().map(|(k, v)| (k.to_string(), v)).collect())
}

fn boolean(b: bool) -> Json {
    Json::Bool(b)
}

#[test]
fn urlencode_keeps_unreserved_and_escapes_the_rest() {
    assert_eq!(urlencode("a b&c"), "a+b%26c");
    assert_eq!(urlencode("AZaz09-_.~"), "AZaz09-_.~");
    assert_eq!(urlencode("é"), "%C3%A9");
    assert_eq!(urlencode("/?="), "%2F%3F%3D");
}

#[test]
fn percent_decode_reads_escapes_and_plus() {
    assert_eq!(percent_decode("%41%42+c"), "AB c");
    assert_eq!(percent_decode("100%"), "100%");
    assert_eq!(percent_decode("%zz"), "%zz");
    assert_eq!(percent_decode("%C3%A9t%C3%A9"), "été");
}

#[test]
fn percent_decode_inverts_urlencode() {
    for text in ["héllo wörld/?&=+%", "", "plain", "日本語 テキスト", "a+b c"] {
        let enc = urlencode(text);
        assert!(pd_ok_bytes(enc.as_bytes()));
        assert_eq!(percent_decode(&enc), text);
    }
}

#[test]
fn unsafe_escape_is_reported() {
    assert!(!pd_ok_bytes("%aé".as_bytes()));
    assert!(pd_ok_bytes("%é".as_bytes()));
    assert!(pd_ok_bytes("%41é".as_bytes()));
}

#[test]
fn ddg_links_are_decoded() {
    assert_eq!(
        decode_ddg_href("//duckduckgo.com/l/?uddg=https%3A%2F%2Fexample.com%2Fa&amp;rut=x"),
        "https://example.com/a"
    );
    assert_eq!(decode_ddg_href("//example.com/x"), "https://example.com/x");
    assert_eq!(decode_ddg_href("http://example.com"), "http://example.com");
    assert_eq!(decode_ddg_href("/relative"), "");
    assert!(ddg_href_decodable("//duckduckgo.com/l/?uddg=abc"));
    assert!(!ddg_href_decodable("//duckduckgo.com/l/?uddg=%aé"));
}

#[test]
fn ddg_page_is_parsed() {
    let html = "<div><a class=\"result__a\" href=\"//duckduckgo.com/l/?uddg=https%3A%2F%2Fex.com%2Fp&amp;rut=1\">Ex <b>Title</b></a><a class=\"result__snippet\" href=\"x\">Snip <b>pet</b></a></div>";
    let r = parse_ddg(html, 5);
    assert_eq!(r.len(), 1);
    assert_eq!(r[0].title, "Ex Title");
    assert_eq!(r[0].url, "https://ex.com/p");
    assert_eq!(r[0].snippet, "Snip pet");
    let c = parse_ddg_checked(html, 5).unwrap();
    assert_eq!(c.len(), 1);
    assert_eq!(c[0].url, "https://ex.com/p");
}

#[test]
fn ddg_stops_at_max_and_skips_undecodable_links() {
    let one = "<a class=\"result__a\" href=\"https://a.com\">A</a>";
    let bad = "<a class=\"result__a\" href=\"/local\">B</a>";
    let two = "<a class=\"result__a\" href=\"https://c.com\">C</a>";
    let html = format!("{one}{bad}{two}{one}");
    let r = parse_ddg(&html, 2);
    assert_eq!(r.len(), 2);
    assert_eq!(r[0].url, "https://a.com");
    assert_eq!(r[1].url, "https://c.com");
    assert_eq!(r[1].title, "C");
    assert!(parse_ddg_checked("<a class=\"result__a\" href=\"//x/?uddg=%aé\">t</a>", 3).is_none());
}

#[test]
fn html_to_text_drops_scripts_tags_and_entities() {
    assert_eq!(
        html_to_text("<p>Hello <b>world</b></p><script>x()</script> &amp; more"),
        "Hello world & more"
    );
    assert_eq!(html_to_text("<STYLE>p{}</STYLE>  a\n\n b "), "a b");
}

#[test]
fn small_html_helpers() {
    assert_eq!(between("a[x]b", "[", "]"), "x");
    assert_eq!(between("a[x", "[", "]"), "");
    assert_eq!(collapse("  a \t b\n"), "a b");
    assert_eq!(strip_tags("<i>x</i>y"), "xy");
    assert_eq!(html_unescape("&amp;lt;"), "<");
    assert_eq!(html_unescape("&quot;&#39;&#x27;&nbsp;"), "\"'' ");
    assert_eq!(strip_block("a<script src=x>bad</SCRIPT>b", "script"), "ab");
    assert_eq!(strip_block("a<script>never closed", "script"), "a");
}

#[test]
fn blocked_pages_are_recognised() {
    assert!(looks_blocked("short"));
    let long = "x".repeat(400);
    assert!(!looks_blocked(&long));
    let challenge = format!("Just a Moment... {}", "y".repeat(400));
    assert!(looks_blocked(&challenge));
    let late = format!("{}captcha", "z".repeat(700));
    assert!(!looks_blocked(&late));
}

#[test]
fn cap_respects_char_boundaries() {
    assert_eq!(cap("héllo", 2), "h…[truncated]");
    assert_eq!(cap("hello", 10), "hello");
    assert_eq!(cap("hello", 3), "hel…[truncated]");
}

#[test]
fn page_text_reads_html_or_plain() {
    assert_eq!(page_text("text/plain", "  hi  "), "hi");
    assert_eq!(page_text("", "  <p>x</p>"), "x");
    assert_eq!(page_text("text/html; charset=utf-8", "<b>a</b> b"), "a b");
}

#[test]
fn fetch_steps() {
    assert!(check_fetch_url("https://x").is_ok());
    assert_eq!(check_fetch_url("ftp://x"), Err("url must start with http(s)".to_string()));
    let good = "g".repeat(400);
    match after_direct_fetch(&Ok(good.clone()), 100) {
        FetchStep::Done(t) => assert_eq!(t, format!("{}…[truncated]", "g".repeat(100))),
        FetchStep::TryArchive => panic!("expected a capped page"),
    }
    assert!(matches!(after_direct_fetch(&Ok("tiny".to_string()), 100), FetchStep::TryArchive));
    assert!(matches!(after_direct_fetch(&Err("e".to_string()), 100), FetchStep::TryArchive));
    let archived = after_archive_fetch(Err("down".to_string()), Some(Ok(good.clone())), 1000);
    assert_eq!(archived, Ok(format!("{good}\n\n(via Wayback Machine cache)")));
    let fallback = after_archive_fetch(Ok("tiny".to_string()), Some(Ok("also tiny".to_string())), 1000);
    assert_eq!(fallback, Ok("tiny".to_string()));
    assert_eq!(after_archive_fetch(Err("down".to_string()), None, 10), Err("down".to_string()));
}

#[test]
fn search_providers_and_urls() {
    assert!(use_tavily(&Some("k".to_string())));
    assert!(!use_tavily(&Some(String::new())));
    assert_eq!(provider_name(&None), "duckduckgo");
    assert_eq!(provider_name(&Some("k".to_string())), "tavily");
    assert_eq!(ddg_search_url("rust lang"), "https://html.duckduckgo.com/html/?q=rust+lang");
    assert_eq!(
        wayback_api_url("https://a.com/b"),
        "https://archive.org/wayback/available?url=https%3A%2F%2Fa.com%2Fb"
    );
}

#[test]
fn wayback_and_tavily_replies() {
    let snap = obj(vec![(
        "archived_snapshots",
        obj(vec![("closest", obj(vec![("available", boolean(true)), ("url", s("http://web.archive.org/x"))]))]),
    )]);
    assert_eq!(wayback_snapshot_url(&snap), Some("http://web.archive.org/x".to_string()));
    let none = obj(vec![(
        "archived_snapshots",
        obj(vec![("closest", obj(vec![("available", boolean(false)), ("url", s("u"))]))]),
    )]);
    assert_eq!(wayback_snapshot_url(&none), None);
    let reply = obj(vec![(
        "results",
        Json::Array(vec![obj(vec![
            ("title", s("T")),
            ("url", s("https://t.com")),
            ("content", s(&"c".repeat(500))),
        ])]),
    )]);
    let rs = tavily_results(&reply);
    assert_eq!(rs.len(), 1);
    assert_eq!(rs[0].title, "T");
    assert_eq!(rs[0].url, "https://t.com");
    assert_eq!(rs[0].snippet, "c".repeat(400));
    let _ = JsonNumber { int: Some(1), text: "1".to_string() };
}

#[test]
fn marker_phrases_are_found() {
    assert!(has_block_marker("please enable javascript to continue"));
    assert!(has_block_marker("verify you are human"));
    assert!(!has_block_marker("Just a moment"));
    assert!(!has_block_marker("an ordinary article"));
}

#[test]
fn collapse_joins_the_words() {
    for text in ["", "   ", "a", "  a  b\tc\n", "x\u{a0}y\u{3000}z", "é  ü\r\n"] {
        let words: Vec<&str> = text.split_whitespace().collect();
        assert_eq!(collapse(text), words.join(" "));
    }
}

#[test]
fn capping_keeps_the_beginning() {
    let text = "aé漢字🙂bcdefghij";
    for max in 0..text.len() {
        let capped = cap(text, max);
        let kept = capped.strip_suffix("…[truncated]").unwrap();
        assert!(kept.len() <= max);
        assert!(text.starts_with(kept));
        assert!(text.is_char_boundary(kept.len()));
    }
    assert_eq!(cap(text, text.len()), text);
}

#[test]
fn plain_text_is_only_whitespace_normalised() {
    let plain = "  several   words\n\tof plain text  ";
    let expected = plain.split_whitespace().collect::<Vec<_>>().join(" ");
    assert_eq!(html_to_text(plain), expected);
    assert_eq!(html_to_text(""), "");
}

#[test]
fn readable_text_is_clean_and_no_longer() {
    let pages = [
        "<html><body><h1>T</h1>\n<p>a &lt;b&gt; c</p><script>var x = 1 < 2;</script></body></html>",
        "x < y > z and <i>more</i>",
        "&nbsp;&amp;&quot;  q ",
    ];
    for page in pages {
        let r = html_to_text(page);
        assert_eq!(r, r.split_whitespace().collect::<Vec<_>>().join(" "));
        assert!(r.len() <= page.len());
    }
    let r = html_to_text("x < y > z and <i>more</i>");
    assert!(!r.contains('<') && !r.contains('>'));
    assert_eq!(r, "x z and more");
}
