//! Research infrastructure: readable text from HTML, search-result
//! extraction from DuckDuckGo's HTML page and Tavily's JSON reply, URL
//! encoding and decoding, and the decisions around fetching pages (bot-wall
//! detection, archive fallback, length caps). Requests are made by the
//! application around this module.

use vstd::prelude::*;
use vstd::utf8::*;
use crate::backends::{from_utf8_lossy, unicode_lower, utf8_lossy, to_lowercase};
use crate::json::Json;
use crate::text::{
    ascii_lower, ascii_lower_chars, chars_of, collapsed, collapse_chars, find_from, find_from_exec,
    lemma_find_from_skip, lemma_find_from_some, find, starts_with, starts_with_exec,
    take_chars, take_chars_str, trim, trim_str, trim_start, is_ws_exec, byte_len, byte_take,
    is_boundary, byte_prefix, push_str, contains, push_char, push_range, replace,
    replace_chars, string_of, untagged, strip_tags_str, utf8_len, hex_upper, hex_digit, is_ws, join, words,
    replace_from, occurs_at, law_collapse_joins_words, lemma_collapsed_idempotent, lemma_collapsed_absent,
    lemma_collapsed_shorter, lemma_untagged_plain, lemma_untagged_facts, lemma_replace_from_absent,
    lemma_replace_from_shorter, lemma_utf8_len_concat, lemma_utf8_len_ascii,
};

verus! {

/// A web search hit.
pub struct SearchResult {
    pub title: String,
    pub url: String,
    pub snippet: String,
}

// ------------------------------------------------------------------ HTML

/// `s` with every `<tag ...>...</tag>` block removed, scanning from `i`;
/// `low` is the ASCII-lower-cased `s`. A block whose closing tag is missing
/// ends the text.
pub open spec fn strip_block_from(
    s: Seq<char>,
    low: Seq<char>,
    open: Seq<char>,
    close: Seq<char>,
    i: int,
) -> Seq<char>
    decreases s.len() - i,
{
    if i < 0 || i >= s.len() || close.len() == 0 {
        seq![]
    } else {
        match find_from(low, open, i) {
            Some(start) => if i <= start <= s.len() {
                s.subrange(i, start) + match find_from(low, close, start) {
                    Some(e) => if start <= e && e + close.len() <= s.len() {
                        strip_block_from(s, low, open, close, e + close.len())
                    } else {
                        seq![]
                    },
                    None => seq![],
                }
            } else {
                seq![]
            },
            None => s.skip(i),
        }
    }
}

/// `<tag`
pub open spec fn open_tag(tag: Seq<char>) -> Seq<char> {
    seq!['<'] + tag
}

/// `</tag>`
pub open spec fn close_tag(tag: Seq<char>) -> Seq<char> {
    seq!['<', '/'] + tag + seq!['>']
}

/// `s` without its `<tag ...>...</tag>` blocks (tag matched case-insensitively).
pub open spec fn strip_block_spec(s: Seq<char>, tag: Seq<char>) -> Seq<char> {
    strip_block_from(s, ascii_lower(s), open_tag(tag), close_tag(tag), 0)
}

/// The common HTML entities decoded, `&amp;` first.
pub open spec fn html_unescape_spec(s: Seq<char>) -> Seq<char> {
    replace(
        replace(
            replace(
                replace(
                    replace(replace(replace(s, "&amp;"@, "&"@), "&lt;"@, "<"@), "&gt;"@, ">"@),
                    "&quot;"@,
                    "\""@,
                ),
                "&#39;"@,
                "'"@,
            ),
            "&#x27;"@,
            "'"@,
        ),
        "&nbsp;"@,
        " "@,
    )
}

/// Readable text of an HTML page: script and style blocks dropped, tags
/// stripped, entities decoded, whitespace collapsed.
pub open spec fn html_to_text_spec(html: Seq<char>) -> Seq<char> {
    collapsed(
        html_unescape_spec(
            untagged(strip_block_spec(strip_block_spec(html, "script"@), "style"@)),
        ),
    )
}

/// Removes `<tag ...>...</tag>` blocks (case-insensitive) entirely.
pub fn strip_block(s: &str, tag: &str) -> (r: String)
    ensures
        r@ == strip_block_spec(s@, tag@),
{
    let cs = chars_of(s);
    let low = ascii_lower_chars(&cs);
    let tc = chars_of(tag);
    let mut open: Vec<char> = Vec::new();
    open.push('<');
    let mut k: usize = 0;
    while k < tc.len()
        invariant
            k <= tc@.len(),
            open@ == seq!['<'] + tc@.take(k as int),
        decreases tc@.len() - k,
    {
        open.push(tc[k]);
        assert(tc@.take(k + 1) =~= tc@.take(k as int).push(tc@[k as int]));
        k += 1;
    }
    let mut close: Vec<char> = Vec::new();
    close.push('<');
    close.push('/');
    k = 0;
    while k < tc.len()
        invariant
            k <= tc@.len(),
            close@ == seq!['<', '/'] + tc@.take(k as int),
        decreases tc@.len() - k,
    {
        close.push(tc[k]);
        assert(tc@.take(k + 1) =~= tc@.take(k as int).push(tc@[k as int]));
        k += 1;
    }
    close.push('>');
    proof {
        assert(tc@.take(tc@.len() as int) =~= tc@);
        assert(open@ =~= open_tag(tag@));
        assert(close@ =~= close_tag(tag@));
    }
    let mut result = String::new();
    let mut i: usize = 0;
    let n = cs.len();
    assert(low@.len() == cs@.len());
    while i < n
        invariant
            n == cs@.len(),
            low@ == ascii_lower(cs@),
            low@.len() == cs@.len(),
            cs@ == s@,
            open@ == open_tag(tag@),
            close@ == close_tag(tag@),
            close@.len() > 0,
            i <= n,
            result@ + strip_block_from(cs@, low@, open@, close@, i as int) == strip_block_spec(s@, tag@),
        decreases n - i,
    {
        let ghost before = result@;
        match find_from_exec(&low, &open, i) {
            Some(start) => {
                proof {
                    lemma_find_from_some(low@, open@, i as int);
                }
                push_range(&mut result, &cs, i, start);
                match find_from_exec(&low, &close, start) {
                    Some(e) => {
                        proof {
                            lemma_find_from_some(low@, close@, start as int);
                            assert(before + strip_block_from(cs@, low@, open@, close@, i as int) =~= result@
                                + strip_block_from(cs@, low@, open@, close@, e + close@.len()));
                        }
                        i = e + close.len();
                    },
                    None => {
                        assert(before + strip_block_from(cs@, low@, open@, close@, i as int) =~= result@);
                        return result;
                    },
                }
            },
            None => {
                push_range(&mut result, &cs, i, n);
                assert(cs@.subrange(i as int, n as int) =~= cs@.skip(i as int));
                assert(before + strip_block_from(cs@, low@, open@, close@, i as int) =~= result@);
                return result;
            },
        }
    }
    assert(result@ + strip_block_from(cs@, low@, open@, close@, i as int) =~= result@);
    result
}

/// Decodes the common HTML entities.
pub fn html_unescape(s: &str) -> (r: String)
    ensures
        r@ == html_unescape_spec(s@),
{
    let cs = chars_of(s);
    let r1 = replace_chars(&cs, &chars_of("&amp;"), "&");
    let r2 = replace_chars(&r1, &chars_of("&lt;"), "<");
    let r3 = replace_chars(&r2, &chars_of("&gt;"), ">");
    let r4 = replace_chars(&r3, &chars_of("&quot;"), "\"");
    let r5 = replace_chars(&r4, &chars_of("&#39;"), "'");
    let r6 = replace_chars(&r5, &chars_of("&#x27;"), "'");
    let r7 = replace_chars(&r6, &chars_of("&nbsp;"), " ");
    string_of(&r7, 0, r7.len())
}

/// Readable text of an HTML page.
pub fn html_to_text(html: &str) -> (r: String)
    ensures
        r@ == html_to_text_spec(html@),
{
    let cleaned = strip_block(strip_block(html, "script").as_str(), "style");
    let out = strip_tags_str(cleaned.as_str());
    let un = html_unescape(out.as_str());
    let cs = chars_of(un.as_str());
    collapse_chars(&cs)
}

/// A pattern whose first character is absent from the text is not found.
proof fn lemma_find_from_absent(h: Seq<char>, p: Seq<char>, start: int)
    requires
        0 <= start,
        p.len() > 0,
        !h.contains(p[0]),
    ensures
        find_from(h, p, start) is None,
{
    lemma_find_from_some(h, p, start);
    if let Some(i) = find_from(h, p, start) {
        assert(h.subrange(i, i + p.len())[0] == h[i]);
    }
}

/// Lower-casing brings in no `<`.
proof fn lemma_lower_no_lt(s: Seq<char>)
    requires
        !s.contains('<'),
    ensures
        !ascii_lower(s).contains('<'),
{
    let l = ascii_lower(s);
    if l.contains('<') {
        let k = choose|k: int| 0 <= k < l.len() && l[k] == '<';
        assert(l[k] == crate::text::ascii_lower_char(s[k]));
        assert(s[k] != '<');
    }
}

/// Without a `<` there is no block to strip.
proof fn lemma_strip_block_plain(s: Seq<char>, tag: Seq<char>)
    requires
        !s.contains('<'),
    ensures
        strip_block_spec(s, tag) == s,
{
    lemma_lower_no_lt(s);
    assert(open_tag(tag)[0] == '<');
    lemma_find_from_absent(ascii_lower(s), open_tag(tag), 0);
    if s.len() == 0 {
        assert(strip_block_spec(s, tag) =~= s);
    } else {
        assert(s.skip(0) =~= s);
    }
}

/// Stripping blocks keeps pieces of the text only: it adds no character
/// and makes the text no longer in UTF-8 bytes.
proof fn lemma_strip_block_from_facts(
    s: Seq<char>,
    low: Seq<char>,
    open: Seq<char>,
    close: Seq<char>,
    i: int,
    c: char,
)
    requires
        0 <= i <= s.len(),
    ensures
        !s.contains(c) ==> !strip_block_from(s, low, open, close, i).contains(c),
        utf8_len(strip_block_from(s, low, open, close, i)) <= utf8_len(s.skip(i)),
    decreases s.len() - i,
{
    let r = strip_block_from(s, low, open, close, i);
    if i < s.len() && close.len() > 0 {
        if let Some(start) = find_from(low, open, i) {
            if i <= start <= s.len() {
                let head = s.subrange(i, start);
                let rest = match find_from(low, close, start) {
                    Some(e) => if start <= e && e + close.len() <= s.len() {
                        strip_block_from(s, low, open, close, e + close.len())
                    } else {
                        seq![]
                    },
                    None => seq![],
                };
                assert(r == head + rest);
                let mut tail_start: int = s.len() as int;
                if let Some(e) = find_from(low, close, start) {
                    if start <= e && e + close.len() <= s.len() {
                        tail_start = e + close.len();
                        lemma_strip_block_from_facts(s, low, open, close, e + close.len(), c);
                    }
                }
                assert(rest.len() == 0 ==> rest =~= Seq::<char>::empty());
                assert(utf8_len(rest) <= utf8_len(s.skip(tail_start))) by {
                    if rest.len() == 0 {
                        assert(utf8_len(rest) == 0) by {
                            assert(encode_utf8(rest) =~= Seq::<u8>::empty());
                        }
                    }
                }
                assert(s.skip(i) =~= head + (s.subrange(start, tail_start) + s.skip(tail_start)));
                lemma_utf8_len_concat(head, s.subrange(start, tail_start) + s.skip(tail_start));
                lemma_utf8_len_concat(s.subrange(start, tail_start), s.skip(tail_start));
                lemma_utf8_len_concat(head, rest);
                if !s.contains(c) && r.contains(c) {
                    let k = choose|k: int| 0 <= k < r.len() && r[k] == c;
                    if k < head.len() {
                        assert(s[i + k] == c);
                    } else {
                        if tail_start < s.len() {
                            assert(rest[k - head.len()] == c);
                        }
                    }
                }
            } else {
                assert(r =~= Seq::<char>::empty());
                assert(encode_utf8(r) =~= Seq::<u8>::empty());
            }
        } else {
            assert(r == s.skip(i));
            if !s.contains(c) && r.contains(c) {
                let k = choose|k: int| 0 <= k < r.len() && r[k] == c;
                assert(s[i + k] == c);
            }
        }
    } else {
        assert(r =~= Seq::<char>::empty());
        assert(encode_utf8(r) =~= Seq::<u8>::empty());
    }
}

/// Lower-casing works character by character.
proof fn lemma_lower_concat(a: Seq<char>, b: Seq<char>)
    ensures
        ascii_lower(a + b) == ascii_lower(a) + ascii_lower(b),
{
    assert(ascii_lower(a + b) =~= ascii_lower(a) + ascii_lower(b));
}

/// The first occurrence at or after `start` is found.
proof fn lemma_find_from_first(h: Seq<char>, p: Seq<char>, start: int, k: int)
    requires
        0 <= start <= k,
        occurs_at(h, p, k),
        forall|j: int| start <= j < k ==> !occurs_at(h, p, j),
    ensures
        find_from(h, p, start) == Some(k),
{
    lemma_find_from_some(h, p, start);
    match find_from(h, p, start) {
        Some(i) => {
            if i > k {
                assert(!occurs_at(h, p, k));
            }
        },
        None => {
            assert(!occurs_at(h, p, k));
        },
    }
}

/// Stripping from a position past a prefix is stripping the rest on its own.
proof fn lemma_strip_block_from_shift(w: Seq<char>, z: Seq<char>, open: Seq<char>, close: Seq<char>, i: int)
    requires
        0 <= i <= z.len(),
        close.len() > 0,
    ensures
        strip_block_from(w + z, ascii_lower(w + z), open, close, w.len() + i) == strip_block_from(
            z,
            ascii_lower(z),
            open,
            close,
            i,
        ),
    decreases z.len() - i,
{
    let s = w + z;
    let l = ascii_lower(s);
    let lz = ascii_lower(z);
    let n = w.len() as int;
    lemma_lower_concat(w, z);
    assert(l.skip(n) =~= lz);
    if i < z.len() {
        lemma_find_from_skip(l, open, n, n + i);
        match find_from(lz, open, i) {
            Some(st) => {
                lemma_find_from_some(lz, open, i);
                assert(s.subrange(n + i, n + st) =~= z.subrange(i, st));
                lemma_find_from_skip(l, close, n, n + st);
                match find_from(lz, close, st) {
                    Some(e) => {
                        if st <= e && e + close.len() <= z.len() {
                            lemma_strip_block_from_shift(w, z, open, close, e + close.len());
                        }
                    },
                    None => {},
                }
            },
            None => {
                assert(s.skip(n + i) =~= z.skip(i));
            },
        }
    }
}

/// Lower-casing gives `<` only for `<`.
proof fn lemma_lower_lt(c: char)
    ensures
        crate::text::ascii_lower_char(c) == '<' ==> c == '<',
{
}

/// Every closed block is dropped: a `<tag ...>...</tag>` block (tag letters
/// in any case) after text without `<`, and whose content has no `<`, is
/// removed, and stripping goes on in the text after it.
pub proof fn law_closed_block_is_dropped(
    x: Seq<char>,
    o: Seq<char>,
    m: Seq<char>,
    c: Seq<char>,
    z: Seq<char>,
    tag: Seq<char>,
)
    requires
        tag.len() > 0,
        forall|j: int| 0 <= j < tag.len() ==> 'a' <= #[trigger] tag[j] <= 'z',
        ascii_lower(o) == open_tag(tag),
        ascii_lower(c) == close_tag(tag),
        !x.contains('<'),
        !m.contains('<'),
    ensures
        strip_block_spec(x + o + m + c + z, tag) == x + strip_block_spec(z, tag),
{
    let open = open_tag(tag);
    let close = close_tag(tag);
    let w = x + o + m + c;
    let s = w + z;
    let l = ascii_lower(s);
    lemma_lower_concat(w, z);
    lemma_lower_concat(x + o + m, c);
    lemma_lower_concat(x + o, m);
    lemma_lower_concat(x, o);
    let lx = ascii_lower(x);
    let lm = ascii_lower(m);
    let a = x.len() as int;
    let e = a + o.len() + m.len();
    assert(l == lx + open + lm + close + ascii_lower(z));
    assert(o.len() == open.len());
    assert(c.len() == close.len());
    assert(open.len() == tag.len() + 1);
    assert(close.len() == tag.len() + 3);
    // the block opens right after `x`
    assert(l.subrange(a, a + open.len()) =~= open);
    assert forall|j: int| 0 <= j < a implies !occurs_at(l, open, j) by {
        assert(l[j] == lx[j]);
        assert(lx[j] == crate::text::ascii_lower_char(x[j]));
        lemma_lower_lt(x[j]);
        if occurs_at(l, open, j) {
            assert(l.subrange(j, j + open.len())[0] == l[j]);
            assert(open[0] == '<');
        }
    }
    lemma_find_from_first(l, open, 0, a);
    // and closes at `c`
    assert(l.subrange(e, e + close.len()) =~= close);
    assert forall|j: int| a <= j < e implies !occurs_at(l, close, j) by {
        if occurs_at(l, close, j) {
            assert(l.subrange(j, j + close.len())[0] == l[j]);
            assert(l.subrange(j, j + close.len())[1] == l[j + 1]);
            assert(close[0] == '<');
            assert(close[1] == '/');
            if j == a {
                assert(l[a + 1] == open[1]);
                assert(open[1] == tag[0]);
            } else if j < a + open.len() {
                assert(l[j] == open[j - a]);
                assert(open[j - a] == tag[j - a - 1]);
            } else {
                assert(l[j] == lm[j - a - open.len()]);
                assert(lm[j - a - open.len()] == crate::text::ascii_lower_char(m[j - a - open.len()]));
                lemma_lower_lt(m[j - a - open.len()]);
            }
        }
    }
    lemma_find_from_first(l, close, a, e);
    assert(s.subrange(0, a) =~= x);
    assert(e + close.len() == w.len());
    lemma_strip_block_from_shift(w, z, open, close, 0);
}

/// Markup-free text is only whitespace-normalised: without `<`, `>` and
/// `&`, the readable text is the words joined by single spaces.
pub proof fn law_plain_text_only_collapsed(html: Seq<char>)
    requires
        !html.contains('<'),
        !html.contains('>'),
        !html.contains('&'),
    ensures
        html_to_text_spec(html) == collapsed(html),
        html_to_text_spec(html) == join(words(html), " "@),
{
    lemma_strip_block_plain(html, "script"@);
    lemma_strip_block_plain(html, "style"@);
    lemma_untagged_plain(html);
    lemma_unescape_plain(html);
    law_collapse_joins_words(html);
}

/// Without `&`, decoding entities changes nothing.
proof fn lemma_unescape_plain(s: Seq<char>)
    requires
        !s.contains('&'),
    ensures
        html_unescape_spec(s) == s,
{
    reveal_strlit("&amp;");
    reveal_strlit("&lt;");
    reveal_strlit("&gt;");
    reveal_strlit("&quot;");
    reveal_strlit("&#39;");
    reveal_strlit("&#x27;");
    reveal_strlit("&nbsp;");
    assert(s.skip(0) =~= s);
    lemma_replace_from_absent(s, "&amp;"@, "&"@, 0);
    lemma_replace_from_absent(s, "&lt;"@, "<"@, 0);
    lemma_replace_from_absent(s, "&gt;"@, ">"@, 0);
    lemma_replace_from_absent(s, "&quot;"@, "\""@, 0);
    lemma_replace_from_absent(s, "&#39;"@, "'"@, 0);
    lemma_replace_from_absent(s, "&#x27;"@, "'"@, 0);
    lemma_replace_from_absent(s, "&nbsp;"@, " "@, 0);
}

/// The readable text is already collapsed (no leading, trailing or repeated
/// whitespace), and without `&` in the page it holds no `<` or `>`.
pub proof fn law_readable_text_is_clean(html: Seq<char>)
    ensures
        collapsed(html_to_text_spec(html)) == html_to_text_spec(html),
        !html.contains('&') ==> !html_to_text_spec(html).contains('<') && !html_to_text_spec(html).contains('>'),
{
    let a = strip_block_spec(html, "script"@);
    let b = strip_block_spec(a, "style"@);
    let u = untagged(b);
    let e = html_unescape_spec(u);
    lemma_collapsed_idempotent(e);
    if !html.contains('&') {
        assert(html.skip(0) =~= html);
        assert(a.skip(0) =~= a);
        lemma_strip_block_from_facts(html, ascii_lower(html), open_tag("script"@), close_tag("script"@), 0, '&');
        lemma_strip_block_from_facts(a, ascii_lower(a), open_tag("style"@), close_tag("style"@), 0, '&');
        lemma_untagged_facts(b, '&');
        lemma_unescape_plain(u);
        lemma_collapsed_absent(u, '<');
        lemma_collapsed_absent(u, '>');
    }
}

/// Decoding entities never makes the text longer in UTF-8 bytes.
proof fn lemma_unescape_shorter(s: Seq<char>)
    ensures
        utf8_len(html_unescape_spec(s)) <= utf8_len(s),
{
    reveal_strlit("&amp;");
    reveal_strlit("&lt;");
    reveal_strlit("&gt;");
    reveal_strlit("&quot;");
    reveal_strlit("&#39;");
    reveal_strlit("&#x27;");
    reveal_strlit("&nbsp;");
    reveal_strlit("&");
    reveal_strlit("<");
    reveal_strlit(">");
    reveal_strlit("\"");
    reveal_strlit("'");
    reveal_strlit(" ");
    lemma_utf8_len_ascii("&amp;"@);
    lemma_utf8_len_ascii("&lt;"@);
    lemma_utf8_len_ascii("&gt;"@);
    lemma_utf8_len_ascii("&quot;"@);
    lemma_utf8_len_ascii("&#39;"@);
    lemma_utf8_len_ascii("&#x27;"@);
    lemma_utf8_len_ascii("&nbsp;"@);
    lemma_utf8_len_ascii("&"@);
    lemma_utf8_len_ascii("<"@);
    lemma_utf8_len_ascii(">"@);
    lemma_utf8_len_ascii("\""@);
    lemma_utf8_len_ascii("'"@);
    lemma_utf8_len_ascii(" "@);
    let r1 = replace(s, "&amp;"@, "&"@);
    let r2 = replace(r1, "&lt;"@, "<"@);
    let r3 = replace(r2, "&gt;"@, ">"@);
    let r4 = replace(r3, "&quot;"@, "\""@);
    let r5 = replace(r4, "&#39;"@, "'"@);
    let r6 = replace(r5, "&#x27;"@, "'"@);
    assert(s.skip(0) =~= s);
    assert(r1.skip(0) =~= r1);
    assert(r2.skip(0) =~= r2);
    assert(r3.skip(0) =~= r3);
    assert(r4.skip(0) =~= r4);
    assert(r5.skip(0) =~= r5);
    assert(r6.skip(0) =~= r6);
    lemma_replace_from_shorter(s, "&amp;"@, "&"@, 0);
    lemma_replace_from_shorter(r1, "&lt;"@, "<"@, 0);
    lemma_replace_from_shorter(r2, "&gt;"@, ">"@, 0);
    lemma_replace_from_shorter(r3, "&quot;"@, "\""@, 0);
    lemma_replace_from_shorter(r4, "&#39;"@, "'"@, 0);
    lemma_replace_from_shorter(r5, "&#x27;"@, "'"@, 0);
    lemma_replace_from_shorter(r6, "&nbsp;"@, " "@, 0);
}

/// The readable text is never longer than the page, in UTF-8 bytes.
pub proof fn law_readable_text_no_longer(html: Seq<char>)
    ensures
        utf8_len(html_to_text_spec(html)) <= utf8_len(html),
{
    let a = strip_block_spec(html, "script"@);
    let b = strip_block_spec(a, "style"@);
    let u = untagged(b);
    let e = html_unescape_spec(u);
    assert(html.skip(0) =~= html);
    assert(a.skip(0) =~= a);
    lemma_strip_block_from_facts(html, ascii_lower(html), open_tag("script"@), close_tag("script"@), 0, '&');
    lemma_strip_block_from_facts(a, ascii_lower(a), open_tag("style"@), close_tag("style"@), 0, '&');
    lemma_untagged_facts(b, '&');
    lemma_unescape_shorter(u);
    lemma_collapsed_shorter(e);
}

// ------------------------------------------------------------------ pieces

/// The text between the first `a` and the next `b` after it, or empty.
pub open spec fn between_spec(s: Seq<char>, a: Seq<char>, b: Seq<char>) -> Seq<char> {
    match find_from(s, a, 0) {
        Some(i) => {
            let st = i + a.len();
            match find_from(s, b, st) {
                Some(j) => if st <= j <= s.len() { s.subrange(st, j) } else { seq![] },
                None => seq![],
            }
        },
        None => seq![],
    }
}

/// The text between the first `a` and the next `b` after it, or empty.
pub fn between_chars(s: &Vec<char>, a: &Vec<char>, b: &Vec<char>) -> (r: Vec<char>)
    ensures
        r@ == between_spec(s@, a@, b@),
{
    match find_from_exec(s, a, 0) {
        Some(i) => {
            proof {
                lemma_find_from_some(s@, a@, 0);
            }
            let sl = s.len();
            assert(i + a@.len() <= sl);
            let st = i + a.len();
            match find_from_exec(s, b, st) {
                Some(j) => {
                    proof {
                        lemma_find_from_some(s@, b@, st as int);
                    }
                    let mut out: Vec<char> = Vec::new();
                    let mut k = st;
                    while k < j
                        invariant
                            st <= k <= j <= s@.len(),
                            out@ == s@.subrange(st as int, k as int),
                        decreases j - k,
                    {
                        out.push(s[k]);
                        assert(s@.subrange(st as int, k + 1) =~= s@.subrange(st as int, k as int).push(
                            s@[k as int],
                        ));
                        k += 1;
                    }
                    out
                },
                None => Vec::new(),
            }
        },
        None => Vec::new(),
    }
}

/// The text between the first `a` and the next `b` after it, or empty.
pub fn between(s: &str, a: &str, b: &str) -> (r: String)
    ensures
        r@ == between_spec(s@, a@, b@),
{
    let cs = chars_of(s);
    let r = between_chars(&cs, &chars_of(a), &chars_of(b));
    string_of(&r, 0, r.len())
}

/// Drops `<...>` tags.
pub fn strip_tags_chars(cs: &Vec<char>) -> (r: String)
    ensures
        r@ == untagged(cs@),
{
    let s = string_of(cs, 0, cs.len());
    assert(cs@.subrange(0, cs@.len() as int) =~= cs@);
    strip_tags_str(s.as_str())
}

/// Collapses whitespace.
pub fn collapse(s: &str) -> (r: String)
    ensures
        r@ == collapsed(s@),
{
    collapse_chars(&chars_of(s))
}

/// Drops `<...>` tags.
pub fn strip_tags(s: &str) -> (r: String)
    ensures
        r@ == untagged(s@),
{
    strip_tags_str(s)
}

// ------------------------------------------------------------------ URLs

/// Bytes kept as they are by URL encoding.
pub open spec fn unreserved(b: u8) -> bool {
    (97 <= b <= 122) || (65 <= b <= 90) || (48 <= b <= 57) || b == 45 || b == 95 || b == 46 || b == 126
}

/// One byte URL-encoded; a space becomes `space`.
pub open spec fn encode_byte(b: u8, space: Seq<char>) -> Seq<char> {
    if unreserved(b) {
        seq![b as char]
    } else if b == 32 {
        space
    } else {
        seq!['%', hex_upper((b / 16) as nat), hex_upper((b % 16) as nat)]
    }
}

/// Bytes URL-encoded one by one.
pub open spec fn url_encode(bs: Seq<u8>, space: Seq<char>) -> Seq<char>
    decreases bs.len(),
{
    if bs.len() == 0 {
        seq![]
    } else {
        encode_byte(bs[0], space) + url_encode(bs.drop_first(), space)
    }
}

/// URL-encodes the UTF-8 bytes of `s`, writing a space as `space`.
pub fn url_encode_with(s: &str, space: &str) -> (r: String)
    ensures
        r@ == url_encode(encode_utf8(s@), space@),
{
    let bs = s.as_bytes();
    let mut out = String::new();
    let mut i: usize = 0;
    let n = bs.len();
    assert(bs@.skip(0) =~= bs@);
    while i < n
        invariant
            n == bs@.len(),
            bs@ == encode_utf8(s@),
            i <= n,
            out@ + url_encode(bs@.skip(i as int), space@) == url_encode(bs@, space@),
        decreases n - i,
    {
        let b = bs[i];
        let ghost before = out@;
        assert(bs@.skip(i as int).drop_first() =~= bs@.skip(i + 1));
        assert(bs@.skip(i as int)[0] == b);
        if (97 <= b && b <= 122) || (65 <= b && b <= 90) || (48 <= b && b <= 57) || b == 45 || b == 95
            || b == 46 || b == 126 {
            push_char(&mut out, b as char);
        } else if b == 32 {
            crate::text::push_str(&mut out, space);
        } else {
            push_char(&mut out, '%');
            push_char(&mut out, hex_digit(b / 16));
            push_char(&mut out, hex_digit(b % 16));
        }
        assert(out@ =~= before + encode_byte(b, space@));
        assert(before + url_encode(bs@.skip(i as int), space@) =~= out@ + url_encode(bs@.skip(i + 1), space@));
        i += 1;
    }
    assert(url_encode(bs@.skip(n as int), space@) =~= Seq::<char>::empty());
    assert(out@ + Seq::<char>::empty() =~= out@);
    out
}

/// Query-string encoding used for search requests: unreserved bytes kept,
/// space as `+`, everything else as `%XX`.
pub fn urlencode(s: &str) -> (r: String)
    ensures
        r@ == url_encode(encode_utf8(s@), "+"@),
{
    url_encode_with(s, "+")
}

/// Value of a hexadecimal digit byte.
pub open spec fn hex_val(b: u8) -> Option<u8> {
    if 48 <= b <= 57 {
        Some((b - 48) as u8)
    } else if 97 <= b <= 102 {
        Some((b - 87) as u8)
    } else if 65 <= b <= 70 {
        Some((b - 55) as u8)
    } else {
        None
    }
}

/// What `u8::from_str_radix(text, 16)` makes of a two-byte text.
pub open spec fn hex_pair(b1: u8, b2: u8) -> Option<u8> {
    if b1 == 43 {
        hex_val(b2)
    } else {
        match (hex_val(b1), hex_val(b2)) {
            (Some(h), Some(l)) => Some((h * 16 + l) as u8),
            _ => None,
        }
    }
}

/// Percent-decoding of `b` from position `i`: `%XX` is the byte XX, `+` a
/// space, any other byte itself.
pub open spec fn pd_bytes(b: Seq<u8>, i: int) -> Seq<u8>
    decreases b.len() - i,
{
    if i < 0 || i >= b.len() {
        seq![]
    } else if b[i] == 37 && i + 2 < b.len() {
        match hex_pair(b[i + 1], b[i + 2]) {
            Some(v) => seq![v] + pd_bytes(b, i + 3),
            None => seq![b[i]] + pd_bytes(b, i + 1),
        }
    } else if b[i] == 43 {
        seq![32u8] + pd_bytes(b, i + 1)
    } else {
        seq![b[i]] + pd_bytes(b, i + 1)
    }
}

/// Decoding from position `i` never reads a `%` escape whose two bytes end
/// inside a multi-byte character (slicing there would panic).
pub open spec fn pd_ok(b: Seq<u8>, i: int) -> bool
    decreases b.len() - i,
{
    if i < 0 || i >= b.len() {
        true
    } else if b[i] == 37 && i + 2 < b.len() {
        if i + 3 < b.len() && is_continuation_byte(b[i + 3]) {
            false
        } else {
            match hex_pair(b[i + 1], b[i + 2]) {
                Some(v) => pd_ok(b, i + 3),
                None => pd_ok(b, i + 1),
            }
        }
    } else {
        pd_ok(b, i + 1)
    }
}

/// Percent-decoding of a text, the result read as UTF-8 (lossily).
pub open spec fn percent_decode_spec(s: Seq<char>) -> Seq<char> {
    utf8_lossy(pd_bytes(encode_utf8(s), 0))
}

fn hex_val_exec(b: u8) -> (r: Option<u8>)
    ensures
        r == hex_val(b),
{
    if 48 <= b && b <= 57 {
        Some(b - 48)
    } else if 97 <= b && b <= 102 {
        Some(b - 87)
    } else if 65 <= b && b <= 70 {
        Some(b - 55)
    } else {
        None
    }
}

fn hex_pair_exec(b1: u8, b2: u8) -> (r: Option<u8>)
    ensures
        r == hex_pair(b1, b2),
{
    if b1 == 43 {
        hex_val_exec(b2)
    } else {
        match (hex_val_exec(b1), hex_val_exec(b2)) {
            (Some(h), Some(l)) => Some(h * 16 + l),
            _ => None,
        }
    }
}

/// Decodes `%XX` escapes and `+` in a URL component.
pub fn percent_decode(s: &str) -> (r: String)
    requires
        pd_ok(encode_utf8(s@), 0),
    ensures
        r@ == percent_decode_spec(s@),
        valid_utf8(pd_bytes(encode_utf8(s@), 0)) ==> r@ == decode_utf8(pd_bytes(encode_utf8(s@), 0)),
{
    let bytes = s.as_bytes();
    let n = bytes.len();
    let mut out: Vec<u8> = Vec::new();
    let mut i: usize = 0;
    while i < n
        invariant
            n == bytes@.len(),
            bytes@ == encode_utf8(s@),
            i <= n,
            pd_ok(bytes@, i as int),
            out@ + pd_bytes(bytes@, i as int) == pd_bytes(bytes@, 0),
        decreases n - i,
    {
        let ghost before = out@;
        let b = bytes[i];
        if b == 37 && n - i > 2 {
            match hex_pair_exec(bytes[i + 1], bytes[i + 2]) {
                Some(v) => {
                    out.push(v);
                    assert(before + pd_bytes(bytes@, i as int) =~= out@ + pd_bytes(bytes@, i + 3));
                    i += 3;
                },
                None => {
                    out.push(b);
                    assert(before + pd_bytes(bytes@, i as int) =~= out@ + pd_bytes(bytes@, i + 1));
                    i += 1;
                },
            }
        } else if b == 43 {
            out.push(32);
            assert(before + pd_bytes(bytes@, i as int) =~= out@ + pd_bytes(bytes@, i + 1));
            i += 1;
        } else {
            out.push(b);
            assert(before + pd_bytes(bytes@, i as int) =~= out@ + pd_bytes(bytes@, i + 1));
            i += 1;
        }
    }
    assert(out@ + pd_bytes(bytes@, i as int) =~= out@);
    from_utf8_lossy(out.as_slice())
}

/// The bytes URL encoding writes for one byte (space as `+`).
pub open spec fn enc_bytes(b: u8) -> Seq<u8> {
    encode_utf8(encode_byte(b, "+"@))
}

proof fn lemma_ascii_char_bytes(c: char)
    requires
        (c as u32) < 128,
    ensures
        encode_utf8(seq![c]) == seq![(c as u32) as u8],
{
    let v = c as u32;
    assert((v & 0x7F) as u8 == v as u8) by (bit_vector)
        requires
            v < 128,
    ;
    assert(has_width_1_encoding(v));
    assert(encode_scalar(v) =~= seq![v as u8]);
    assert(seq![c].drop_first() =~= Seq::<char>::empty());
    assert(encode_utf8(seq![c].drop_first()) =~= Seq::<u8>::empty());
    assert(seq![c][0] == c);
    assert(encode_utf8(seq![c]) == encode_scalar(v) + encode_utf8(seq![c].drop_first()));
    assert(encode_utf8(seq![c]) =~= seq![(c as u32) as u8]);
}

proof fn lemma_hex_char(d: nat)
    requires
        d < 16,
    ensures
        (hex_upper(d) as u32) < 128,
        hex_val((hex_upper(d) as u32) as u8) == Some(d as u8),
        ((hex_upper(d) as u32) as u8) != 43,
{
    let c = hex_upper(d);
    if d < 10 {
        assert((48 + d) as char as u32 == 48 + d);
    } else {
        assert((65 + (d - 10)) as char as u32 == 65 + (d - 10));
    }
}

proof fn lemma_enc_bytes(b: u8)
    ensures
        enc_bytes(b) == (if unreserved(b) {
            seq![b]
        } else if b == 32 {
            seq![43u8]
        } else {
            seq![37u8, (hex_upper((b / 16) as nat) as u32) as u8, (hex_upper((b % 16) as nat) as u32) as u8]
        }),
{
    reveal_strlit("+");
    if unreserved(b) {
        assert((b as char) as u32 == b as u32);
        lemma_ascii_char_bytes(b as char);
        assert(encode_byte(b, "+"@) == seq![b as char]);
        assert(enc_bytes(b) == seq![b]);
    } else if b == 32 {
        lemma_ascii_char_bytes('+');
        assert("+"@ =~= seq!['+']);
        assert(encode_byte(b, "+"@) == seq!['+']);
        assert(enc_bytes(b) == seq![43u8]);
    } else {
        let h = hex_upper((b / 16) as nat);
        let l = hex_upper((b % 16) as nat);
        lemma_hex_char((b / 16) as nat);
        lemma_hex_char((b % 16) as nat);
        lemma_ascii_char_bytes('%');
        lemma_ascii_char_bytes(h);
        lemma_ascii_char_bytes(l);
        crate::text::lemma_utf8_len_concat(seq!['%'], seq![h, l]);
        crate::text::lemma_utf8_len_concat(seq![h], seq![l]);
        assert(seq!['%', h, l] =~= seq!['%'] + seq![h, l]);
        assert(seq![h, l] =~= seq![h] + seq![l]);
        assert(encode_byte(b, "+"@) == seq!['%', h, l]);
        assert(enc_bytes(b) =~= seq![37u8, (h as u32) as u8, (l as u32) as u8]);
    }
}

proof fn lemma_pd_shift(x: Seq<u8>, y: Seq<u8>, j: int)
    requires
        0 <= j,
    ensures
        pd_bytes(x + y, x.len() + j) == pd_bytes(y, j),
        pd_ok(x + y, x.len() + j) == pd_ok(y, j),
    decreases y.len() - j,
{
    let z = x + y;
    let i = x.len() + j;
    if j < y.len() {
        assert(z[i] == y[j]);
        if j + 1 < y.len() {
            assert(z[i + 1] == y[j + 1]);
        }
        if j + 2 < y.len() {
            assert(z[i + 2] == y[j + 2]);
        }
        if j + 3 < y.len() {
            assert(z[i + 3] == y[j + 3]);
        }
        lemma_pd_shift(x, y, j + 1);
        if j + 3 <= y.len() {
            lemma_pd_shift(x, y, j + 3);
        }
        assert(x.len() + (j + 1) == i + 1);
        assert(x.len() + (j + 3) == i + 3);
    }
}

/// The bytes of the URL encoding of `bs` (space as `+`).
pub open spec fn encoded_bytes(bs: Seq<u8>) -> Seq<u8> {
    encode_utf8(url_encode(bs, "+"@))
}

proof fn lemma_encoded_front(bs: Seq<u8>)
    requires
        bs.len() > 0,
    ensures
        encoded_bytes(bs) == enc_bytes(bs[0]) + encoded_bytes(bs.drop_first()),
{
    crate::text::lemma_utf8_len_concat(encode_byte(bs[0], "+"@), url_encode(bs.drop_first(), "+"@));
}

proof fn lemma_decode_encoded(bs: Seq<u8>)
    ensures
        forall|i: int| 0 <= i < encoded_bytes(bs).len() ==> #[trigger] encoded_bytes(bs)[i] < 128,
        pd_bytes(encoded_bytes(bs), 0) == bs,
        pd_ok(encoded_bytes(bs), 0),
    decreases bs.len(),
{
    if bs.len() == 0 {
        assert(url_encode(bs, "+"@) =~= Seq::<char>::empty());
        assert(encoded_bytes(bs) =~= Seq::<u8>::empty());
    } else {
        let b = bs[0];
        let rest = bs.drop_first();
        lemma_decode_encoded(rest);
        lemma_encoded_front(bs);
        lemma_enc_bytes(b);
        let x = enc_bytes(b);
        let y = encoded_bytes(rest);
        let z = x + y;
        assert(encoded_bytes(bs) == z);
        lemma_pd_shift(x, y, 0);
        assert(x.len() + 0 == x.len());
        if !unreserved(b) && b != 32 {
            lemma_hex_char((b / 16) as nat);
            lemma_hex_char((b % 16) as nat);
            assert(z[0] == 37u8);
            assert(hex_pair(z[1], z[2]) == Some(b)) by {
                assert((b / 16) * 16 + b % 16 == b);
            }
            if 3 < z.len() {
                assert(z[3] == y[0]);
            }
            assert(pd_bytes(z, 0) =~= seq![b] + pd_bytes(z, 3));
        } else if b == 32 {
            assert(pd_bytes(z, 0) =~= seq![32u8] + pd_bytes(z, 1));
        } else {
            assert(pd_bytes(z, 0) =~= seq![b] + pd_bytes(z, 1));
        }
        assert(bs =~= seq![b] + rest);
        assert forall|i: int| 0 <= i < z.len() implies #[trigger] z[i] < 128 by {
            if i >= x.len() {
                assert(z[i] == y[i - x.len()]);
            }
        }
    }
}

/// Percent-decoding undoes URL encoding: decoding the encoding of a text is
/// defined everywhere and gives back the text's bytes.
pub proof fn law_percent_decode_inverts_urlencode(s: Seq<char>)
    ensures
        pd_ok(encode_utf8(url_encode(encode_utf8(s), "+"@)), 0),
        pd_bytes(encode_utf8(url_encode(encode_utf8(s), "+"@)), 0) == encode_utf8(s),
{
    lemma_decode_encoded(encode_utf8(s));
}

/// The characters a query-string encoding may hold: ASCII letters and
/// digits, `-`, `_`, `.`, `~`, `+` and `%`.
pub open spec fn query_char(c: char) -> bool {
    ||| ('a' <= c && c <= 'z')
    ||| ('A' <= c && c <= 'Z')
    ||| ('0' <= c && c <= '9')
    ||| c == '-'
    ||| c == '_'
    ||| c == '.'
    ||| c == '~'
    ||| c == '+'
    ||| c == '%'
}

proof fn lemma_hex_upper_query(d: nat)
    requires
        d < 16,
    ensures
        ('0' <= hex_upper(d) && hex_upper(d) <= '9') || ('A' <= hex_upper(d) && hex_upper(d) <= 'F'),
{
}

/// URL encoding works byte by byte: the encoding of two byte strings put
/// together is their encodings put together.
pub proof fn law_url_encode_concat(a: Seq<u8>, b: Seq<u8>, space: Seq<char>)
    ensures
        url_encode(a + b, space) == url_encode(a, space) + url_encode(b, space),
    decreases a.len(),
{
    if a.len() == 0 {
        assert(a + b =~= b);
        assert(url_encode(a, space) + url_encode(b, space) =~= url_encode(b, space));
    } else {
        assert((a + b).drop_first() =~= a.drop_first() + b);
        assert((a + b)[0] == a[0]);
        law_url_encode_concat(a.drop_first(), b, space);
        assert(encode_byte(a[0], space) + (url_encode(a.drop_first(), space) + url_encode(b, space))
            =~= encode_byte(a[0], space) + url_encode(a.drop_first(), space) + url_encode(b, space));
    }
}

/// What one byte becomes: an ASCII letter or digit, `-`, `_`, `.` or `~` is
/// kept, a space is written as `space`, and every other byte as `%` and its
/// two upper-case hexadecimal digits (so `#`, byte 35, is `%23`).
pub proof fn law_url_encode_byte(b: u8, space: Seq<char>)
    ensures
        (97 <= b <= 122 || 65 <= b <= 90 || 48 <= b <= 57 || b == 45 || b == 95 || b == 46 || b == 126)
            ==> url_encode(seq![b], space) == seq![b as char],
        b == 32 ==> url_encode(seq![b], space) == space,
        !(97 <= b <= 122 || 65 <= b <= 90 || 48 <= b <= 57 || b == 45 || b == 95 || b == 46 || b == 126 || b
            == 32) ==> url_encode(seq![b], space) == seq!['%', hex_upper((b / 16) as nat), hex_upper((b % 16) as nat)],
{
    let one = seq![b];
    assert(one.drop_first() =~= Seq::<u8>::empty());
    assert(one[0] == b);
    assert(url_encode(one.drop_first(), space) =~= Seq::<char>::empty());
    assert(url_encode(one, space) == encode_byte(b, space) + url_encode(one.drop_first(), space));
    assert(encode_byte(b, space) + Seq::<char>::empty() =~= encode_byte(b, space));
}

/// A query-string encoding holds nothing but ASCII letters and digits, `-`,
/// `_`, `.`, `~`, `+` and `%`, and each `%` is followed by two upper-case
/// hexadecimal digits.
pub proof fn law_urlencode_alphabet(bs: Seq<u8>)
    ensures
        forall|i: int| 0 <= i < url_encode(bs, "+"@).len() ==> query_char(#[trigger] url_encode(bs, "+"@)[i]),
        forall|i: int|
            0 <= i < url_encode(bs, "+"@).len() && #[trigger] url_encode(bs, "+"@)[i] == '%' ==> i + 2
                < url_encode(bs, "+"@).len() && ('0' <= url_encode(bs, "+"@)[i + 1] <= '9' || 'A'
                <= url_encode(bs, "+"@)[i + 1] <= 'F') && ('0' <= url_encode(bs, "+"@)[i + 2] <= '9'
                || 'A' <= url_encode(bs, "+"@)[i + 2] <= 'F'),
    decreases bs.len(),
{
    reveal_strlit("+");
    if bs.len() > 0 {
        let b = bs[0];
        law_urlencode_alphabet(bs.drop_first());
        let e = encode_byte(b, "+"@);
        let rest = url_encode(bs.drop_first(), "+"@);
        let r = url_encode(bs, "+"@);
        assert(r == e + rest);
        lemma_hex_upper_query((b / 16) as nat);
        lemma_hex_upper_query((b % 16) as nat);
        assert(forall|k: int| 0 <= k < e.len() ==> query_char(#[trigger] e[k]));
        assert forall|i: int| 0 <= i < r.len() implies query_char(#[trigger] r[i]) by {
            if i < e.len() {
                assert(r[i] == e[i]);
            } else {
                assert(r[i] == rest[i - e.len()]);
            }
        }
        assert forall|i: int| 0 <= i < r.len() && #[trigger] r[i] == '%' implies i + 2 < r.len() && ('0'
            <= r[i + 1] <= '9' || 'A' <= r[i + 1] <= 'F') && ('0' <= r[i + 2] <= '9' || 'A' <= r[i + 2]
            <= 'F') by {
            if i < e.len() {
                assert(r[i] == e[i]);
                assert(r[i + 1] == e[i + 1]);
                assert(r[i + 2] == e[i + 2]);
            } else {
                assert(r[i] == rest[i - e.len()]);
                assert(r[i + 1] == rest[i + 1 - e.len()]);
                assert(r[i + 2] == rest[i + 2 - e.len()]);
            }
        }
    }
}

// ------------------------------------------------------------------ DuckDuckGo

/// The target of a DuckDuckGo result link: the `uddg=` parameter of its
/// redirect URL decoded, or a scheme-relative / absolute URL as it is;
/// anything else is dropped.
pub open spec fn ddg_href_spec(href: Seq<char>) -> Seq<char> {
    let h = html_unescape_spec(href);
    match find(h, "uddg="@) {
        Some(idx) => percent_decode_spec(uddg_param(h, idx)),
        None => if starts_with(h, "//"@) {
            "https:"@ + h
        } else if starts_with(h, "http"@) {
            h
        } else {
            seq![]
        },
    }
}

/// The encoded value after `uddg=` at `idx`, up to the next `&`.
pub open spec fn uddg_param(h: Seq<char>, idx: int) -> Seq<char> {
    let rest = h.skip(idx + 5);
    match find(rest, "&"@) {
        Some(k) => if 0 <= k <= rest.len() { rest.take(k) } else { rest },
        None => rest,
    }
}

/// Decoding the link does not hit a panicking escape.
pub open spec fn ddg_href_ok(href: Seq<char>) -> bool {
    let h = html_unescape_spec(href);
    match find(h, "uddg="@) {
        Some(idx) => pd_ok(encode_utf8(uddg_param(h, idx)), 0),
        None => true,
    }
}

/// The encoded value after the `uddg=` found at `idx`, up to the next `&`.
fn uddg_value(hc: &Vec<char>, idx: usize) -> (r: String)
    requires
        find(hc@, "uddg="@) == Some(idx as int),
    ensures
        r@ == uddg_param(hc@, idx as int),
{
    proof {
        reveal_strlit("uddg=");
        reveal_strlit("&");
        lemma_find_from_some(hc@, "uddg="@, 0);
    }
    let amp = chars_of("&");
    let n = hc.len();
    let st = idx + 5;
    let ghost rest = hc@.skip(st as int);
    let end = match find_from_exec(&hc, &amp, st) {
        Some(k) => {
            proof {
                lemma_find_from_some(hc@, amp@, st as int);
            }
            k
        },
        None => n,
    };
    proof {
        lemma_find_from_skip(hc@, amp@, st as int, st as int);
        if end < n {
            assert(rest.take(end - st) =~= hc@.subrange(st as int, end as int));
        } else {
            assert(rest =~= hc@.subrange(st as int, end as int));
        }
    }
    string_of(hc, st, end)
}

/// Whether decoding a result link is defined (see [`decode_ddg_href`]).
pub fn ddg_href_decodable(href: &str) -> (r: bool)
    ensures
        r == ddg_href_ok(href@),
{
    let h = html_unescape(href);
    let hc = chars_of(h.as_str());
    let key = chars_of("uddg=");
    proof {
        reveal_strlit("uddg=");
    }
    match find_from_exec(&hc, &key, 0) {
        Some(idx) => {
            let enc = uddg_value(&hc, idx);
            pd_ok_bytes(enc.as_str().as_bytes())
        },
        None => true,
    }
}

/// Whether percent-decoding `b` from the start is defined.
pub fn pd_ok_bytes(b: &[u8]) -> (r: bool)
    ensures
        r == pd_ok(b@, 0),
{
    let n = b.len();
    let mut i: usize = 0;
    while i < n
        invariant
            n == b@.len(),
            i <= n,
            pd_ok(b@, 0) == pd_ok(b@, i as int),
        decreases n - i,
    {
        if b[i] == 37 && n - i > 2 {
            if n - i > 3 && 0x80 <= b[i + 3] && b[i + 3] <= 0xbf {
                return false;
            }
            match hex_pair_exec(b[i + 1], b[i + 2]) {
                Some(_) => {
                    i += 3;
                },
                None => {
                    i += 1;
                },
            }
        } else {
            i += 1;
        }
    }
    true
}

/// DuckDuckGo wraps results as `//duckduckgo.com/l/?uddg=<encoded>&...`.
pub fn decode_ddg_href(href: &str) -> (r: String)
    requires
        ddg_href_ok(href@),
    ensures
        r@ == ddg_href_spec(href@),
{
    let h = html_unescape(href);
    let hc = chars_of(h.as_str());
    let key = chars_of("uddg=");
    proof {
        reveal_strlit("uddg=");
        reveal_strlit("&");
        reveal_strlit("//");
        reveal_strlit("http");
    }
    match find_from_exec(&hc, &key, 0) {
        Some(idx) => {
            proof {
                lemma_find_from_some(hc@, key@, 0);
            }
            let enc = uddg_value(&hc, idx);
            percent_decode(enc.as_str())
        },
        None => {
            if starts_with_exec(&hc, &chars_of("//")) {
                let mut r = "https:".to_owned();
                push_str(&mut r, h.as_str());
                r
            } else if starts_with_exec(&hc, &chars_of("http")) {
                h
            } else {
                String::new()
            }
        },
    }
}

/// `s` split on every occurrence of `sep` (`str::split`).
pub open spec fn split_on(s: Seq<char>, sep: Seq<char>) -> Seq<Seq<char>>
    decreases s.len(),
{
    if sep.len() == 0 {
        seq![s]
    } else {
        match find(s, sep) {
            Some(p) => if 0 <= p && p + sep.len() <= s.len() {
                seq![s.take(p)] + split_on(s.skip(p + sep.len()), sep)
            } else {
                seq![s]
            },
            None => seq![s],
        }
    }
}

/// `s` split on every occurrence of `sep`.
pub fn split_chars(s: &Vec<char>, sep: &Vec<char>) -> (r: Vec<Vec<char>>)
    requires
        sep@.len() > 0,
    ensures
        r@.map_values(|v: Vec<char>| v@) == split_on(s@, sep@),
{
    let mut out: Vec<Vec<char>> = Vec::new();
    let mut pos: usize = 0;
    let n = s.len();
    assert(s@.skip(0) =~= s@);
    assert(out@.map_values(|v: Vec<char>| v@) + split_on(s@, sep@) =~= split_on(s@, sep@));
    loop
        invariant
            n == s@.len(),
            sep@.len() > 0,
            pos <= n,
            out@.map_values(|v: Vec<char>| v@) + split_on(s@.skip(pos as int), sep@) == split_on(s@, sep@),
        decreases n - pos,
    {
        let ghost t = s@.skip(pos as int);
        let ghost before = out@.map_values(|v: Vec<char>| v@);
        proof {
            lemma_find_from_skip(s@, sep@, pos as int, pos as int);
        }
        match find_from_exec(s, sep, pos) {
            Some(p) => {
                proof {
                    lemma_find_from_some(s@, sep@, pos as int);
                    assert(t.take(p - pos) =~= s@.subrange(pos as int, p as int));
                    assert(t.skip(p - pos + sep@.len()) =~= s@.skip(p + sep@.len()));
                }
                let piece = slice_vec(s, pos, p);
                out.push(piece);
                assert(out@.map_values(|v: Vec<char>| v@) =~= before.push(s@.subrange(pos as int, p as int)));
                assert(before + split_on(t, sep@) =~= out@.map_values(|v: Vec<char>| v@) + split_on(
                    s@.skip(p + sep@.len()),
                    sep@,
                ));
                pos = p + sep.len();
            },
            None => {
                let piece = slice_vec(s, pos, n);
                out.push(piece);
                assert(s@.subrange(pos as int, n as int) =~= t);
                assert(out@.map_values(|v: Vec<char>| v@) =~= before + split_on(t, sep@));
                return out;
            },
        }
    }
}

/// A copy of `s[lo..hi]`.
pub fn slice_vec(s: &Vec<char>, lo: usize, hi: usize) -> (r: Vec<char>)
    requires
        lo <= hi <= s@.len(),
    ensures
        r@ == s@.subrange(lo as int, hi as int),
{
    let mut out: Vec<char> = Vec::new();
    let mut k = lo;
    while k < hi
        invariant
            lo <= k <= hi <= s@.len(),
            out@ == s@.subrange(lo as int, k as int),
        decreases hi - k,
    {
        out.push(s[k]);
        assert(s@.subrange(lo as int, k + 1) =~= s@.subrange(lo as int, k as int).push(s@[k as int]));
        k += 1;
    }
    out
}

/// The search result a DuckDuckGo result segment holds, if its link decodes
/// to a URL: (title, url, snippet).
pub open spec fn ddg_item(seg: Seq<char>) -> Option<(Seq<char>, Seq<char>, Seq<char>)> {
    let url = ddg_href_spec(between_spec(seg, "href=\""@, "\""@));
    if url.len() == 0 {
        None
    } else {
        let title = collapsed(untagged(between_spec(seg, ">"@, "</a>"@)));
        let snippet = match find(seg, "result__snippet"@) {
            Some(p) => collapsed(untagged(between_spec(seg.skip(p), ">"@, "</a>"@))),
            None => seq![],
        };
        Some((title, url, snippet))
    }
}

/// Results of the segments, stopping once `max` are collected (`count` so
/// far); at least the first result is kept even when `max` is 0.
pub open spec fn ddg_collect(segs: Seq<Seq<char>>, max: nat, count: nat) -> Seq<(Seq<char>, Seq<char>, Seq<char>)>
    decreases segs.len(),
{
    if segs.len() == 0 {
        seq![]
    } else {
        match ddg_item(segs[0]) {
            None => ddg_collect(segs.drop_first(), max, count),
            Some(it) => if count + 1 >= max {
                seq![it]
            } else {
                seq![it] + ddg_collect(segs.drop_first(), max, count + 1)
            },
        }
    }
}

/// The segments visited before the collection stops decode their links
/// without a panicking escape.
pub open spec fn ddg_safe(segs: Seq<Seq<char>>, max: nat, count: nat) -> bool
    decreases segs.len(),
{
    if segs.len() == 0 {
        true
    } else {
        ddg_href_ok(between_spec(segs[0], "href=\""@, "\""@)) && match ddg_item(segs[0]) {
            None => ddg_safe(segs.drop_first(), max, count),
            Some(it) => count + 1 >= max || ddg_safe(segs.drop_first(), max, count + 1),
        }
    }
}

/// The result segments of a DuckDuckGo HTML page: what follows each
/// `result__a` marker.
pub open spec fn ddg_segments(html: Seq<char>) -> Seq<Seq<char>> {
    split_on(html, "result__a"@).drop_first()
}

/// Search results of a DuckDuckGo HTML results page, at most `max` (at least
/// one when `max` is 0 and there is one).
pub open spec fn parse_ddg_spec(html: Seq<char>, max: nat) -> Seq<(Seq<char>, Seq<char>, Seq<char>)> {
    ddg_collect(ddg_segments(html), max, 0)
}

/// The (title, url, snippet) of a search result.
pub open spec fn result_view(r: SearchResult) -> (Seq<char>, Seq<char>, Seq<char>) {
    (r.title@, r.url@, r.snippet@)
}

/// The result segment's (title, url, snippet), if its link decodes to a URL.
pub fn ddg_result(seg: &Vec<char>) -> (r: Option<SearchResult>)
    requires
        ddg_href_ok(between_spec(seg@, "href=\""@, "\""@)),
    ensures
        r matches Some(x) ==> ddg_item(seg@) == Some(result_view(x)),
        r is None ==> ddg_item(seg@) is None,
{
    let href_cs = between_chars(seg, &chars_of("href=\""), &chars_of("\""));
    let href = string_of(&href_cs, 0, href_cs.len());
    assert(href_cs@.subrange(0, href_cs@.len() as int) =~= href_cs@);
    let url = decode_ddg_href(href.as_str());
    if url.as_str().is_empty() {
        return None;
    }
    let t = between_chars(seg, &chars_of(">"), &chars_of("</a>"));
    let title = collapse(strip_tags_chars(&t).as_str());
    let snippet = match find_from_exec(seg, &chars_of("result__snippet"), 0) {
        Some(p) => {
            proof {
                lemma_find_from_some(seg@, "result__snippet"@, 0);
            }
            let rest = slice_vec(seg, p, seg.len());
            assert(seg@.subrange(p as int, seg@.len() as int) =~= seg@.skip(p as int));
            let sn = between_chars(&rest, &chars_of(">"), &chars_of("</a>"));
            collapse(strip_tags_chars(&sn).as_str())
        },
        None => String::new(),
    };
    Some(SearchResult { title, url, snippet })
}

/// Extracts search results from DuckDuckGo's HTML results page.
pub fn parse_ddg(html: &str, max: usize) -> (r: Vec<SearchResult>)
    requires
        ddg_safe(ddg_segments(html@), max as nat, 0),
    ensures
        r@.map_values(|x: SearchResult| result_view(x)) == parse_ddg_spec(html@, max as nat),
{
    let cs = chars_of(html);
    let marker = chars_of("result__a");
    proof {
        reveal_strlit("result__a");
    }
    let segs = split_chars(&cs, &marker);
    let ghost all = segs@.map_values(|v: Vec<char>| v@);
    let mut out: Vec<SearchResult> = Vec::new();
    if segs.len() == 0 {
        return out;
    }
    let mut k: usize = 1;
    assert(all.drop_first() =~= all.skip(1));
    loop
        invariant
            all == segs@.map_values(|v: Vec<char>| v@),
            all == split_on(html@, "result__a"@),
            1 <= k <= segs@.len(),
            out@.len() < max || out@.len() == 0,
            ddg_safe(all.skip(k as int), max as nat, out@.len() as nat),
            out@.map_values(|x: SearchResult| result_view(x)) + ddg_collect(
                all.skip(k as int),
                max as nat,
                out@.len() as nat,
            ) == parse_ddg_spec(html@, max as nat),
        decreases segs@.len() - k,
    {
        let ghost rest = all.skip(k as int);
        let ghost before = out@.map_values(|x: SearchResult| result_view(x));
        if k == segs.len() {
            assert(rest =~= Seq::<Seq<char>>::empty());
            assert(before + Seq::<(Seq<char>, Seq<char>, Seq<char>)>::empty() =~= before);
            return out;
        }
        assert(rest[0] == segs@[k as int]@);
        assert(rest.drop_first() =~= all.skip(k + 1));
        match ddg_result(&segs[k]) {
            None => {},
            Some(item) => {
                out.push(item);
                assert(out@.map_values(|x: SearchResult| result_view(x)) =~= before.push(result_view(item)));
                if out.len() >= max {
                    assert(before + ddg_collect(rest, max as nat, (out@.len() - 1) as nat) =~= out@.map_values(
                        |x: SearchResult| result_view(x),
                    ));
                    return out;
                }
                assert(before + ddg_collect(rest, max as nat, (out@.len() - 1) as nat) =~= out@.map_values(
                    |x: SearchResult| result_view(x),
                ) + ddg_collect(all.skip(k + 1), max as nat, out@.len() as nat));
            },
        }
        k += 1;
    }
}

/// The search results of a DuckDuckGo page, or `None` when a link that
/// would be read cannot be decoded (where [`parse_ddg`] is not defined).
pub fn parse_ddg_checked(html: &str, max: usize) -> (r: Option<Vec<SearchResult>>)
    ensures
        r is None <==> !ddg_safe(ddg_segments(html@), max as nat, 0),
        r matches Some(v) ==> v@.map_values(|x: SearchResult| result_view(x)) == parse_ddg_spec(
            html@,
            max as nat,
        ),
{
    let cs = chars_of(html);
    let marker = chars_of("result__a");
    proof {
        reveal_strlit("result__a");
    }
    let segs = split_chars(&cs, &marker);
    let ghost all = segs@.map_values(|v: Vec<char>| v@);
    let mut out: Vec<SearchResult> = Vec::new();
    if segs.len() == 0 {
        return Some(out);
    }
    let mut k: usize = 1;
    assert(all.drop_first() =~= all.skip(1));
    loop
        invariant
            all == segs@.map_values(|v: Vec<char>| v@),
            all == split_on(html@, "result__a"@),
            1 <= k <= segs@.len(),
            out@.len() < max || out@.len() == 0,
            ddg_safe(all.skip(1), max as nat, 0) == ddg_safe(all.skip(k as int), max as nat, out@.len() as nat),
            out@.map_values(|x: SearchResult| result_view(x)) + ddg_collect(
                all.skip(k as int),
                max as nat,
                out@.len() as nat,
            ) == parse_ddg_spec(html@, max as nat),
        decreases segs@.len() - k,
    {
        let ghost rest = all.skip(k as int);
        let ghost before = out@.map_values(|x: SearchResult| result_view(x));
        if k == segs.len() {
            assert(rest =~= Seq::<Seq<char>>::empty());
            assert(before + Seq::<(Seq<char>, Seq<char>, Seq<char>)>::empty() =~= before);
            return Some(out);
        }
        assert(rest[0] == segs@[k as int]@);
        assert(rest.drop_first() =~= all.skip(k + 1));
        let href_cs = between_chars(&segs[k], &chars_of("href=\""), &chars_of("\""));
        let href = string_of(&href_cs, 0, href_cs.len());
        assert(href_cs@.subrange(0, href_cs@.len() as int) =~= href_cs@);
        if !ddg_href_decodable(href.as_str()) {
            return None;
        }
        match ddg_result(&segs[k]) {
            None => {},
            Some(item) => {
                out.push(item);
                assert(out@.map_values(|x: SearchResult| result_view(x)) =~= before.push(result_view(item)));
                if out.len() >= max {
                    assert(before + ddg_collect(rest, max as nat, (out@.len() - 1) as nat) =~= out@.map_values(
                        |x: SearchResult| result_view(x),
                    ));
                    return Some(out);
                }
                assert(before + ddg_collect(rest, max as nat, (out@.len() - 1) as nat) =~= out@.map_values(
                    |x: SearchResult| result_view(x),
                ) + ddg_collect(all.skip(k + 1), max as nat, out@.len() as nat));
            },
        }
        k += 1;
    }
}

// ------------------------------------------------------------------ fetching

/// Phrases that mark a bot challenge rather than content.
pub open spec fn block_markers() -> Seq<Seq<char>> {
    seq![
        "javascript is disabled"@,
        "enable javascript"@,
        "client challenge"@,
        "just a moment"@,
        "verify you are human"@,
        "captcha"@,
    ]
}

/// Is this a bot-challenge / empty page rather than real content: under 350
/// bytes, or a marker phrase in the lower-cased first 600 characters.
pub open spec fn looks_blocked_spec(text: Seq<char>) -> bool {
    utf8_len(text) < 350 || has_marker(unicode_lower(take_chars(text, 600)))
}

/// Heuristic: is this a bot-challenge / empty page rather than real content?
pub fn looks_blocked(text: &str) -> (r: bool)
    ensures
        r == looks_blocked_spec(text@),
{
    if byte_len(text) < 350 {
        return true;
    }
    let head = to_lowercase(take_chars_str(text, 600).as_str());
    has_block_marker(head.as_str())
}

/// Some bot-challenge marker phrase occurs in `head`.
pub open spec fn has_marker(head: Seq<char>) -> bool {
    exists|i: int| 0 <= i < 6 && contains(head, #[trigger] block_markers()[i])
}

/// Whether a lower-cased page head holds a bot-challenge marker phrase.
pub fn has_block_marker(head: &str) -> (r: bool)
    ensures
        r == has_marker(head@),
{
    let hc = chars_of(head);
    let markers: Vec<&str> = vec![
        "javascript is disabled",
        "enable javascript",
        "client challenge",
        "just a moment",
        "verify you are human",
        "captcha",
    ];
    let ghost ms = block_markers();
    assert(markers@.map_values(|m: &str| m@) =~= ms);
    let mut i: usize = 0;
    while i < markers.len()
        invariant
            markers@.len() == 6,
            markers@.map_values(|m: &str| m@) == ms,
            ms == block_markers(),
            hc@ == head@,
            i <= 6,
            forall|j: int| 0 <= j < i ==> !contains(hc@, #[trigger] ms[j]),
        decreases 6 - i,
    {
        assert(markers@[i as int]@ == ms[i as int]);
        let m = chars_of(markers[i]);
        if find_from_exec(&hc, &m, 0).is_some() {
            return true;
        }
        i += 1;
    }
    false
}

/// The largest character boundary of `t` at or below byte `n`.
pub open spec fn floor_boundary(t: Seq<char>, n: int) -> int
    decreases n,
{
    if n <= 0 {
        0
    } else if is_boundary(t, n) {
        n
    } else {
        floor_boundary(t, n - 1)
    }
}

/// `text` cut to at most `max_chars` bytes at a character boundary and marked
/// `…[truncated]`, when it is longer than that.
pub open spec fn cap_spec(text: Seq<char>, max_chars: int) -> Seq<char> {
    if utf8_len(text) > max_chars {
        byte_take(text, floor_boundary(text, max_chars)) + "…[truncated]"@
    } else {
        text
    }
}

proof fn lemma_floor_boundary(t: Seq<char>, n: int)
    requires
        0 <= n,
    ensures
        0 <= floor_boundary(t, n) <= n,
        is_boundary(t, floor_boundary(t, n)),
    decreases n,
{
    broadcast use vstd::utf8::is_char_boundary_start_end_of_seq;
    broadcast use vstd::utf8::encode_utf8_valid_utf8;

    if n > 0 && !is_boundary(t, n) {
        lemma_floor_boundary(t, n - 1);
    }
    assert(is_boundary(t, 0));
}

/// Capping cuts a long text on a character boundary no later than the
/// limit, so what is kept is the text's beginning.
pub proof fn law_cap_keeps_a_prefix(text: Seq<char>, max_chars: int)
    requires
        0 <= max_chars < utf8_len(text),
    ensures
        0 <= floor_boundary(text, max_chars) <= max_chars,
        is_boundary(text, floor_boundary(text, max_chars)),
        cap_spec(text, max_chars) == text.take(byte_take(text, floor_boundary(text, max_chars)).len() as int)
            + "…[truncated]"@,
{
    broadcast use vstd::utf8::encode_utf8_valid_utf8;
    broadcast use vstd::utf8::encode_utf8_decode_utf8;

    lemma_floor_boundary(text, max_chars);
    let k = floor_boundary(text, max_chars);
    let bytes = encode_utf8(text);
    vstd::utf8::decode_utf8_split(bytes, k);
    let head = decode_utf8(bytes.subrange(0, k));
    let tail = decode_utf8(bytes.subrange(k, bytes.len() as int));
    assert(bytes.take(k) =~= bytes.subrange(0, k));
    assert(text == head + tail);
    assert(head =~= text.take(head.len() as int));
}

/// Caps a text at `max_chars` bytes, respecting character boundaries.
pub fn cap(text: &str, max_chars: usize) -> (r: String)
    ensures
        r@ == cap_spec(text@, max_chars as int),
{
    if byte_len(text) > max_chars {
        let mut end = max_chars;
        while end > 0 && !text.is_char_boundary(end)
            invariant
                end <= max_chars < utf8_len(text@),
                floor_boundary(text@, max_chars as int) == floor_boundary(text@, end as int),
            decreases end,
        {
            end -= 1;
        }
        proof {
            broadcast use vstd::utf8::is_char_boundary_start_end_of_seq;
            broadcast use vstd::utf8::encode_utf8_valid_utf8;
            assert(is_boundary(text@, 0));
        }
        let mut r = byte_prefix(text, end).to_owned();
        push_str(&mut r, "…[truncated]");
        r
    } else {
        text.to_owned()
    }
}

/// Whether a response is an HTML page: its content type says so, or its body
/// starts with `<` after leading whitespace.
pub open spec fn is_html(ctype: Seq<char>, body: Seq<char>) -> bool {
    contains(ctype, "html"@) || starts_with(trim_start(body), "<"@)
}

/// The text of a fetched page: readable text for HTML, the body otherwise,
/// trim.
pub open spec fn page_text_spec(ctype: Seq<char>, body: Seq<char>) -> Seq<char> {
    trim(if is_html(ctype, body) { html_to_text_spec(body) } else { body })
}

/// Readable, trim text of a fetched response body.
pub fn page_text(ctype: &str, body: &str) -> (r: String)
    ensures
        r@ == page_text_spec(ctype@, body@),
{
    let tc = chars_of(ctype);
    let bc = chars_of(body);
    let html_type = find_from_exec(&tc, &chars_of("html"), 0).is_some();
    let mut a: usize = 0;
    assert(bc@.skip(0) =~= bc@);
    while a < bc.len() && is_ws_exec(bc[a])
        invariant
            a <= bc@.len(),
            bc@ == body@,
            trim_start(bc@) == trim_start(bc@.skip(a as int)),
        decreases bc@.len() - a,
    {
        assert(bc@.skip(a as int).drop_first() =~= bc@.skip(a + 1));
        a += 1;
    }
    proof {
        reveal_strlit("<");
    }
    let starts_tag = a < bc.len() && bc[a] == '<';
    proof {
        if a < bc@.len() {
            assert(bc@.skip(a as int)[0] == bc@[a as int]);
            assert(trim_start(bc@.skip(a as int)) == bc@.skip(a as int));
            assert(bc@.skip(a as int).take(1) =~= seq![bc@[a as int]]);
            assert("<"@ =~= seq!['<']);
            assert(trim_start(body@) == bc@.skip(a as int));
            if starts_with(bc@.skip(a as int), "<"@) {
                assert(bc@.skip(a as int).take(1)[0] == "<"@[0]);
            }
        } else {
            assert(bc@.skip(a as int).len() == 0);
        }
        assert(starts_tag == starts_with(trim_start(body@), "<"@));
    }
    if html_type || starts_tag {
        trim_str(html_to_text(body).as_str())
    } else {
        trim_str(body)
    }
}

// ------------------------------------------------------------------ providers

/// Whether searches go to Tavily: a non-empty `TAVILY_API_KEY` is set.
pub fn use_tavily(key: &Option<String>) -> (r: bool)
    ensures
        r == (match key { Some(k) => k@.len() > 0, None => false }),
{
    match key {
        Some(k) => !k.as_str().is_empty(),
        None => false,
    }
}

/// Which search backend is active (for logging / UI).
pub fn provider_name(key: &Option<String>) -> (r: String)
    ensures
        r@ == (if (match key { Some(k) => k@.len() > 0, None => false }) {
            "tavily"@
        } else {
            "duckduckgo"@
        }),
{
    if use_tavily(key) {
        "tavily".to_owned()
    } else {
        "duckduckgo".to_owned()
    }
}

/// The DuckDuckGo HTML search URL for a query.
pub fn ddg_search_url(query: &str) -> (r: String)
    ensures
        r@ == "https://html.duckduckgo.com/html/?q="@ + url_encode(encode_utf8(query@), "+"@),
{
    let mut r = "https://html.duckduckgo.com/html/?q=".to_owned();
    push_str(&mut r, urlencode(query).as_str());
    r
}

/// The hits of a Tavily search reply: title, url and the first 400
/// characters of the content of each entry of `results`.
pub open spec fn tavily_spec(v: Json) -> Seq<(Seq<char>, Seq<char>, Seq<char>)> {
    match v.get_spec("results"@) {
        Some(Json::Array(rs)) => rs@.map_values(|r: Json| (
            r.str_or_empty("title"@),
            r.str_or_empty("url"@),
            take_chars(r.str_or_empty("content"@), 400),
        )),
        _ => seq![],
    }
}

/// Search results from a Tavily reply.
pub fn tavily_results(v: &Json) -> (r: Vec<SearchResult>)
    ensures
        r@.map_values(|x: SearchResult| result_view(x)) == tavily_spec(*v),
{
    let mut out: Vec<SearchResult> = Vec::new();
    match v.get("results") {
        Some(Json::Array(rs)) => {
            let mut i: usize = 0;
            while i < rs.len()
                invariant
                    i <= rs@.len(),
                    out@.len() == i,
                    forall|j: int| 0 <= j < i ==> #[trigger] result_view(out@[j]) == (
                        rs@[j].str_or_empty("title"@),
                        rs@[j].str_or_empty("url"@),
                        take_chars(rs@[j].str_or_empty("content"@), 400),
                    ),
                decreases rs@.len() - i,
            {
                let r = &rs[i];
                let content = r.str_field("content");
                let item = SearchResult {
                    title: r.str_field("title"),
                    url: r.str_field("url"),
                    snippet: take_chars_str(content.as_str(), 400),
                };
                out.push(item);
                assert(result_view(out@[i as int]) == result_view(item));
                i += 1;
            }
            assert(out@.map_values(|x: SearchResult| result_view(x)) =~= tavily_spec(*v));
            out
        },
        _ => {
            assert(out@.map_values(|x: SearchResult| result_view(x)) =~= tavily_spec(*v));
            out
        },
    }
}

/// The Wayback Machine availability-API URL for a page.
pub fn wayback_api_url(url: &str) -> (r: String)
    ensures
        r@ == "https://archive.org/wayback/available?url="@ + url_encode(encode_utf8(url@), "+"@),
{
    let mut r = "https://archive.org/wayback/available?url=".to_owned();
    push_str(&mut r, urlencode(url).as_str());
    r
}

/// The closest archived snapshot's URL, when the reply says one is available.
pub open spec fn wayback_spec(v: Json) -> Option<Seq<char>> {
    match v.get_spec("archived_snapshots"@) {
        Some(a) => match a.get_spec("closest"@) {
            Some(snap) => {
                let avail = match snap.get_spec("available"@) {
                    Some(b) => match b.bool_spec() {
                        Some(x) => x,
                        None => false,
                    },
                    None => false,
                };
                if avail {
                    match snap.get_spec("url"@) {
                        Some(u) => u.str_spec(),
                        None => None,
                    }
                } else {
                    None
                }
            },
            None => None,
        },
        None => None,
    }
}

/// Reads the closest snapshot's URL out of a Wayback availability reply.
pub fn wayback_snapshot_url(v: &Json) -> (r: Option<String>)
    ensures
        r matches Some(u) ==> wayback_spec(*v) == Some(u@),
        r is None ==> wayback_spec(*v) is None,
{
    let snap = match v.get("archived_snapshots") {
        Some(a) => match a.get("closest") {
            Some(s) => s,
            None => { return None; },
        },
        None => { return None; },
    };
    let avail = match snap.get("available") {
        Some(b) => match b.as_bool() {
            Some(x) => x,
            None => false,
        },
        None => false,
    };
    if avail {
        match snap.get("url") {
            Some(u) => match u.as_str() {
                Some(s) => Some(s.to_owned()),
                None => None,
            },
            None => None,
        }
    } else {
        None
    }
}

/// Where a page fetch stands after the direct request.
pub enum FetchStep {
    /// The page is read: this text is the result.
    Done(String),
    /// The direct copy is blocked or failed: ask the Wayback Machine.
    TryArchive,
}

/// The error for a URL that is not http(s).
pub open spec fn bad_url_error() -> Seq<char> {
    "url must start with http(s)"@
}

/// Only http(s) URLs are fetched.
pub fn check_fetch_url(url: &str) -> (r: Result<(), String>)
    ensures
        r is Ok <==> starts_with(url@, "http"@),
        r matches Err(e) ==> e@ == bad_url_error(),
{
    if starts_with_exec(&chars_of(url), &chars_of("http")) {
        Ok(())
    } else {
        Err("url must start with http(s)".to_owned())
    }
}

/// After the direct request: a readable page is capped and done; a blocked
/// page or a failure sends the fetch to the archive.
pub fn after_direct_fetch(direct: &Result<String, String>, max_chars: usize) -> (r: FetchStep)
    ensures
        (match direct {
            Ok(t) => !looks_blocked_spec(t@),
            Err(_) => false,
        }) ==> (r matches FetchStep::Done(s) && s@ == cap_spec(direct->Ok_0@, max_chars as int)),
        (match direct {
            Ok(t) => looks_blocked_spec(t@),
            Err(_) => true,
        }) ==> r is TryArchive,
{
    match direct {
        Ok(t) => if !looks_blocked(t.as_str()) {
            FetchStep::Done(cap(t.as_str(), max_chars))
        } else {
            FetchStep::TryArchive
        },
        Err(_) => FetchStep::TryArchive,
    }
}

/// The archived copy's text, capped and marked as coming from the archive,
/// when it is readable.
pub open spec fn archived_text(t: Seq<char>, max_chars: int) -> Option<Seq<char>> {
    if looks_blocked_spec(t) {
        None
    } else {
        Some(cap_spec(t + "\n\n(via Wayback Machine cache)"@, max_chars))
    }
}

/// After the archive attempt: a readable archived copy wins; otherwise the
/// direct result stands (capped when it is text).
pub fn after_archive_fetch(
    direct: Result<String, String>,
    archived: Option<Result<String, String>>,
    max_chars: usize,
) -> (r: Result<String, String>)
    ensures
        (match archived {
            Some(Ok(t)) => archived_text(t@, max_chars as int),
            _ => None,
        }) matches Some(x) ==> r matches Ok(s) && s@ == x,
        (match archived {
            Some(Ok(t)) => archived_text(t@, max_chars as int),
            _ => None,
        }) is None ==> (match direct {
            Ok(t) => r matches Ok(s) && s@ == cap_spec(t@, max_chars as int),
            Err(e) => r == Err::<String, String>(e),
        }),
{
    match archived {
        Some(Ok(t)) => {
            if !looks_blocked(t.as_str()) {
                let mut full = t.clone();
                push_str(&mut full, "\n\n(via Wayback Machine cache)");
                return Ok(cap(full.as_str(), max_chars));
            }
        },
        _ => {},
    }
    match direct {
        Ok(t) => Ok(cap(t.as_str(), max_chars)),
        Err(e) => Err(e),
    }
}

} // verus!
