//! Character-level text primitives shared by the whole library.
//!
//! Strings are reasoned about through their `Seq<char>` view; where the
//! behaviour depends on byte lengths, `utf8_len` gives the UTF-8 length.

use vstd::prelude::*;
use vstd::string::*;
use vstd::utf8::*;

verus! {

// ------------------------------------------------------------------ specs

/// UTF-8 byte length of a character sequence.
pub open spec fn utf8_len(s: Seq<char>) -> nat {
    encode_utf8(s).len()
}

/// `p` occurs in `h` starting at character position `i`.
pub open spec fn occurs_at(h: Seq<char>, p: Seq<char>, i: int) -> bool {
    0 <= i && i + p.len() <= h.len() && h.subrange(i, i + p.len()) == p
}

/// Position of the first occurrence of `p` in `h` at or after `start`.
pub open spec fn find_from(h: Seq<char>, p: Seq<char>, start: int) -> Option<int>
    decreases h.len() + 1 - start,
{
    if start < 0 || start + p.len() > h.len() {
        None
    } else if occurs_at(h, p, start) {
        Some(start)
    } else {
        find_from(h, p, start + 1)
    }
}

/// Position of the first occurrence of `p` in `h` (`str::find`).
pub open spec fn find(h: Seq<char>, p: Seq<char>) -> Option<int> {
    find_from(h, p, 0)
}

/// Position of the last occurrence of `p` in `h` that starts before `end`.
pub open spec fn rfind_before(h: Seq<char>, p: Seq<char>, end: int) -> Option<int>
    decreases end,
{
    if end <= 0 {
        None
    } else if occurs_at(h, p, end - 1) {
        Some(end - 1)
    } else {
        rfind_before(h, p, end - 1)
    }
}

/// Position of the last occurrence of `p` in `h` (`str::rfind`).
pub open spec fn rfind(h: Seq<char>, p: Seq<char>) -> Option<int> {
    rfind_before(h, p, h.len() as int + 1)
}

/// `s` begins with `p`.
pub open spec fn starts_with(s: Seq<char>, p: Seq<char>) -> bool {
    p.len() <= s.len() && s.take(p.len() as int) == p
}

/// `p` occurs somewhere in `s`.
pub open spec fn contains(s: Seq<char>, p: Seq<char>) -> bool {
    find(s, p) is Some
}

/// Unicode `White_Space` (the set `char::is_whitespace` tests).
pub open spec fn is_ws(c: char) -> bool {
    ||| c == ' '
    ||| ('\t' <= c && c <= '\r')
    ||| c == '\u{85}'
    ||| c == '\u{a0}'
    ||| c == '\u{1680}'
    ||| ('\u{2000}' <= c && c <= '\u{200a}')
    ||| c == '\u{2028}'
    ||| c == '\u{2029}'
    ||| c == '\u{202f}'
    ||| c == '\u{205f}'
    ||| c == '\u{3000}'
}

/// Whitespace-separated words of `s` joined by single spaces
/// (`s.split_whitespace().collect::<Vec<_>>().join(" ")`).
pub open spec fn collapsed(s: Seq<char>) -> Seq<char>
    decreases s.len(),
{
    if s.len() == 0 {
        s
    } else {
        let p = s.drop_last();
        let c = s.last();
        if is_ws(c) {
            collapsed(p)
        } else if p.len() > 0 && is_ws(p.last()) && collapsed(p).len() > 0 {
            collapsed(p) + seq![' ', c]
        } else {
            collapsed(p).push(c)
        }
    }
}

/// The whitespace-separated words of `s` (`str::split_whitespace`).
pub open spec fn words(s: Seq<char>) -> Seq<Seq<char>>
    decreases s.len(),
{
    if s.len() == 0 {
        seq![]
    } else {
        let p = s.drop_last();
        let c = s.last();
        if is_ws(c) {
            words(p)
        } else if p.len() > 0 && !is_ws(p.last()) && words(p).len() > 0 {
            words(p).drop_last().push(words(p).last().push(c))
        } else {
            words(p).push(seq![c])
        }
    }
}

/// Whether a `<` opened a tag that no later `>` has closed yet.
pub open spec fn in_tag(s: Seq<char>) -> bool
    decreases s.len(),
{
    if s.len() == 0 {
        false
    } else if s.last() == '<' {
        true
    } else if s.last() == '>' {
        false
    } else {
        in_tag(s.drop_last())
    }
}

/// The characters of `s` outside `<...>` tags, brackets removed.
pub open spec fn untagged(s: Seq<char>) -> Seq<char>
    decreases s.len(),
{
    if s.len() == 0 {
        s
    } else {
        let p = s.drop_last();
        let c = s.last();
        if c == '<' || c == '>' || in_tag(p) {
            untagged(p)
        } else {
            untagged(p).push(c)
        }
    }
}

/// Left-to-right replacement of the non-overlapping occurrences of `a`,
/// scanning from `pos` (`str::replace`).
pub open spec fn replace_from(s: Seq<char>, a: Seq<char>, b: Seq<char>, pos: int) -> Seq<char>
    decreases s.len() - pos,
{
    if pos < 0 || pos >= s.len() || a.len() == 0 {
        if 0 <= pos <= s.len() { s.skip(pos) } else { seq![] }
    } else if occurs_at(s, a, pos) {
        b + replace_from(s, a, b, pos + a.len())
    } else {
        seq![s[pos]] + replace_from(s, a, b, pos + 1)
    }
}

/// `s` with every occurrence of `a` replaced by `b`.
pub open spec fn replace(s: Seq<char>, a: Seq<char>, b: Seq<char>) -> Seq<char> {
    replace_from(s, a, b, 0)
}

/// ASCII lower-casing of one character.
pub open spec fn ascii_lower_char(c: char) -> char {
    if 'A' <= c && c <= 'Z' {
        ((c as u32) + 32) as char
    } else {
        c
    }
}

/// ASCII lower-casing (`str::to_ascii_lowercase`).
pub open spec fn ascii_lower(s: Seq<char>) -> Seq<char> {
    s.map_values(|c: char| ascii_lower_char(c))
}

/// Decimal digit character.
pub open spec fn digit_char(d: nat) -> char {
    (('0' as u32) + d) as char
}

/// Decimal notation of a natural number.
pub open spec fn decimal(n: nat) -> Seq<char>
    decreases n,
{
    if n < 10 {
        seq![digit_char(n)]
    } else {
        decimal(n / 10).push(digit_char(n % 10))
    }
}

/// Decimal notation of an integer, with a leading `-` when negative.
pub open spec fn signed_decimal(n: int) -> Seq<char> {
    if n < 0 {
        seq!['-'] + decimal((-n) as nat)
    } else {
        decimal(n as nat)
    }
}

/// Upper-case hexadecimal digit.
pub open spec fn hex_upper(d: nat) -> char {
    if d < 10 {
        digit_char(d)
    } else {
        (('A' as u32) + (d - 10)) as char
    }
}

/// The first `n` characters of `s`, or all of them (`chars().take(n)`).
pub open spec fn take_chars(s: Seq<char>, n: nat) -> Seq<char> {
    if s.len() <= n { s } else { s.take(n as int) }
}

/// The concatenation of a sequence of texts.
pub open spec fn concat_all(ss: Seq<Seq<char>>) -> Seq<char>
    decreases ss.len(),
{
    if ss.len() == 0 {
        seq![]
    } else {
        concat_all(ss.drop_last()) + ss.last()
    }
}

/// The texts joined with `sep` between them (`join`).
pub open spec fn join(ss: Seq<Seq<char>>, sep: Seq<char>) -> Seq<char>
    decreases ss.len(),
{
    if ss.len() == 0 {
        seq![]
    } else if ss.len() == 1 {
        ss[0]
    } else {
        join(ss.drop_last(), sep) + sep + ss.last()
    }
}

/// `s` without its leading whitespace (`str::trim_start`).
pub open spec fn trim_start(s: Seq<char>) -> Seq<char>
    decreases s.len(),
{
    if s.len() > 0 && is_ws(s[0]) {
        trim_start(s.drop_first())
    } else {
        s
    }
}

/// `s` without its trailing whitespace (`str::trim_end`).
pub open spec fn trim_end(s: Seq<char>) -> Seq<char>
    decreases s.len(),
{
    if s.len() > 0 && is_ws(s.last()) {
        trim_end(s.drop_last())
    } else {
        s
    }
}

/// `s` without leading and trailing whitespace (`str::trim`).
pub open spec fn trim(s: Seq<char>) -> Seq<char> {
    trim_end(trim_start(s))
}

// ------------------------------------------------------------------ lemmas

/// UTF-8 length distributes over concatenation.
pub proof fn lemma_utf8_len_concat(a: Seq<char>, b: Seq<char>)
    ensures
        utf8_len(a + b) == utf8_len(a) + utf8_len(b),
        encode_utf8(a + b) == encode_utf8(a) + encode_utf8(b),
    decreases a.len(),
{
    if a.len() == 0 {
        assert(a + b =~= b);
        assert(encode_utf8(a) =~= Seq::<u8>::empty());
        assert(encode_utf8(a) + encode_utf8(b) =~= encode_utf8(b));
    } else {
        lemma_utf8_len_concat(a.drop_first(), b);
        assert((a + b).drop_first() =~= a.drop_first() + b);
        assert(encode_utf8(a + b) =~= encode_scalar(a[0] as u32) + encode_utf8(a.drop_first() + b));
    }
}

/// A character's UTF-8 width.
pub open spec fn char_width(c: char) -> nat {
    if (c as u32) < 0x80 {
        1
    } else if (c as u32) < 0x800 {
        2
    } else if (c as u32) < 0x10000 {
        3
    } else {
        4
    }
}

/// UTF-8 length of a one-character sequence.
pub proof fn lemma_utf8_len_single(c: char)
    ensures
        utf8_len(seq![c]) == char_width(c),
{
    assert(seq![c].drop_first() =~= Seq::<char>::empty());
    assert(encode_utf8(seq![c]) =~= encode_scalar(c as u32) + encode_utf8(Seq::<char>::empty()));
}

/// UTF-8 length after pushing one character.
pub proof fn lemma_utf8_len_push(s: Seq<char>, c: char)
    ensures
        utf8_len(s.push(c)) == utf8_len(s) + char_width(c),
{
    lemma_utf8_len_concat(s, seq![c]);
    lemma_utf8_len_single(c);
    assert(s.push(c) =~= s + seq![c]);
}

/// Strings made only of ASCII characters have one byte per character.
pub proof fn lemma_utf8_len_ascii(s: Seq<char>)
    requires
        forall|i: int| 0 <= i < s.len() ==> (s[i] as u32) < 0x80,
    ensures
        utf8_len(s) == s.len(),
    decreases s.len(),
{
    if s.len() > 0 {
        lemma_utf8_len_ascii(s.drop_last());
        lemma_utf8_len_push(s.drop_last(), s.last());
        assert(s.drop_last().push(s.last()) =~= s);
    }
}

/// Every word is non-empty and free of whitespace.
pub proof fn lemma_words_shape(s: Seq<char>)
    ensures
        forall|i: int| 0 <= i < words(s).len() ==> (#[trigger] words(s)[i]).len() > 0,
        forall|i: int, j: int|
            0 <= i < words(s).len() && 0 <= j < words(s)[i].len() ==> !is_ws(#[trigger] words(s)[i][j]),
    decreases s.len(),
{
    if s.len() > 0 {
        let p = s.drop_last();
        let c = s.last();
        lemma_words_shape(p);
        let wp = words(p);
        if !is_ws(c) {
            if p.len() > 0 && !is_ws(p.last()) && wp.len() > 0 {
                let w2 = wp.drop_last().push(wp.last().push(c));
                assert(words(s) == w2);
                assert forall|i: int, j: int| 0 <= i < w2.len() && 0 <= j < w2[i].len() implies !is_ws(
                    #[trigger] w2[i][j],
                ) by {
                    if i == w2.len() - 1 {
                        if j < wp.last().len() {
                            assert(w2[i][j] == wp[wp.len() - 1][j]);
                        }
                    } else {
                        assert(w2[i] == wp[i]);
                    }
                }
                assert forall|i: int| 0 <= i < w2.len() implies (#[trigger] w2[i]).len() > 0 by {
                    if i < w2.len() - 1 {
                        assert(w2[i] == wp[i]);
                    }
                }
            } else {
                let w2 = wp.push(seq![c]);
                assert(words(s) == w2);
                assert forall|i: int, j: int| 0 <= i < w2.len() && 0 <= j < w2[i].len() implies !is_ws(
                    #[trigger] w2[i][j],
                ) by {
                    if i < w2.len() - 1 {
                        assert(w2[i] == wp[i]);
                    }
                }
                assert forall|i: int| 0 <= i < w2.len() implies (#[trigger] w2[i]).len() > 0 by {
                    if i < w2.len() - 1 {
                        assert(w2[i] == wp[i]);
                    }
                }
            }
        }
    }
}

proof fn lemma_trim_start_keeps(s: Seq<char>, k: int)
    requires
        0 <= k < s.len(),
        !is_ws(s[k]),
    ensures
        exists|j: int| 0 <= j < trim_start(s).len() && !is_ws(#[trigger] trim_start(s)[j]),
    decreases s.len(),
{
    if s.len() > 0 && is_ws(s[0]) {
        assert(k > 0);
        assert(s.drop_first()[k - 1] == s[k]);
        lemma_trim_start_keeps(s.drop_first(), k - 1);
        assert(trim_start(s) == trim_start(s.drop_first()));
    } else {
        assert(trim_start(s) == s);
        assert(0 <= k < trim_start(s).len() && !is_ws(trim_start(s)[k]));
    }
}

proof fn lemma_trim_end_keeps(s: Seq<char>, k: int)
    requires
        0 <= k < s.len(),
        !is_ws(s[k]),
    ensures
        exists|j: int| 0 <= j < trim_end(s).len() && !is_ws(#[trigger] trim_end(s)[j]),
    decreases s.len(),
{
    if s.len() > 0 && is_ws(s.last()) {
        assert(k < s.len() - 1);
        assert(s.drop_last()[k] == s[k]);
        lemma_trim_end_keeps(s.drop_last(), k);
        assert(trim_end(s) == trim_end(s.drop_last()));
    } else {
        assert(trim_end(s) == s);
        assert(0 <= k < trim_end(s).len() && !is_ws(trim_end(s)[k]));
    }
}

/// A text with a non-whitespace character does not trim to nothing.
pub proof fn lemma_trim_nonempty(s: Seq<char>, k: int)
    requires
        0 <= k < s.len(),
        !is_ws(s[k]),
    ensures
        trim(s).len() > 0,
{
    lemma_trim_start_keeps(s, k);
    let t = trim_start(s);
    let j = choose|j: int| 0 <= j < t.len() && !is_ws(#[trigger] t[j]);
    lemma_trim_end_keeps(t, j);
}

proof fn lemma_join_push(ws: Seq<Seq<char>>, w: Seq<char>, sep: Seq<char>)
    requires
        ws.len() > 0,
    ensures
        join(ws.push(w), sep) == join(ws, sep) + sep + w,
{
    assert(ws.push(w).drop_last() =~= ws);
}

proof fn lemma_join_extend_last(ws: Seq<Seq<char>>, c: char, sep: Seq<char>)
    requires
        ws.len() > 0,
    ensures
        join(ws.drop_last().push(ws.last().push(c)), sep) == join(ws, sep).push(c),
{
    let v = ws.drop_last().push(ws.last().push(c));
    if ws.len() == 1 {
        assert(v[0] == ws[0].push(c));
    } else {
        assert(v.drop_last() =~= ws.drop_last());
        assert(join(v, sep) =~= join(ws, sep).push(c));
    }
}

proof fn lemma_join_nonempty(ws: Seq<Seq<char>>, sep: Seq<char>)
    requires
        ws.len() > 0,
        ws.last().len() > 0,
    ensures
        join(ws, sep).len() > 0,
{
}

/// Collapsing whitespace is joining the words with single spaces:
/// `split_whitespace` followed by `join(" ")`.
pub proof fn law_collapse_joins_words(s: Seq<char>)
    ensures
        collapsed(s) == join(words(s), " "@),
    decreases s.len(),
{
    reveal_strlit(" ");
    if s.len() == 0 {
        assert(words(s) =~= Seq::<Seq<char>>::empty());
    } else {
        let p = s.drop_last();
        let c = s.last();
        law_collapse_joins_words(p);
        lemma_words_shape(p);
        let wp = words(p);
        if wp.len() > 0 {
            assert(wp[wp.len() - 1].len() > 0);
            lemma_join_nonempty(wp, " "@);
        }
        if !is_ws(c) {
            if p.len() > 0 && !is_ws(p.last()) {
                assert(wp.len() > 0) by {
                    let q = p.drop_last();
                    assert(q.push(p.last()) =~= p);
                }
                lemma_join_extend_last(wp, c, " "@);
            } else if wp.len() > 0 {
                lemma_join_push(wp, seq![c], " "@);
                assert(join(wp, " "@) + " "@ + seq![c] =~= join(wp, " "@) + seq![' ', c]);
            } else {
                assert(wp.push(seq![c]) =~= seq![seq![c]]);
                assert(join(wp.push(seq![c]), " "@) == seq![c]);
                assert(collapsed(p) =~= Seq::<char>::empty());
                assert(collapsed(p).push(c) =~= seq![c]);
            }
        }
    }
}

/// A non-empty collapsed text ends with a non-whitespace character.
pub proof fn lemma_collapsed_last(s: Seq<char>)
    ensures
        collapsed(s).len() > 0 ==> !is_ws(collapsed(s).last()),
    decreases s.len(),
{
    if s.len() > 0 {
        lemma_collapsed_last(s.drop_last());
    }
}

/// Collapsing is idempotent.
pub proof fn lemma_collapsed_idempotent(s: Seq<char>)
    ensures
        collapsed(collapsed(s)) == collapsed(s),
    decreases s.len(),
{
    if s.len() > 0 {
        let p = s.drop_last();
        let c = s.last();
        lemma_collapsed_idempotent(p);
        lemma_collapsed_last(p);
        let t = collapsed(p);
        if !is_ws(c) {
            if p.len() > 0 && is_ws(p.last()) && t.len() > 0 {
                let u = t + seq![' ', c];
                assert(u.drop_last() =~= t.push(' '));
                assert(t.push(' ').drop_last() =~= t);
                assert(collapsed(t.push(' ')) == collapsed(t));
                assert(collapsed(u) =~= collapsed(t) + seq![' ', c]);
            } else {
                let u = t.push(c);
                assert(u.drop_last() =~= t);
                assert(collapsed(u) =~= collapsed(t).push(c));
            }
        }
    }
}

/// Collapsing adds no character other than the space.
pub proof fn lemma_collapsed_absent(s: Seq<char>, c: char)
    requires
        c != ' ',
        !s.contains(c),
    ensures
        !collapsed(s).contains(c),
    decreases s.len(),
{
    if s.len() > 0 {
        let p = s.drop_last();
        assert(!p.contains(c)) by {
            if p.contains(c) {
                let k = choose|k: int| 0 <= k < p.len() && p[k] == c;
                assert(s[k] == c);
            }
        }
        lemma_collapsed_absent(p, c);
        assert(s[s.len() - 1] != c);
        let t = collapsed(s);
        if t.contains(c) {
            let k = choose|k: int| 0 <= k < t.len() && t[k] == c;
            let q = collapsed(p);
            if k < q.len() {
                assert(q[k] == c);
            }
        }
    }
}

/// Collapsing never makes a text longer in UTF-8 bytes.
pub proof fn lemma_collapsed_shorter(s: Seq<char>)
    ensures
        utf8_len(collapsed(s)) <= utf8_len(s),
    decreases s.len(),
{
    if s.len() > 0 {
        let p = s.drop_last();
        let c = s.last();
        assert(p.push(c) =~= s);
        lemma_utf8_len_push(p, c);
        lemma_collapsed_shorter(p);
        if !is_ws(c) {
            if p.len() > 0 && is_ws(p.last()) && collapsed(p).len() > 0 {
                let q = p.drop_last();
                assert(q.push(p.last()) =~= p);
                lemma_utf8_len_push(q, p.last());
                lemma_collapsed_shorter(q);
                assert(collapsed(p) == collapsed(q));
                assert(collapsed(p) + seq![' ', c] =~= collapsed(p).push(' ').push(c));
                lemma_utf8_len_push(collapsed(p), ' ');
                lemma_utf8_len_push(collapsed(p).push(' '), c);
            } else {
                lemma_utf8_len_push(collapsed(p), c);
            }
        }
    }
}

/// Without a `<`, no tag is open.
pub proof fn lemma_in_tag_absent(s: Seq<char>)
    requires
        !s.contains('<'),
    ensures
        !in_tag(s),
    decreases s.len(),
{
    if s.len() > 0 {
        let p = s.drop_last();
        assert(!p.contains('<')) by {
            if p.contains('<') {
                let k = choose|k: int| 0 <= k < p.len() && p[k] == '<';
                assert(s[k] == '<');
            }
        }
        assert(s[s.len() - 1] != '<');
        lemma_in_tag_absent(p);
    }
}

/// A text without `<` and `>` has no tag to strip.
pub proof fn lemma_untagged_plain(s: Seq<char>)
    requires
        !s.contains('<'),
        !s.contains('>'),
    ensures
        untagged(s) == s,
    decreases s.len(),
{
    if s.len() > 0 {
        let p = s.drop_last();
        assert(!p.contains('<') && !p.contains('>')) by {
            if p.contains('<') {
                let k = choose|k: int| 0 <= k < p.len() && p[k] == '<';
                assert(s[k] == '<');
            }
            if p.contains('>') {
                let k = choose|k: int| 0 <= k < p.len() && p[k] == '>';
                assert(s[k] == '>');
            }
        }
        assert(s[s.len() - 1] != '<' && s[s.len() - 1] != '>');
        lemma_untagged_plain(p);
        lemma_in_tag_absent(p);
        assert(p.push(s.last()) =~= s);
    }
}

/// Stripping tags leaves no bracket, adds no character, and makes the text
/// no longer in UTF-8 bytes.
pub proof fn lemma_untagged_facts(s: Seq<char>, c: char)
    ensures
        !untagged(s).contains('<'),
        !untagged(s).contains('>'),
        !s.contains(c) ==> !untagged(s).contains(c),
        utf8_len(untagged(s)) <= utf8_len(s),
    decreases s.len(),
{
    if s.len() > 0 {
        let p = s.drop_last();
        let x = s.last();
        assert(p.push(x) =~= s);
        lemma_untagged_facts(p, c);
        lemma_utf8_len_push(p, x);
        let u = untagged(p);
        if !(x == '<' || x == '>' || in_tag(p)) {
            lemma_utf8_len_push(u, x);
            let v = u.push(x);
            assert forall|d: char| v.contains(d) implies u.contains(d) || d == x by {
                let k = choose|k: int| 0 <= k < v.len() && v[k] == d;
                if k < u.len() {
                    assert(u[k] == d);
                }
            }
            if !s.contains(c) {
                assert(s[s.len() - 1] != c);
                assert(!p.contains(c)) by {
                    if p.contains(c) {
                        let k = choose|k: int| 0 <= k < p.len() && p[k] == c;
                        assert(s[k] == c);
                    }
                }
            }
        } else {
            if !s.contains(c) {
                assert(!p.contains(c)) by {
                    if p.contains(c) {
                        let k = choose|k: int| 0 <= k < p.len() && p[k] == c;
                        assert(s[k] == c);
                    }
                }
            }
        }
    }
}

/// Replacing a pattern whose first character does not occur changes nothing.
pub proof fn lemma_replace_from_absent(s: Seq<char>, a: Seq<char>, b: Seq<char>, pos: int)
    requires
        a.len() > 0,
        !s.contains(a[0]),
        0 <= pos <= s.len(),
    ensures
        replace_from(s, a, b, pos) == s.skip(pos),
    decreases s.len() - pos,
{
    if pos < s.len() {
        assert(!occurs_at(s, a, pos)) by {
            if occurs_at(s, a, pos) {
                assert(s.subrange(pos, pos + a.len())[0] == s[pos]);
            }
        }
        lemma_replace_from_absent(s, a, b, pos + 1);
        assert(seq![s[pos]] + s.skip(pos + 1) =~= s.skip(pos));
    }
}

/// Replacing `a` by a replacement no longer than it in UTF-8 bytes never
/// makes the text longer.
pub proof fn lemma_replace_from_shorter(s: Seq<char>, a: Seq<char>, b: Seq<char>, pos: int)
    requires
        utf8_len(b) <= utf8_len(a),
        0 <= pos <= s.len(),
    ensures
        utf8_len(replace_from(s, a, b, pos)) <= utf8_len(s.skip(pos)),
    decreases s.len() - pos,
{
    if pos < s.len() && a.len() > 0 {
        if occurs_at(s, a, pos) {
            lemma_replace_from_shorter(s, a, b, pos + a.len());
            assert(s.skip(pos) =~= s.subrange(pos, pos + a.len()) + s.skip(pos + a.len()));
            lemma_utf8_len_concat(s.subrange(pos, pos + a.len()), s.skip(pos + a.len()));
            lemma_utf8_len_concat(b, replace_from(s, a, b, pos + a.len()));
        } else {
            lemma_replace_from_shorter(s, a, b, pos + 1);
            assert(s.skip(pos) =~= seq![s[pos]] + s.skip(pos + 1));
            lemma_utf8_len_concat(seq![s[pos]], s.skip(pos + 1));
            lemma_utf8_len_concat(seq![s[pos]], replace_from(s, a, b, pos + 1));
        }
    }
}

/// Searching from `pos` is searching the suffix that starts there.
pub proof fn lemma_find_from_skip(h: Seq<char>, p: Seq<char>, pos: int, start: int)
    requires
        0 <= pos <= start,
        pos <= h.len(),
    ensures
        find_from(h, p, start) == (match find_from(h.skip(pos), p, start - pos) {
            Some(i) => Some(i + pos),
            None => None,
        }),
    decreases h.len() + 1 - start,
{
    let t = h.skip(pos);
    if start + p.len() > h.len() {
    } else {
        assert(occurs_at(h, p, start) == occurs_at(t, p, start - pos)) by {
            if start + p.len() <= h.len() {
                assert(h.subrange(start, start + p.len()) =~= t.subrange(start - pos, start - pos + p.len()));
            }
        }
        if !occurs_at(h, p, start) {
            lemma_find_from_skip(h, p, pos, start + 1);
        }
    }
}

/// An occurrence found in a prefix is the first occurrence in any extension.
pub proof fn lemma_find_from_extend(x: Seq<char>, y: Seq<char>, p: Seq<char>, start: int)
    requires
        0 <= start,
        find_from(x, p, start) is Some,
    ensures
        find_from(x + y, p, start) == find_from(x, p, start),
    decreases x.len() + 1 - start,
{
    if start + p.len() > x.len() {
    } else {
        assert(occurs_at(x, p, start) == occurs_at(x + y, p, start)) by {
            assert((x + y).subrange(start, start + p.len()) =~= x.subrange(start, start + p.len()));
        }
        if !occurs_at(x, p, start) {
            lemma_find_from_extend(x, y, p, start + 1);
        }
    }
}

pub proof fn lemma_find_from_some(h: Seq<char>, p: Seq<char>, start: int)
    requires
        0 <= start,
    ensures
        find_from(h, p, start) matches Some(i) ==> start <= i && occurs_at(h, p, i)
            && forall|j: int| start <= j < i ==> !occurs_at(h, p, j),
        find_from(h, p, start) is None ==> forall|j: int| start <= j ==> !occurs_at(h, p, j),
    decreases h.len() + 1 - start,
{
    if start + p.len() > h.len() {
    } else if occurs_at(h, p, start) {
    } else {
        lemma_find_from_some(h, p, start + 1);
    }
}

// ------------------------------------------------------------------ exec

/// Byte length of a string slice (`str::len`).
pub fn byte_len(s: &str) -> (r: usize)
    ensures
        r == utf8_len(s@),
{
    let b = s.as_bytes();
    b.len()
}

/// Appends one character to a string through `String::push`; the contract
/// claims that the string's characters grow by exactly that one.
#[verifier::external_body]
pub(crate) fn push_char(s: &mut String, c: char)
    ensures
        final(s)@ == old(s)@.push(c),
{
    s.push(c);
}

/// Appends a string slice to a string.
pub fn push_str(s: &mut String, t: &str)
    ensures
        final(s)@ == old(s)@ + t@,
{
    s.append(t);
}

/// The characters of a string slice, in order.
pub fn chars_of(s: &str) -> (r: Vec<char>)
    ensures
        r@ == s@,
{
    let mut r: Vec<char> = Vec::new();
    for c in it: s.chars()
        invariant
            r@ == it.seq().take(it.index() as int),
            it.seq() == s@,
    {
        r.push(c);
    }
    r
}

/// Appends `cs[lo..hi]` to `out`.
pub fn push_range(out: &mut String, cs: &Vec<char>, lo: usize, hi: usize)
    requires
        lo <= hi <= cs@.len(),
    ensures
        final(out)@ == old(out)@ + cs@.subrange(lo as int, hi as int),
{
    let mut i = lo;
    while i < hi
        invariant
            lo <= i <= hi <= cs@.len(),
            out@ == old(out)@ + cs@.subrange(lo as int, i as int),
        decreases hi - i,
    {
        push_char(out, cs[i]);
        assert(cs@.subrange(lo as int, i + 1) =~= cs@.subrange(lo as int, i as int).push(cs@[i as int]));
        i += 1;
    }
}

/// The string made of `cs[lo..hi]`.
pub fn string_of(cs: &Vec<char>, lo: usize, hi: usize) -> (r: String)
    requires
        lo <= hi <= cs@.len(),
    ensures
        r@ == cs@.subrange(lo as int, hi as int),
{
    let mut r = String::new();
    push_range(&mut r, cs, lo, hi);
    assert(r@ =~= cs@.subrange(lo as int, hi as int));
    r
}

/// Whether `p` occurs in `h` at position `i`.
pub fn occurs_at_exec(h: &Vec<char>, p: &Vec<char>, i: usize) -> (r: bool)
    ensures
        r == occurs_at(h@, p@, i as int),
{
    if i > h.len() || p.len() > h.len() - i {
        return false;
    }
    let hl = h.len();
    let mut k: usize = 0;
    while k < p.len()
        invariant
            hl == h@.len(),
            i + p@.len() <= h@.len(),
            k <= p@.len(),
            forall|j: int| 0 <= j < k ==> h@[i + j] == p@[j],
        decreases p@.len() - k,
    {
        assert(i + k < hl);
        if h[i + k] != p[k] {
            assert(h@.subrange(i as int, i + p@.len())[k as int] != p@[k as int]);
            return false;
        }
        k += 1;
    }
    assert(h@.subrange(i as int, i + p@.len()) =~= p@);
    true
}

/// First occurrence of `p` in `h` at or after `start`.
pub fn find_from_exec(h: &Vec<char>, p: &Vec<char>, start: usize) -> (r: Option<usize>)
    ensures
        r matches Some(i) ==> find_from(h@, p@, start as int) == Some(i as int),
        r is None ==> find_from(h@, p@, start as int) is None,
{
    let mut i = start;
    while i <= h.len() && p.len() <= h.len() - i
        invariant
            start <= i,
            find_from(h@, p@, start as int) == find_from(h@, p@, i as int),
        decreases h@.len() + 1 - i,
    {
        if occurs_at_exec(h, p, i) {
            return Some(i);
        }
        if i == h.len() {
            assert(find_from(h@, p@, i as int + 1) is None);
            return None;
        }
        i += 1;
    }
    None
}

/// Last occurrence of `p` in `h`.
pub fn rfind_exec(h: &Vec<char>, p: &Vec<char>) -> (r: Option<usize>)
    ensures
        r matches Some(i) ==> rfind(h@, p@) == Some(i as int),
        r is None ==> rfind(h@, p@) is None,
{
    if occurs_at_exec(h, p, h.len()) {
        return Some(h.len());
    }
    let mut end = h.len();
    while end > 0
        invariant
            end <= h@.len(),
            rfind(h@, p@) == rfind_before(h@, p@, end as int),
        decreases end,
    {
        if occurs_at_exec(h, p, end - 1) {
            return Some(end - 1);
        }
        end -= 1;
    }
    None
}

/// `char::is_whitespace`.
pub fn is_ws_exec(c: char) -> (r: bool)
    ensures
        r == is_ws(c),
{
    c == ' ' || ('\t' <= c && c <= '\r') || c == '\u{85}' || c == '\u{a0}' || c == '\u{1680}'
        || ('\u{2000}' <= c && c <= '\u{200a}') || c == '\u{2028}' || c == '\u{2029}'
        || c == '\u{202f}' || c == '\u{205f}' || c == '\u{3000}'
}

/// Collapses runs of whitespace: the words of `s` joined by single spaces.
pub fn collapse_chars(cs: &Vec<char>) -> (r: String)
    ensures
        r@ == collapsed(cs@),
{
    let mut out = String::new();
    let mut i: usize = 0;
    while i < cs.len()
        invariant
            i <= cs@.len(),
            out@ == collapsed(cs@.take(i as int)),
        decreases cs@.len() - i,
    {
        let c = cs[i];
        proof {
            assert(cs@.take(i + 1).drop_last() =~= cs@.take(i as int));
            assert(cs@.take(i + 1).last() == c);
        }
        let nonempty = byte_len(out.as_str()) > 0;
        proof {
            if out@.len() > 0 {
                lemma_utf8_len_push(out@.drop_last(), out@.last());
                assert(out@.drop_last().push(out@.last()) =~= out@);
            } else {
                assert(encode_utf8(out@) =~= Seq::<u8>::empty());
            }
            assert(nonempty == (out@.len() > 0));
        }
        if is_ws_exec(c) {
            assert(out@ == collapsed(cs@.take(i + 1)));
        } else if i > 0 && is_ws_exec(cs[i - 1]) && nonempty {
            proof {
                assert(cs@.take(i as int).last() == cs@[i - 1]);
                if out@.len() == 0 {
                    assert(encode_utf8(out@) =~= Seq::<u8>::empty());
                }
            }
            push_char(&mut out, ' ');
            push_char(&mut out, c);
            assert(out@ =~= collapsed(cs@.take(i as int)) + seq![' ', c]);
            assert(out@ == collapsed(cs@.take(i + 1)));
        } else {
            proof {
                if i > 0 {
                    assert(cs@.take(i as int).last() == cs@[i - 1]);
                }
                if out@.len() > 0 {
                    lemma_utf8_len_push(out@.drop_last(), out@.last());
                    assert(out@.drop_last().push(out@.last()) =~= out@);
                }
            }
            push_char(&mut out, c);
            proof {
                let p = cs@.take(i as int);
                if p.len() > 0 && is_ws(p.last()) && collapsed(p).len() > 0 {
                    assert(utf8_len(out@.drop_last()) > 0);
                }
                assert(out@ == collapsed(p).push(c));
                assert(out@ == collapsed(cs@.take(i + 1)));
            }
        }
        i += 1;
    }
    assert(cs@.take(cs@.len() as int) =~= cs@);
    out
}

/// Collapses whitespace in a string slice.
pub fn collapse_str(s: &str) -> (r: String)
    ensures
        r@ == collapsed(s@),
{
    let cs = chars_of(s);
    collapse_chars(&cs)
}

/// Drops `<...>` tags from `s`.
pub fn strip_tags_str(s: &str) -> (r: String)
    ensures
        r@ == untagged(s@),
{
    let cs = chars_of(s);
    let mut out = String::new();
    let mut inside = false;
    let mut i: usize = 0;
    while i < cs.len()
        invariant
            i <= cs@.len(),
            cs@ == s@,
            out@ == untagged(cs@.take(i as int)),
            inside == in_tag(cs@.take(i as int)),
        decreases cs@.len() - i,
    {
        let c = cs[i];
        proof {
            assert(cs@.take(i + 1).drop_last() =~= cs@.take(i as int));
            assert(cs@.take(i + 1).last() == c);
        }
        if c == '<' {
            inside = true;
        } else if c == '>' {
            inside = false;
        } else if !inside {
            push_char(&mut out, c);
        }
        i += 1;
    }
    assert(cs@.take(cs@.len() as int) =~= cs@);
    out
}

/// Replaces every occurrence of `a` in `s` by `b`, left to right.
pub fn replace_chars(s: &Vec<char>, a: &Vec<char>, b: &str) -> (r: Vec<char>)
    ensures
        r@ == replace(s@, a@, b@),
{
    let bc = chars_of(b);
    let mut out: Vec<char> = Vec::new();
    let mut pos: usize = 0;
    if a.len() == 0 {
        assert(s@.skip(0) =~= s@);
        return s.clone();
    }
    while pos < s.len()
        invariant
            a@.len() > 0,
            bc@ == b@,
            pos <= s@.len(),
            out@ + replace_from(s@, a@, b@, pos as int) == replace(s@, a@, b@),
        decreases s@.len() - pos,
    {
        if occurs_at_exec(s, a, pos) {
            let ghost before = out@;
            let mut k: usize = 0;
            while k < bc.len()
                invariant
                    k <= bc@.len(),
                    out@ == before + bc@.take(k as int),
                decreases bc@.len() - k,
            {
                out.push(bc[k]);
                assert(bc@.take(k + 1) =~= bc@.take(k as int).push(bc@[k as int]));
                k += 1;
            }
            assert(bc@.take(bc@.len() as int) =~= bc@);
            assert(before + replace_from(s@, a@, b@, pos as int) =~= out@ + replace_from(
                s@,
                a@,
                b@,
                pos + a@.len(),
            ));
            pos += a.len();
        } else {
            let ghost before = out@;
            out.push(s[pos]);
            assert(before + replace_from(s@, a@, b@, pos as int) =~= out@ + replace_from(
                s@,
                a@,
                b@,
                pos + 1,
            ));
            pos += 1;
        }
    }
    assert(out@ + replace_from(s@, a@, b@, pos as int) =~= out@);
    out
}

/// ASCII lower-casing of a character sequence.
pub fn ascii_lower_chars(cs: &Vec<char>) -> (r: Vec<char>)
    ensures
        r@ == ascii_lower(cs@),
{
    let mut out: Vec<char> = Vec::new();
    let mut i: usize = 0;
    while i < cs.len()
        invariant
            i <= cs@.len(),
            out@ =~= ascii_lower(cs@.take(i as int)),
        decreases cs@.len() - i,
    {
        let c = cs[i];
        let l = if 'A' <= c && c <= 'Z' {
            let u = (c as u32) + 32;
            char_from_u32(u)
        } else {
            c
        };
        out.push(l);
        assert(ascii_lower(cs@.take(i + 1)) =~= ascii_lower(cs@.take(i as int)).push(l));
        i += 1;
    }
    assert(cs@.take(cs@.len() as int) =~= cs@);
    out
}

/// The character with an ASCII letter code (`char::from_u32` on `A..=z`).
fn char_from_u32(u: u32) -> (c: char)
    requires
        ('a' as u32) <= u <= ('z' as u32),
    ensures
        c == u as char,
{
    let r = if u == 97 { 'a' } else if u == 98 { 'b' } else if u == 99 { 'c' } else if u == 100 {
        'd'
    } else if u == 101 { 'e' } else if u == 102 { 'f' } else if u == 103 { 'g' } else if u == 104 {
        'h'
    } else if u == 105 { 'i' } else if u == 106 { 'j' } else if u == 107 { 'k' } else if u == 108 {
        'l'
    } else if u == 109 { 'm' } else if u == 110 { 'n' } else if u == 111 { 'o' } else if u == 112 {
        'p'
    } else if u == 113 { 'q' } else if u == 114 { 'r' } else if u == 115 { 's' } else if u == 116 {
        't'
    } else if u == 117 { 'u' } else if u == 118 { 'v' } else if u == 119 { 'w' } else if u == 120 {
        'x'
    } else if u == 121 { 'y' } else { 'z' };
    r
}

/// Decimal digits of `n`.
pub fn decimal_string(n: u64) -> (r: String)
    ensures
        r@ == decimal(n as nat),
    decreases n,
{
    if n < 10 {
        let mut r = String::new();
        push_char(&mut r, digit(n));
        r
    } else {
        let mut r = decimal_string(n / 10);
        push_char(&mut r, digit(n % 10));
        r
    }
}

/// The decimal digit character of `d < 10`.
pub fn digit(d: u64) -> (c: char)
    requires
        d < 10,
    ensures
        c == digit_char(d as nat),
{
    if d == 0 { '0' } else if d == 1 { '1' } else if d == 2 { '2' } else if d == 3 { '3' } else if d
        == 4 { '4' } else if d == 5 { '5' } else if d == 6 { '6' } else if d == 7 { '7' } else if d
        == 8 { '8' } else { '9' }
}

/// Signed decimal notation.
pub fn signed_decimal_string(n: i64) -> (r: String)
    ensures
        r@ == signed_decimal(n as int),
{
    if n < 0 {
        let m: u64 = if n == i64::MIN { 9223372036854775808u64 } else { (-n) as u64 };
        let mut r = String::new();
        push_char(&mut r, '-');
        let d = decimal_string(m);
        push_str(&mut r, d.as_str());
        r
    } else {
        decimal_string(n as u64)
    }
}

/// Upper-case hexadecimal digit of `d < 16`.
pub fn hex_digit(d: u8) -> (c: char)
    requires
        d < 16,
    ensures
        c == hex_upper(d as nat),
{
    if d < 10 {
        digit(d as u64)
    } else if d == 10 { 'A' } else if d == 11 { 'B' } else if d == 12 { 'C' } else if d == 13 {
        'D'
    } else if d == 14 { 'E' } else { 'F' }
}

/// Whether `s` starts with `p`.
pub fn starts_with_exec(s: &Vec<char>, p: &Vec<char>) -> (r: bool)
    ensures
        r == starts_with(s@, p@),
{
    let r = occurs_at_exec(s, p, 0);
    proof {
        if r {
            assert(s@.take(p@.len() as int) =~= s@.subrange(0, p@.len() as int));
        } else if p@.len() <= s@.len() {
            assert(s@.take(p@.len() as int) =~= s@.subrange(0, p@.len() as int));
        }
    }
    r
}

/// The first `n` characters of `s` (`s.chars().take(n).collect()`).
pub fn take_chars_str(s: &str, n: usize) -> (r: String)
    ensures
        r@ == take_chars(s@, n as nat),
{
    let cs = chars_of(s);
    let hi = if cs.len() <= n { cs.len() } else { n };
    let r = string_of(&cs, 0, hi);
    assert(cs@.subrange(0, cs@.len() as int) =~= cs@);
    r
}

/// The characters whose UTF-8 encoding is the first `n` bytes of `s`'s.
pub open spec fn byte_take(s: Seq<char>, n: int) -> Seq<char> {
    decode_utf8(encode_utf8(s).take(n))
}

/// Byte offset `n` falls between two characters of `s` (or at an end).
pub open spec fn is_boundary(s: Seq<char>, n: int) -> bool {
    is_char_boundary(encode_utf8(s), n)
}

/// `s` cut to its first `n` bytes followed by `suffix`, when `s` is longer
/// than `n` bytes; `s` itself otherwise.
pub open spec fn cut_bytes(s: Seq<char>, n: int, suffix: Seq<char>) -> Seq<char> {
    if utf8_len(s) > n {
        byte_take(s, n) + suffix
    } else {
        s
    }
}

/// Cutting a text at a character boundary keeps its beginning: the first
/// `n` bytes decode to a prefix of the text, of exactly `n` bytes.
pub proof fn law_cut_keeps_prefix(s: Seq<char>, n: int)
    requires
        0 <= n <= utf8_len(s),
        is_boundary(s, n),
    ensures
        byte_take(s, n) == s.take(byte_take(s, n).len() as int),
        utf8_len(byte_take(s, n)) == n,
{
    broadcast use vstd::utf8::encode_utf8_valid_utf8;
    broadcast use vstd::utf8::encode_utf8_decode_utf8;
    broadcast use vstd::utf8::decode_utf8_encode_utf8;
    broadcast use vstd::utf8::valid_utf8_split;

    let bytes = encode_utf8(s);
    vstd::utf8::decode_utf8_split(bytes, n);
    let head = decode_utf8(bytes.subrange(0, n));
    let tail = decode_utf8(bytes.subrange(n, bytes.len() as int));
    assert(bytes.take(n) =~= bytes.subrange(0, n));
    assert(s == head + tail);
    assert(head =~= s.take(head.len() as int));
    assert(encode_utf8(head) == bytes.subrange(0, n));
}

/// The first `n` bytes of `s` (`&s[..n]`).
pub fn byte_prefix(s: &str, n: usize) -> (r: &str)
    requires
        n <= utf8_len(s@),
        is_boundary(s@, n as int),
    ensures
        r@ == byte_take(s@, n as int),
        utf8_len(r@) == n,
{
    let (a, _b) = s.split_at(n);
    proof {
        broadcast use vstd::utf8::encode_utf8_decode_utf8;
        assert(encode_utf8(a@) =~= encode_utf8(s@).take(n as int));
    }
    a
}

/// `s` cut to `n` bytes and marked with `suffix` when it is longer than that.
pub fn cut_bytes_str(s: &str, n: usize, suffix: &str) -> (r: String)
    requires
        utf8_len(s@) > n ==> is_boundary(s@, n as int),
    ensures
        r@ == cut_bytes(s@, n as int, suffix@),
{
    if byte_len(s) > n {
        let mut r = byte_prefix(s, n).to_owned();
        push_str(&mut r, suffix);
        r
    } else {
        s.to_owned()
    }
}

/// `cs[lo..hi]` without leading and trailing whitespace.
pub fn trim_range(cs: &Vec<char>, lo: usize, hi: usize) -> (r: (usize, usize))
    requires
        lo <= hi <= cs@.len(),
    ensures
        r.0 <= r.1 <= cs@.len(),
        cs@.subrange(r.0 as int, r.1 as int) == trim(cs@.subrange(lo as int, hi as int)),
{
    let mut a = lo;
    while a < hi && is_ws_exec(cs[a])
        invariant
            lo <= a <= hi <= cs@.len(),
            trim_start(cs@.subrange(lo as int, hi as int)) == trim_start(cs@.subrange(a as int, hi as int)),
        decreases hi - a,
    {
        assert(cs@.subrange(a as int, hi as int).drop_first() =~= cs@.subrange(a + 1, hi as int));
        a += 1;
    }
    let mut b = hi;
    while b > a && is_ws_exec(cs[b - 1])
        invariant
            lo <= a <= b <= hi <= cs@.len(),
            trim_start(cs@.subrange(a as int, hi as int)) == cs@.subrange(a as int, hi as int),
            trim_end(cs@.subrange(a as int, hi as int)) == trim_end(cs@.subrange(a as int, b as int)),
        decreases b - a,
    {
        assert(cs@.subrange(a as int, b as int).drop_last() =~= cs@.subrange(a as int, b - 1));
        b -= 1;
    }
    (a, b)
}

/// `s` without leading and trailing whitespace.
pub fn trim_str(s: &str) -> (r: String)
    ensures
        r@ == trim(s@),
{
    let cs = chars_of(s);
    let (a, b) = trim_range(&cs, 0, cs.len());
    assert(cs@.subrange(0, cs@.len() as int) =~= cs@);
    string_of(&cs, a, b)
}

/// Character-wise equality of two string slices.
pub fn str_eq(a: &str, b: &str) -> (r: bool)
    ensures
        r == (a@ == b@),
{
    let ac = chars_of(a);
    let bc = chars_of(b);
    if ac.len() != bc.len() {
        assert(ac@.len() != bc@.len());
        return false;
    }
    let mut i: usize = 0;
    while i < ac.len()
        invariant
            ac@ == a@,
            bc@ == b@,
            ac@.len() == bc@.len(),
            i <= ac@.len(),
            forall|j: int| 0 <= j < i ==> ac@[j] == bc@[j],
        decreases ac@.len() - i,
    {
        if ac[i] != bc[i] {
            assert(ac@[i as int] != bc@[i as int]);
            return false;
        }
        i += 1;
    }
    assert(ac@ =~= bc@);
    true
}

/// The whitespace-separated words of a character sequence.
pub fn words_of(cs: &Vec<char>) -> (r: Vec<Vec<char>>)
    ensures
        r@.map_values(|w: Vec<char>| w@) == words(cs@),
{
    let mut out: Vec<Vec<char>> = Vec::new();
    let mut cur: Vec<char> = Vec::new();
    let mut i: usize = 0;
    while i < cs.len()
        invariant
            i <= cs@.len(),
            (if cur@.len() > 0 {
                out@.map_values(|w: Vec<char>| w@).push(cur@)
            } else {
                out@.map_values(|w: Vec<char>| w@)
            }) == words(cs@.take(i as int)),
            cur@.len() > 0 ==> (i > 0 && !is_ws(cs@[i - 1])),
            (i > 0 && !is_ws(cs@[i - 1])) ==> cur@.len() > 0,
        decreases cs@.len() - i,
    {
        let c = cs[i];
        let ghost o = out@.map_values(|w: Vec<char>| w@);
        proof {
            assert(cs@.take(i + 1).drop_last() =~= cs@.take(i as int));
            assert(cs@.take(i + 1).last() == c);
            if i > 0 {
                assert(cs@.take(i as int).last() == cs@[i - 1]);
            }
        }
        if is_ws_exec(c) {
            if cur.len() > 0 {
                let w = cur;
                out.push(w);
                cur = Vec::new();
                assert(out@.map_values(|w: Vec<char>| w@) =~= o.push(w@));
            }
        } else {
            let ghost oldcur = cur@;
            cur.push(c);
            proof {
                if oldcur.len() > 0 {
                    assert(o.push(oldcur).drop_last() =~= o);
                    assert(o.push(cur@) =~= o.push(oldcur).drop_last().push(o.push(oldcur).last().push(c)));
                } else {
                    assert(cur@ =~= seq![c]);
                }
            }
        }
        i += 1;
    }
    assert(cs@.take(cs@.len() as int) =~= cs@);
    if cur.len() > 0 {
        let ghost o = out@.map_values(|w: Vec<char>| w@);
        let w = cur;
        out.push(w);
        assert(out@.map_values(|w: Vec<char>| w@) =~= o.push(w@));
    }
    out
}

/// The strings joined with `sep` between them.
pub fn join_strings(ss: &Vec<String>, sep: &str) -> (r: String)
    ensures
        r@ == join(ss@.map_values(|s: String| s@), sep@),
{
    let ghost sv = ss@.map_values(|s: String| s@);
    let mut r = String::new();
    let mut i: usize = 0;
    while i < ss.len()
        invariant
            i <= ss@.len(),
            sv == ss@.map_values(|s: String| s@),
            r@ == join(sv.take(i as int), sep@),
        decreases ss@.len() - i,
    {
        assert(sv.take(i + 1).drop_last() =~= sv.take(i as int));
        if i > 0 {
            push_str(&mut r, sep);
        } else {
            assert(sv.take(1)[0] == sv[0]);
        }
        push_str(&mut r, ss[i].as_str());
        proof {
            if i == 0 {
                assert(r@ =~= sv.take(1)[0]);
            }
        }
        i += 1;
    }
    assert(sv.take(sv.len() as int) =~= sv);
    r
}

} // verus!
