//! Memory ingestion: which files are read and how, the chunking of
//! documents, and the ingestion report. Reading files, extracting PDF text,
//! embedding and storing are done by the application around this module.

use vstd::prelude::*;
use base64::Engine;
use crate::backends::{to_lowercase, unicode_lower};
use crate::text::{
    byte_len, chars_of, is_ws, push_char, push_str, rfind, rfind_exec, str_eq, string_of,
    trim, trim_str, utf8_len, decimal, decimal_string,
    words, words_of, concat_all, lemma_words_shape, lemma_trim_nonempty, lemma_utf8_len_concat,
    lemma_utf8_len_push,
};

verus! {

/// How a file is ingested.
pub enum FileKind {
    Text,
    /// An image, with its MIME type.
    Image(String),
    Pdf,
    Skip,
}

/// The extension of a file name (`Path::extension`): what follows its last
/// dot, unless the name has no dot, starts with its only dot, or is `..`.
pub open spec fn extension_spec(name: Seq<char>) -> Option<Seq<char>> {
    if name == ".."@ {
        None
    } else {
        match rfind(name, "."@) {
            Some(i) => if 0 < i < name.len() { Some(name.skip(i + 1)) } else { None },
            None => None,
        }
    }
}

/// Extensions ingested as text.
pub open spec fn text_extensions() -> Seq<Seq<char>> {
    seq![
        "md"@, "markdown"@, "txt"@, "rs"@, "py"@, "js"@, "ts"@, "tsx"@, "jsx"@, "json"@, "csv"@,
        "html"@, "htm"@, "css"@, "toml"@, "yaml"@, "yml"@, "xml"@, "c"@, "cpp"@, "h"@, "hpp"@,
        "java"@, "go"@, "rb"@, "sh"@, "sql"@, "log"@, "tex"@, "ini"@, "cfg"@,
    ]
}

/// The MIME type of an image extension.
pub open spec fn image_mime(ext: Seq<char>) -> Option<Seq<char>> {
    if ext == "png"@ {
        Some("image/png"@)
    } else if ext == "jpg"@ || ext == "jpeg"@ {
        Some("image/jpeg"@)
    } else if ext == "webp"@ {
        Some("image/webp"@)
    } else if ext == "gif"@ {
        Some("image/gif"@)
    } else if ext == "bmp"@ {
        Some("image/bmp"@)
    } else {
        None
    }
}

/// The lower-cased extension of a file name, or empty.
pub open spec fn lower_ext(name: Seq<char>) -> Seq<char> {
    unicode_lower(
        match extension_spec(name) {
            Some(e) => e,
            None => seq![],
        },
    )
}

/// Classification of a file by its lower-cased extension; videos and unknown
/// binaries are skipped.
pub open spec fn classify_spec(name: Seq<char>) -> (u8, Seq<char>) {
    kind_of_ext(lower_ext(name))
}

/// Classification by a lower-cased extension: text, image (with its MIME
/// type), PDF, or skipped.
pub open spec fn kind_of_ext(ext: Seq<char>) -> (u8, Seq<char>) {
    if text_extensions().contains(ext) {
        (0, seq![])
    } else if image_mime(ext) is Some {
        (1, image_mime(ext)->Some_0)
    } else if ext == "pdf"@ {
        (2, seq![])
    } else {
        (3, seq![])
    }
}

/// The extensions of the text files that are read and chunked: Markdown,
/// plain text, source code, data and configuration files.
pub open spec fn is_text_extension(e: Seq<char>) -> bool {
    ||| e == "md"@
    ||| e == "markdown"@
    ||| e == "txt"@
    ||| e == "rs"@
    ||| e == "py"@
    ||| e == "js"@
    ||| e == "ts"@
    ||| e == "tsx"@
    ||| e == "jsx"@
    ||| e == "json"@
    ||| e == "csv"@
    ||| e == "html"@
    ||| e == "htm"@
    ||| e == "css"@
    ||| e == "toml"@
    ||| e == "yaml"@
    ||| e == "yml"@
    ||| e == "xml"@
    ||| e == "c"@
    ||| e == "cpp"@
    ||| e == "h"@
    ||| e == "hpp"@
    ||| e == "java"@
    ||| e == "go"@
    ||| e == "rb"@
    ||| e == "sh"@
    ||| e == "sql"@
    ||| e == "log"@
    ||| e == "tex"@
    ||| e == "ini"@
    ||| e == "cfg"@
}

/// A file is ingested as text exactly when its (lower-cased) extension is
/// one of the text extensions listed in `is_text_extension`; `txt`, for one,
/// is text.
pub proof fn law_text_extensions(e: Seq<char>)
    ensures
        kind_of_ext(e).0 == 0 <==> is_text_extension(e),
        is_text_extension(e) ==> kind_of_ext(e) == (0u8, Seq::<char>::empty()),
{
    let tv = text_extensions();
    if is_text_extension(e) {
        assert(tv[0] == "md"@);
        assert(tv[1] == "markdown"@);
        assert(tv[2] == "txt"@);
        assert(tv[3] == "rs"@);
        assert(tv[4] == "py"@);
        assert(tv[5] == "js"@);
        assert(tv[6] == "ts"@);
        assert(tv[7] == "tsx"@);
        assert(tv[8] == "jsx"@);
        assert(tv[9] == "json"@);
        assert(tv[10] == "csv"@);
        assert(tv[11] == "html"@);
        assert(tv[12] == "htm"@);
        assert(tv[13] == "css"@);
        assert(tv[14] == "toml"@);
        assert(tv[15] == "yaml"@);
        assert(tv[16] == "yml"@);
        assert(tv[17] == "xml"@);
        assert(tv[18] == "c"@);
        assert(tv[19] == "cpp"@);
        assert(tv[20] == "h"@);
        assert(tv[21] == "hpp"@);
        assert(tv[22] == "java"@);
        assert(tv[23] == "go"@);
        assert(tv[24] == "rb"@);
        assert(tv[25] == "sh"@);
        assert(tv[26] == "sql"@);
        assert(tv[27] == "log"@);
        assert(tv[28] == "tex"@);
        assert(tv[29] == "ini"@);
        assert(tv[30] == "cfg"@);
        assert(tv.contains(e));
    }
    if tv.contains(e) {
        let i = choose|i: int| 0 <= i < tv.len() && tv[i] == e;
        assert(tv[0] == "md"@);
        assert(tv[1] == "markdown"@);
        assert(tv[2] == "txt"@);
        assert(tv[3] == "rs"@);
        assert(tv[4] == "py"@);
        assert(tv[5] == "js"@);
        assert(tv[6] == "ts"@);
        assert(tv[7] == "tsx"@);
        assert(tv[8] == "jsx"@);
        assert(tv[9] == "json"@);
        assert(tv[10] == "csv"@);
        assert(tv[11] == "html"@);
        assert(tv[12] == "htm"@);
        assert(tv[13] == "css"@);
        assert(tv[14] == "toml"@);
        assert(tv[15] == "yaml"@);
        assert(tv[16] == "yml"@);
        assert(tv[17] == "xml"@);
        assert(tv[18] == "c"@);
        assert(tv[19] == "cpp"@);
        assert(tv[20] == "h"@);
        assert(tv[21] == "hpp"@);
        assert(tv[22] == "java"@);
        assert(tv[23] == "go"@);
        assert(tv[24] == "rb"@);
        assert(tv[25] == "sh"@);
        assert(tv[26] == "sql"@);
        assert(tv[27] == "log"@);
        assert(tv[28] == "tex"@);
        assert(tv[29] == "ini"@);
        assert(tv[30] == "cfg"@);
        assert(i == 0 || i == 1 || i == 2 || i == 3 || i == 4 || i == 5 || i == 6 || i == 7 || i == 8 || i == 9 || i == 10 || i == 11 || i == 12 || i == 13 || i == 14 || i == 15 || i == 16 || i == 17 || i == 18 || i == 19 || i == 20 || i == 21 || i == 22 || i == 23 || i == 24 || i == 25 || i == 26 || i == 27 || i == 28 || i == 29 || i == 30);
    }
}

/// The (tag, MIME) pair a classification stands for.
pub open spec fn kind_view(k: FileKind) -> (u8, Seq<char>) {
    match k {
        FileKind::Text => (0, seq![]),
        FileKind::Image(m) => (1, m@),
        FileKind::Pdf => (2, seq![]),
        FileKind::Skip => (3, seq![]),
    }
}

/// The extension of a file name.
pub fn extension(name: &str) -> (r: Option<String>)
    ensures
        r matches Some(e) ==> extension_spec(name@) == Some(e@),
        r is None ==> extension_spec(name@) is None,
{
    if str_eq(name, "..") {
        return None;
    }
    let cs = chars_of(name);
    match rfind_exec(&cs, &chars_of(".")) {
        Some(i) => if 0 < i && i < cs.len() {
            proof {
                reveal_strlit(".");
            }
            let e = string_of(&cs, i + 1, cs.len());
            assert(cs@.subrange(i + 1, cs@.len() as int) =~= cs@.skip(i + 1));
            Some(e)
        } else {
            None
        },
        None => None,
    }
}

/// Classifies a file by the extension of its name.
pub fn classify(name: &str) -> (r: FileKind)
    ensures
        kind_view(r) == classify_spec(name@),
{
    let ext = match extension(name) {
        Some(e) => to_lowercase(e.as_str()),
        None => to_lowercase(""),
    };
    proof {
        assert(""@ =~= Seq::<char>::empty()) by {
            reveal_strlit("");
        }
    }
    kind_for_extension(ext.as_str())
}

/// The kind of file a lower-cased extension names.
pub fn kind_for_extension(e: &str) -> (r: FileKind)
    ensures
        kind_view(r) == kind_of_ext(e@),
{
    let texts: Vec<&str> = vec![
        "md", "markdown", "txt", "rs", "py", "js", "ts", "tsx", "jsx", "json", "csv", "html", "htm",
        "css", "toml", "yaml", "yml", "xml", "c", "cpp", "h", "hpp", "java", "go", "rb", "sh", "sql",
        "log", "tex", "ini", "cfg",
    ];
    let ghost tv = text_extensions();
    assert(texts@.map_values(|t: &str| t@) =~= tv);
    let mut i: usize = 0;
    while i < texts.len()
        invariant
            i <= texts@.len(),
            tv == text_extensions(),
            texts@.map_values(|t: &str| t@) == tv,
            forall|j: int| 0 <= j < i ==> tv[j] != e@,
        decreases texts@.len() - i,
    {
        assert(tv[i as int] == texts@[i as int]@);
        if str_eq(texts[i], e) {
            assert(tv.contains(e@));
            return FileKind::Text;
        }
        i += 1;
    }
    assert(!tv.contains(e@));
    if str_eq(e, "png") {
        FileKind::Image("image/png".to_owned())
    } else if str_eq(e, "jpg") || str_eq(e, "jpeg") {
        FileKind::Image("image/jpeg".to_owned())
    } else if str_eq(e, "webp") {
        FileKind::Image("image/webp".to_owned())
    } else if str_eq(e, "gif") {
        FileKind::Image("image/gif".to_owned())
    } else if str_eq(e, "bmp") {
        FileKind::Image("image/bmp".to_owned())
    } else if str_eq(e, "pdf") {
        FileKind::Pdf
    } else {
        FileKind::Skip
    }
}

/// Directories never descended into during ingestion.
pub fn skip_dir(name: &str) -> (r: bool)
    ensures
        r == (name@ == "node_modules"@ || name@ == "target"@ || name@ == ".git"@ || name@ == "dist"@
            || name@ == ".venv"@),
{
    str_eq(name, "node_modules") || str_eq(name, "target") || str_eq(name, ".git") || str_eq(name, "dist")
        || str_eq(name, ".venv")
}

// ------------------------------------------------------------------ chunking

/// Chunks built from `ws` in order: each word followed by a space is added
/// to the current chunk, and a non-empty chunk is closed first when the
/// word would make it longer than `size` bytes. The pending chunk is last.
pub open spec fn chunk_fold(ws: Seq<Seq<char>>, size: int) -> (Seq<Seq<char>>, Seq<char>)
    decreases ws.len(),
{
    if ws.len() == 0 {
        (seq![], seq![])
    } else {
        let (ch, cur) = chunk_fold(ws.drop_last(), size);
        let w = ws.last();
        if utf8_len(cur) + utf8_len(w) + 1 > size && cur.len() > 0 {
            (ch.push(cur), w.push(' '))
        } else {
            (ch, cur + w.push(' '))
        }
    }
}

/// The chunks of a text of roughly `size` bytes each, made of whole words.
pub open spec fn chunk_text_spec(text: Seq<char>, size: int) -> Seq<Seq<char>> {
    let (ch, cur) = chunk_fold(words(text), size);
    if trim(cur).len() > 0 {
        ch.push(cur)
    } else {
        ch
    }
}

/// Each word followed by one space, all in order.
pub open spec fn spaced(ws: Seq<Seq<char>>) -> Seq<char>
    decreases ws.len(),
{
    if ws.len() == 0 {
        seq![]
    } else {
        spaced(ws.drop_last()) + ws.last().push(' ')
    }
}

proof fn lemma_chunk_fold(ws: Seq<Seq<char>>, size: int)
    ensures
        concat_all(chunk_fold(ws, size).0) + chunk_fold(ws, size).1 == spaced(ws),
        ws.len() > 0 ==> chunk_fold(ws, size).1.len() >= ws.last().len() + 1 && chunk_fold(ws, size).1.drop_last()
            == chunk_fold(ws, size).1.drop_last().take(chunk_fold(ws, size).1.len() - 1 - ws.last().len())
            + ws.last(),
    decreases ws.len(),
{
    if ws.len() > 0 {
        let prev = chunk_fold(ws.drop_last(), size);
        lemma_chunk_fold(ws.drop_last(), size);
        let w = ws.last();
        let (ch, cur) = prev;
        if utf8_len(cur) + utf8_len(w) + 1 > size && cur.len() > 0 {
            assert(ch.push(cur).drop_last() =~= ch);
            assert(concat_all(ch.push(cur)) == concat_all(ch) + cur);
            assert(concat_all(ch) + cur + w.push(' ') =~= spaced(ws));
            assert(w.push(' ').drop_last() =~= w);
            assert(w.push(' ').drop_last().take(0) + w =~= w);
        } else {
            assert(concat_all(ch) + (cur + w.push(' ')) =~= concat_all(ch) + cur + w.push(' '));
            let c2 = cur + w.push(' ');
            assert(c2.drop_last() =~= cur + w);
            assert(c2.drop_last().take(c2.len() - 1 - w.len()) =~= cur);
        }
    }
}

/// Chunking loses no word and adds none: the chunks, put back together,
/// are the text's words in order, each followed by a space.
pub proof fn law_chunks_keep_words(text: Seq<char>, size: int)
    ensures
        concat_all(chunk_text_spec(text, size)) == spaced(words(text)),
{
    let ws = words(text);
    lemma_chunk_fold(ws, size);
    let (ch, cur) = chunk_fold(ws, size);
    if trim(cur).len() > 0 {
        assert(ch.push(cur).drop_last() =~= ch);
    } else {
        if ws.len() > 0 {
            lemma_words_shape(text);
            let w = ws.last();
            assert(w.len() > 0);
            assert(!is_ws(w[w.len() - 1]));
            let k = cur.len() - 2;
            assert(cur.drop_last()[k] == w[w.len() - 1]);
            assert(cur[k] == cur.drop_last()[k]);
            lemma_trim_nonempty(cur, k);
        }
        assert(cur =~= Seq::<char>::empty()) by {
            if ws.len() == 0 {
                assert(chunk_fold(ws, size).1 =~= Seq::<char>::empty());
            }
        }
        assert(concat_all(ch) + cur =~= concat_all(ch));
    }
}

/// A well-shaped chunk: non-empty, ends with a space, and either fits in
/// `size` bytes or holds a single word (no whitespace before its last space).
pub open spec fn chunk_shaped(c: Seq<char>, size: int) -> bool {
    &&& c.len() > 0
    &&& c.last() == ' '
    &&& (utf8_len(c) <= size || forall|j: int| 0 <= j < c.len() - 1 ==> !is_ws(#[trigger] c[j]))
}

proof fn lemma_chunk_fold_shaped(ws: Seq<Seq<char>>, size: int)
    requires
        forall|i: int| 0 <= i < ws.len() ==> (#[trigger] ws[i]).len() > 0,
        forall|i: int, j: int| 0 <= i < ws.len() && 0 <= j < ws[i].len() ==> !is_ws(#[trigger] ws[i][j]),
    ensures
        forall|k: int| 0 <= k < chunk_fold(ws, size).0.len() ==> chunk_shaped(
            #[trigger] chunk_fold(ws, size).0[k],
            size,
        ),
        ws.len() == 0 <==> chunk_fold(ws, size).1.len() == 0,
        ws.len() > 0 ==> chunk_shaped(chunk_fold(ws, size).1, size),
    decreases ws.len(),
{
    if ws.len() > 0 {
        let pw = ws.drop_last();
        assert forall|i: int, j: int| 0 <= i < pw.len() && 0 <= j < pw[i].len() implies !is_ws(#[trigger] pw[i][j]) by {
            assert(pw[i] == ws[i]);
        }
        assert forall|i: int| 0 <= i < pw.len() implies (#[trigger] pw[i]).len() > 0 by {
            assert(pw[i] == ws[i]);
        }
        lemma_chunk_fold_shaped(pw, size);
        let (ch, cur) = chunk_fold(pw, size);
        let w = ws.last();
        assert(w == ws[ws.len() - 1]);
        let wsp = w.push(' ');
        assert forall|j: int| 0 <= j < wsp.len() - 1 implies !is_ws(#[trigger] wsp[j]) by {
            assert(wsp[j] == ws[ws.len() - 1][j]);
        }
        if utf8_len(cur) + utf8_len(w) + 1 > size && cur.len() > 0 {
            let ch2 = ch.push(cur);
            assert forall|k: int| 0 <= k < ch2.len() implies chunk_shaped(#[trigger] ch2[k], size) by {
                if k < ch.len() {
                    assert(ch2[k] == ch[k]);
                }
            }
        } else {
            let c2 = cur + wsp;
            assert(c2.last() == ' ');
            if cur.len() == 0 {
                assert(c2 =~= wsp);
            } else {
                lemma_utf8_len_concat(cur, wsp);
                lemma_utf8_len_push(w, ' ');
            }
        }
    }
}

proof fn lemma_words_of_blank(s: Seq<char>)
    requires
        forall|i: int| 0 <= i < s.len() ==> is_ws(#[trigger] s[i]),
    ensures
        words(s).len() == 0,
    decreases s.len(),
{
    if s.len() > 0 {
        let p = s.drop_last();
        assert forall|i: int| 0 <= i < p.len() implies is_ws(#[trigger] p[i]) by {
            assert(p[i] == s[i]);
        }
        assert(is_ws(s[s.len() - 1]));
        lemma_words_of_blank(p);
    }
}

/// Every chunk is non-empty, ends with a space, and fits in `size` bytes
/// unless it holds a single word too long to fit; a text with nothing but
/// whitespace gives no chunk.
pub proof fn law_chunks_are_shaped(text: Seq<char>, size: int)
    ensures
        forall|k: int| 0 <= k < chunk_text_spec(text, size).len() ==> chunk_shaped(
            #[trigger] chunk_text_spec(text, size)[k],
            size,
        ),
        (forall|i: int| 0 <= i < text.len() ==> is_ws(#[trigger] text[i])) ==> chunk_text_spec(text, size).len()
            == 0,
{
    let ws = words(text);
    lemma_words_shape(text);
    lemma_chunk_fold_shaped(ws, size);
    let (ch, cur) = chunk_fold(ws, size);
    if trim(cur).len() > 0 {
        assert(ws.len() > 0) by {
            if ws.len() == 0 {
                assert(cur =~= Seq::<char>::empty());
                reveal_with_fuel(crate::text::trim_start, 2);
                reveal_with_fuel(crate::text::trim_end, 2);
            }
        }
        let r = ch.push(cur);
        assert forall|k: int| 0 <= k < r.len() implies chunk_shaped(#[trigger] r[k], size) by {
            if k < ch.len() {
                assert(r[k] == ch[k]);
            }
        }
    }
    if forall|i: int| 0 <= i < text.len() ==> is_ws(#[trigger] text[i]) {
        lemma_words_of_blank(text);
        assert(ch.len() == 0 && cur.len() == 0);
        if trim(cur).len() > 0 {
            assert(cur =~= Seq::<char>::empty());
            reveal_with_fuel(crate::text::trim_start, 2);
            reveal_with_fuel(crate::text::trim_end, 2);
        }
    }
}

/// Chunk `b` could not have been joined to chunk `a`: it starts with a
/// word, followed by a space, that would have made `a` longer than `size`
/// bytes.
pub open spec fn closed_before(a: Seq<char>, b: Seq<char>, size: int) -> bool {
    exists|w: Seq<char>|
        #![trigger b.take(w.len() as int + 1), utf8_len(w)]
        w.len() > 0 && (forall|j: int| 0 <= j < w.len() ==> !is_ws(#[trigger] w[j])) && w.len() + 1 <= b.len()
            && b.take(w.len() as int + 1) == w.push(' ') && utf8_len(a) + utf8_len(w) + 1 > size
}

proof fn lemma_closed_before_extend(a: Seq<char>, b: Seq<char>, x: Seq<char>, size: int)
    requires
        closed_before(a, b, size),
    ensures
        closed_before(a, b + x, size),
{
    let w = choose|w: Seq<char>|
        #![trigger b.take(w.len() as int + 1), utf8_len(w)]
        w.len() > 0 && (forall|j: int| 0 <= j < w.len() ==> !is_ws(#[trigger] w[j])) && w.len() + 1 <= b.len()
            && b.take(w.len() as int + 1) == w.push(' ') && utf8_len(a) + utf8_len(w) + 1 > size;
    assert((b + x).take(w.len() as int + 1) =~= b.take(w.len() as int + 1));
}

proof fn lemma_chunk_fold_greedy(ws: Seq<Seq<char>>, size: int)
    requires
        forall|i: int| 0 <= i < ws.len() ==> (#[trigger] ws[i]).len() > 0,
        forall|i: int, j: int| 0 <= i < ws.len() && 0 <= j < ws[i].len() ==> !is_ws(#[trigger] ws[i][j]),
    ensures
        forall|k: int|
            0 <= k < chunk_fold(ws, size).0.len() - 1 ==> closed_before(
                #[trigger] chunk_fold(ws, size).0[k],
                chunk_fold(ws, size).0[k + 1],
                size,
            ),
        chunk_fold(ws, size).0.len() > 0 ==> closed_before(
            chunk_fold(ws, size).0.last(),
            chunk_fold(ws, size).1,
            size,
        ),
        chunk_fold(ws, size).0.len() > 0 ==> ws.len() > 0,
    decreases ws.len(),
{
    if ws.len() > 0 {
        let pw = ws.drop_last();
        assert forall|i: int, j: int| 0 <= i < pw.len() && 0 <= j < pw[i].len() implies !is_ws(#[trigger] pw[i][j]) by {
            assert(pw[i] == ws[i]);
        }
        assert forall|i: int| 0 <= i < pw.len() implies (#[trigger] pw[i]).len() > 0 by {
            assert(pw[i] == ws[i]);
        }
        lemma_chunk_fold_greedy(pw, size);
        lemma_chunk_fold_shaped(pw, size);
        let (ch, cur) = chunk_fold(pw, size);
        let w = ws.last();
        assert(w == ws[ws.len() - 1]);
        let wsp = w.push(' ');
        if utf8_len(cur) + utf8_len(w) + 1 > size && cur.len() > 0 {
            let ch2 = ch.push(cur);
            assert forall|j: int| 0 <= j < w.len() implies !is_ws(#[trigger] w[j]) by {
                assert(w[j] == ws[ws.len() - 1][j]);
            }
            assert(wsp.take(w.len() as int + 1) =~= w.push(' '));
            assert(closed_before(cur, wsp, size));
            assert forall|k: int| 0 <= k < ch2.len() - 1 implies closed_before(#[trigger] ch2[k], ch2[k + 1], size) by {
                assert(ch2[k] == ch[k]);
                if k + 1 < ch.len() {
                    assert(ch2[k + 1] == ch[k + 1]);
                } else {
                    assert(ch2[k + 1] == cur);
                }
            }
        } else {
            if ch.len() > 0 {
                lemma_closed_before_extend(ch.last(), cur, wsp, size);
            }
        }
    }
}

/// Chunks are filled greedily: a chunk is closed only when the next word,
/// with its space, would not fit in `size` bytes. So a text whose words,
/// each followed by a space, fit in `size` bytes is one chunk.
pub proof fn law_chunks_are_greedy(text: Seq<char>, size: int)
    ensures
        forall|k: int|
            0 <= k < chunk_text_spec(text, size).len() - 1 ==> closed_before(
                #[trigger] chunk_text_spec(text, size)[k],
                chunk_text_spec(text, size)[k + 1],
                size,
            ),
        words(text).len() > 0 && utf8_len(spaced(words(text))) <= size ==> chunk_text_spec(text, size) == seq![
            spaced(words(text)),
        ],
{
    let ws = words(text);
    lemma_words_shape(text);
    lemma_chunk_fold_greedy(ws, size);
    lemma_chunk_fold_shaped(ws, size);
    law_chunks_keep_words(text, size);
    let (ch, cur) = chunk_fold(ws, size);
    let r = chunk_text_spec(text, size);
    if trim(cur).len() > 0 {
        assert forall|k: int| 0 <= k < r.len() - 1 implies closed_before(#[trigger] r[k], r[k + 1], size) by {
            assert(r[k] == ch[k]);
            if k + 1 < ch.len() {
                assert(r[k + 1] == ch[k + 1]);
            } else {
                assert(r[k + 1] == cur);
            }
        }
    } else {
        assert(ch.len() == 0) by {
            if ch.len() > 0 {
                assert(ws.len() > 0);
                lemma_words_shape(text);
                let w = ws.last();
                assert(w.len() > 0);
                assert(!is_ws(w[w.len() - 1]));
                lemma_chunk_fold(ws, size);
                let k = cur.len() - 2;
                assert(cur.drop_last()[k] == w[w.len() - 1]);
                assert(cur[k] == cur.drop_last()[k]);
                lemma_trim_nonempty(cur, k);
            }
        }
    }
    if ws.len() > 0 && utf8_len(spaced(ws)) <= size {
        if r.len() >= 2 {
            assert(closed_before(r[0], r[1], size));
            let w = choose|w: Seq<char>|
                #![trigger r[1].take(w.len() as int + 1), utf8_len(w)]
                w.len() > 0 && (forall|j: int| 0 <= j < w.len() ==> !is_ws(#[trigger] w[j])) && w.len() + 1
                    <= r[1].len() && r[1].take(w.len() as int + 1) == w.push(' ') && utf8_len(r[0]) + utf8_len(w) + 1
                    > size;
            lemma_concat_all_front(r);
            lemma_utf8_len_concat(r[1].take(w.len() as int + 1), r[1].skip(w.len() as int + 1));
            assert(r[1] =~= r[1].take(w.len() as int + 1) + r[1].skip(w.len() as int + 1));
            lemma_utf8_len_push(w, ' ');
            assert(false);
        }
        assert(concat_all(r) == spaced(ws));
        lemma_spaced_nonempty(ws);
        if r.len() == 0 {
            assert(concat_all(r) =~= Seq::<char>::empty());
        } else {
            assert(r.drop_last() =~= Seq::<Seq<char>>::empty());
            assert(concat_all(r.drop_last()) =~= Seq::<char>::empty());
            assert(concat_all(r) =~= r[0]);
            assert(r =~= seq![spaced(ws)]);
        }
    }
}

/// The first two chunks together are no longer than all of them.
proof fn lemma_concat_all_front(cs: Seq<Seq<char>>)
    requires
        cs.len() >= 2,
    ensures
        utf8_len(cs[0]) + utf8_len(cs[1]) <= utf8_len(concat_all(cs)),
    decreases cs.len(),
{
    let p = cs.drop_last();
    lemma_utf8_len_concat(concat_all(p), cs.last());
    if cs.len() == 2 {
        assert(p.drop_last() =~= seq![cs[0]].drop_last());
        assert(concat_all(p.drop_last()) =~= Seq::<char>::empty());
        assert(concat_all(p) =~= cs[0]);
        assert(cs.last() == cs[1]);
    } else {
        lemma_concat_all_front(p);
        assert(p[0] == cs[0] && p[1] == cs[1]);
    }
}

proof fn lemma_spaced_nonempty(ws: Seq<Seq<char>>)
    requires
        ws.len() > 0,
    ensures
        spaced(ws).len() > 0,
{
}

/// Splits a text into chunks of whole words of about `size` bytes.
pub fn chunk_text(text: &str, size: usize) -> (r: Vec<String>)
    ensures
        r@.map_values(|c: String| c@) == chunk_text_spec(text@, size as int),
{
    let cs = chars_of(text);
    let ws = words_of(&cs);
    let ghost wv = ws@.map_values(|w: Vec<char>| w@);
    let mut chunks: Vec<String> = Vec::new();
    let mut cur = String::new();
    let mut cur_len: usize = 0;
    let mut i: usize = 0;
    while i < ws.len()
        invariant
            i <= ws@.len(),
            wv == ws@.map_values(|w: Vec<char>| w@),
            wv == words(text@),
            (chunks@.map_values(|c: String| c@), cur@) == chunk_fold(wv.take(i as int), size as int),
            cur_len == utf8_len(cur@),
        decreases ws@.len() - i,
    {
        assert(wv.take(i + 1).drop_last() =~= wv.take(i as int));
        let w = string_of(&ws[i], 0, ws[i].len());
        assert(ws@[i as int]@.subrange(0, ws@[i as int]@.len() as int) =~= wv[i as int]);
        let wl = byte_len(w.as_str());
        let ghost ch0 = chunks@.map_values(|c: String| c@);
        if (wl >= size || cur_len >= size - wl) && cur_len > 0 {
            let done = cur;
            chunks.push(done);
            cur = String::new();
            push_str(&mut cur, w.as_str());
            push_char(&mut cur, ' ');
            assert(chunks@.map_values(|c: String| c@) =~= ch0.push(done@));
        } else {
            push_str(&mut cur, w.as_str());
            push_char(&mut cur, ' ');
        }
        cur_len = byte_len(cur.as_str());
        i += 1;
    }
    assert(wv.take(wv.len() as int) =~= wv);
    let t = trim_str(cur.as_str());
    if !t.as_str().is_empty() {
        let ghost ch0 = chunks@.map_values(|c: String| c@);
        chunks.push(cur);
        assert(chunks@.map_values(|c: String| c@) =~= ch0.push(cur@));
    }
    chunks
}

// ------------------------------------------------------------------ ingestion report

/// The character of a 6-bit value in the standard base64 alphabet.
pub open spec fn b64_char(v: int) -> char {
    if v < 26 {
        (65 + v) as char
    } else if v < 52 {
        (97 + (v - 26)) as char
    } else if v < 62 {
        (48 + (v - 52)) as char
    } else if v == 62 {
        '+'
    } else {
        '/'
    }
}

/// Standard base64 with `=` padding: every group of three bytes written as
/// four characters of six bits each, a last short group padded.
pub open spec fn base64_spec(b: Seq<u8>) -> Seq<char>
    decreases b.len(),
{
    if b.len() == 0 {
        seq![]
    } else {
        let x = b[0] as int;
        let y = if b.len() > 1 { b[1] as int } else { 0 };
        let z = if b.len() > 2 { b[2] as int } else { 0 };
        if b.len() == 1 {
            seq![b64_char(x / 4), b64_char((x % 4) * 16), '=', '=']
        } else if b.len() == 2 {
            seq![b64_char(x / 4), b64_char((x % 4) * 16 + y / 16), b64_char((y % 16) * 4), '=']
        } else {
            seq![b64_char(x / 4), b64_char((x % 4) * 16 + y / 16), b64_char((y % 16) * 4 + z / 64), b64_char(z % 64)]
                + base64_spec(b.skip(3))
        }
    }
}

/// Four characters for every started group of three bytes.
pub proof fn lemma_base64_len(b: Seq<u8>)
    ensures
        base64_spec(b).len() == 4 * ((b.len() + 2) / 3),
    decreases b.len(),
{
    if b.len() >= 3 {
        lemma_base64_len(b.skip(3));
    }
}

/// Standard (padded) base64 encoding of image bytes, through `base64`'s
/// `STANDARD` engine (`base64::engine::general_purpose::STANDARD.encode`).
/// The contract claims the encoding of the crate's standard alphabet with
/// `=` padding. Inputs whose encoded length would overflow `usize` (where the
/// crate panics) are left out.
#[verifier::external_body]
pub(crate) fn encode_base64(bytes: &[u8]) -> (r: String)
    requires
        bytes@.len() < usize::MAX / 2,
    ensures
        r@ == base64_spec(bytes@),
{
    base64::engine::general_purpose::STANDARD.encode(bytes)
}

/// The label stored with an ingested image.
pub fn image_label(name: &str) -> (r: String)
    ensures
        r@ == "[image] "@ + name@,
{
    let mut s = "[image] ".to_owned();
    push_str(&mut s, name);
    s
}

/// What an image file is stored as: its bytes in standard base64 and its
/// label.
pub fn image_memory(bytes: &[u8], name: &str) -> (r: (String, String))
    requires
        bytes@.len() < usize::MAX / 2,
    ensures
        r.0@ == base64_spec(bytes@),
        r.0@.len() == 4 * ((bytes@.len() + 2) / 3),
        r.1@ == "[image] "@ + name@,
{
    proof {
        lemma_base64_len(bytes@);
    }
    (encode_base64(bytes), image_label(name))
}

/// Whether extracted PDF text has any content.
pub fn has_text(text: &str) -> (r: bool)
    ensures
        r == (trim(text@).len() > 0),
{
    !trim_str(text).as_str().is_empty()
}

/// Counts of an ingestion run.
pub struct IngestReport {
    pub files: usize,
    pub chunks: usize,
    pub skipped: usize,
    pub errors: usize,
}

/// How the ingestion of one collected file ended.
pub enum FileOutcome {
    /// A text or PDF document (`label` is "text" or "pdf") whose chunks were
    /// offered to memory: `stored` were stored and `failed` were not.
    Document { label: String, stored: usize, failed: usize },
    /// A PDF from which no text could be extracted.
    PdfWithoutText,
    /// An image stored in memory.
    ImageStored,
    /// A file that could not be read, or an image that could not be stored.
    Failed,
    /// A file of a kind that is not ingested.
    Skipped,
}

/// The status line of one file: what was stored of it, or why nothing was.
pub open spec fn status_line(name: Seq<char>, o: FileOutcome) -> Seq<char> {
    match o {
        FileOutcome::Document { label, stored, failed } => if stored > 0 {
            label@ + ": "@ + name + " (+"@ + decimal(stored as nat) + ")"@
        } else {
            label@ + ": "@ + name + " (nothing stored)"@
        },
        FileOutcome::PdfWithoutText => "pdf failed: "@ + name,
        FileOutcome::ImageStored => "image: "@ + name,
        FileOutcome::Failed => "error: "@ + name,
        FileOutcome::Skipped => "skipped: "@ + name,
    }
}

/// The counts (files, chunks, skipped, errors) after one more file: a
/// document counts as a file when a chunk of it was stored, and each chunk
/// that was not stored is an error.
pub open spec fn counts_after(c: (int, int, int, int), o: FileOutcome) -> (int, int, int, int) {
    match o {
        FileOutcome::Document { label, stored, failed } => if stored > 0 {
            (c.0 + 1, c.1 + stored, c.2, c.3 + failed)
        } else {
            (c.0, c.1, c.2, c.3 + failed)
        },
        FileOutcome::PdfWithoutText => (c.0, c.1, c.2, c.3 + 1),
        FileOutcome::ImageStored => (c.0 + 1, c.1 + 1, c.2, c.3),
        FileOutcome::Failed => (c.0, c.1, c.2, c.3 + 1),
        FileOutcome::Skipped => (c.0, c.1, c.2 + 1, c.3),
    }
}

/// The counts of a report, as integers.
pub open spec fn counts(r: IngestReport) -> (int, int, int, int) {
    (r.files as int, r.chunks as int, r.skipped as int, r.errors as int)
}

/// The counts after one more file stay within `usize`.
pub open spec fn fits(c: (int, int, int, int), o: FileOutcome) -> bool {
    let n = counts_after(c, o);
    n.0 <= usize::MAX && n.1 <= usize::MAX && n.2 <= usize::MAX && n.3 <= usize::MAX
}

impl IngestReport {
    /// An empty report.
    pub fn new() -> (r: Self)
        ensures
            r.files == 0 && r.chunks == 0 && r.skipped == 0 && r.errors == 0,
    {
        IngestReport { files: 0, chunks: 0, skipped: 0, errors: 0 }
    }

    /// Whether the counts stay within `usize` after one more file.
    pub fn can_record(&self, o: &FileOutcome) -> (r: bool)
        ensures
            r == fits(counts(*self), *o),
    {
        match o {
            FileOutcome::Document { label: _, stored, failed } => {
                self.errors <= usize::MAX - *failed && (*stored == 0 || (self.files < usize::MAX
                    && self.chunks <= usize::MAX - *stored))
            },
            FileOutcome::ImageStored => self.files < usize::MAX && self.chunks < usize::MAX,
            FileOutcome::Skipped => self.skipped < usize::MAX,
            _ => self.errors < usize::MAX,
        }
    }

    /// Records how one collected file ended and returns its status line:
    /// every file recorded yields exactly one line.
    pub fn record(&mut self, name: &str, o: &FileOutcome) -> (r: String)
        requires
            fits(counts(*old(self)), *o),
        ensures
            counts(*final(self)) == counts_after(counts(*old(self)), *o),
            r@ == status_line(name@, *o),
    {
        match o {
            FileOutcome::Document { label, stored, failed } => {
                self.errors = self.errors + *failed;
                let mut l = label.clone();
                push_str(&mut l, ": ");
                push_str(&mut l, name);
                if *stored > 0 {
                    self.files = self.files + 1;
                    self.chunks = self.chunks + *stored;
                    push_str(&mut l, " (+");
                    push_str(&mut l, decimal_string(*stored as u64).as_str());
                    push_str(&mut l, ")");
                } else {
                    push_str(&mut l, " (nothing stored)");
                }
                l
            },
            FileOutcome::PdfWithoutText => {
                self.errors = self.errors + 1;
                let mut l = "pdf failed: ".to_owned();
                push_str(&mut l, name);
                l
            },
            FileOutcome::ImageStored => {
                self.files = self.files + 1;
                self.chunks = self.chunks + 1;
                let mut l = "image: ".to_owned();
                push_str(&mut l, name);
                l
            },
            FileOutcome::Failed => {
                self.errors = self.errors + 1;
                let mut l = "error: ".to_owned();
                push_str(&mut l, name);
                l
            },
            FileOutcome::Skipped => {
                self.skipped = self.skipped + 1;
                let mut l = "skipped: ".to_owned();
                push_str(&mut l, name);
                l
            },
        }
    }

    /// `Ingested N files (C chunks, S skipped, E errors)`.
    pub fn summary(&self) -> (r: String)
        ensures
            r@ == "Ingested "@ + decimal(self.files as nat) + " files ("@ + decimal(self.chunks as nat)
                + " chunks, "@ + decimal(self.skipped as nat) + " skipped, "@ + decimal(self.errors as nat)
                + " errors)"@,
    {
        let mut s = "Ingested ".to_owned();
        push_str(&mut s, decimal_string(self.files as u64).as_str());
        push_str(&mut s, " files (");
        push_str(&mut s, decimal_string(self.chunks as u64).as_str());
        push_str(&mut s, " chunks, ");
        push_str(&mut s, decimal_string(self.skipped as u64).as_str());
        push_str(&mut s, " skipped, ");
        push_str(&mut s, decimal_string(self.errors as u64).as_str());
        push_str(&mut s, " errors)");
        s
    }
}

/// Most files one ingestion collects.
pub const MAX_INGEST_FILES: usize = 1000;

/// Size in bytes of the chunks documents are split into.
pub const CHUNK_SIZE: usize = 1500;

} // verus!
