//! PDF creation: a title and body text laid out on paginated A4 pages.

use vstd::prelude::*;
use super::{missing_arg, opt_str, optional_str, required_str, ToolInfo};
use crate::json::Json;
use crate::research::{split_chars, split_on};
use crate::text::{
    byte_len, byte_prefix, byte_take, chars_of, collapsed, is_boundary, join, law_collapse_joins_words,
    push_char, push_str, string_of, utf8_len, words, words_of,
};

verus! {

/// Creates a PDF after confirmation.
pub struct CreatePdfTool;

impl CreatePdfTool {
    /// The tool's name, as the model calls it.
    pub fn name(&self) -> (r: String)
        ensures
            r@ == "create_pdf"@,
    {
        "create_pdf".to_owned()
    }

    /// What the tool does, as shown to the model.
    pub fn description(&self) -> (r: String)
        ensures
            r@ == "Create a PDF from a title and body text (plain text / simple markdown). Provide 'path' (…\\file.pdf), 'title', and 'content'. Requires confirmation."@,
    {
        "Create a PDF from a title and body text (plain text / simple markdown). Provide 'path' (…\\file.pdf), 'title', and 'content'. Requires confirmation.".to_owned()
    }

    /// The tool's arguments, as the JSON text shown to the model.
    pub fn args_hint(&self) -> (r: String)
        ensures
            r@ == "{\"content\":\"body text\",\"path\":\"output .pdf path\",\"title\":\"document title\"}"@,
    {
        "{\"content\":\"body text\",\"path\":\"output .pdf path\",\"title\":\"document title\"}".to_owned()
    }

    /// Whether invoking the tool mutates state (requires confirmation).
    pub fn mutating(&self) -> (r: bool)
        ensures
            r == true,
    {
        true
    }

    /// The tool's registry entry.
    pub fn info(&self) -> (r: ToolInfo)
        ensures
            r.name@ == "create_pdf"@,
            r.description@ == "Create a PDF from a title and body text (plain text / simple markdown). Provide 'path' (…\\file.pdf), 'title', and 'content'. Requires confirmation."@,
            r.args_hint@ == "{\"content\":\"body text\",\"path\":\"output .pdf path\",\"title\":\"document title\"}"@,
            r.mutating == true,
    {
        ToolInfo {
            name: self.name(),
            description: self.description(),
            args_hint: self.args_hint(),
            mutating: self.mutating(),
        }
    }
}


/// The path, title (`Document` when not given) and content of a call, or the
/// error for the first required one missing.
pub open spec fn pdf_args_spec(args: Json) -> Result<(Seq<char>, Seq<char>, Seq<char>), Seq<char>> {
    match opt_str(args, "path"@) {
        None => Err(missing_arg("path"@)),
        Some(path) => match opt_str(args, "content"@) {
            None => Err(missing_arg("content"@)),
            Some(content) => Ok((
                path,
                match opt_str(args, "title"@) {
                    Some(t) => t,
                    None => "Document"@,
                },
                content,
            )),
        },
    }
}

/// The path, title and content of a call.
pub fn pdf_args(args: &Json) -> (r: Result<(String, String, String), String>)
    ensures
        match (r, pdf_args_spec(*args)) {
            (Ok((p, t, c)), Ok((sp, st, sc))) => p@ == sp && t@ == st && c@ == sc,
            (Err(e), Err(se)) => e@ == se,
            _ => false,
        },
{
    let path = match required_str(args, "path") {
        Ok(p) => p,
        Err(e) => return Err(e),
    };
    let title = match optional_str(args, "title") {
        Some(t) => t,
        None => "Document".to_owned(),
    };
    let content = match required_str(args, "content") {
        Ok(c) => c,
        Err(e) => return Err(e),
    };
    Ok((path, title, content))
}

/// The confirmation text of a PDF: path, title and the first 1200 bytes of
/// the content.
pub open spec fn pdf_preview_spec(path: Seq<char>, title: Seq<char>, content: Seq<char>) -> Seq<char> {
    "PDF -> "@ + path + "\ntitle: "@ + title + "\n\n"@ + (if utf8_len(content) > 1200 {
        byte_take(content, 1200)
    } else {
        content
    })
}

/// The confirmation text shown before creating a PDF.
pub fn pdf_preview(path: &str, title: &str, content: &str) -> (r: String)
    requires
        utf8_len(content@) > 1200 ==> is_boundary(content@, 1200),
    ensures
        r@ == pdf_preview_spec(path@, title@, content@),
{
    let mut r = "PDF -> ".to_owned();
    push_str(&mut r, path);
    push_str(&mut r, "\ntitle: ");
    push_str(&mut r, title);
    push_str(&mut r, "\n\n");
    if byte_len(content) > 1200 {
        push_str(&mut r, byte_prefix(content, 1200));
    } else {
        push_str(&mut r, content);
    }
    r
}

/// The observation when the user declines a PDF.
pub fn pdf_denied(path: &str) -> (r: String)
    ensures
        r@ == "DENIED: user declined to create "@ + path@ + "."@,
{
    let mut r = "DENIED: user declined to create ".to_owned();
    push_str(&mut r, path);
    push_str(&mut r, ".");
    r
}

/// The observation after creating a PDF.
pub fn pdf_created(path: &str) -> (r: String)
    ensures
        r@ == "Created PDF at "@ + path@ + "."@,
{
    let mut r = "Created PDF at ".to_owned();
    push_str(&mut r, path);
    push_str(&mut r, ".");
    r
}

/// A character the built-in (Latin-1) fonts can show, `?` otherwise.
pub open spec fn latin1(c: char) -> char {
    if (c as u32) < 256 { c } else { '?' }
}

/// `s` with every character outside Latin-1 replaced by `?`.
pub open spec fn sanitized(s: Seq<char>) -> Seq<char> {
    s.map_values(|c: char| latin1(c))
}

/// Replaces the characters the built-in fonts cannot show with `?`.
pub fn sanitize(s: &str) -> (r: String)
    ensures
        r@ == sanitized(s@),
{
    let cs = chars_of(s);
    let mut out = String::new();
    let mut i: usize = 0;
    while i < cs.len()
        invariant
            i <= cs@.len(),
            cs@ == s@,
            out@ == sanitized(cs@.take(i as int)),
        decreases cs@.len() - i,
    {
        let c = cs[i];
        let d = if (c as u32) < 256 { c } else { '?' };
        push_char(&mut out, d);
        assert(sanitized(cs@.take(i + 1)) =~= sanitized(cs@.take(i as int)).push(latin1(c)));
        i += 1;
    }
    assert(cs@.take(cs@.len() as int) =~= cs@);
    out
}

/// Greedy filling of words into lines: the finished lines and the line being
/// filled. A word goes on a new line when the current one is not empty and
/// it would pass `width` bytes with a separating space.
pub open spec fn fill(ws: Seq<Seq<char>>, width: nat) -> (Seq<Seq<char>>, Seq<char>)
    decreases ws.len(),
{
    if ws.len() == 0 {
        (seq![], seq![])
    } else {
        let prev = fill(ws.drop_last(), width);
        let w = ws.last();
        let (done, cur) = if utf8_len(prev.1) + utf8_len(w) + 1 > width && prev.1.len() > 0 {
            (prev.0.push(prev.1), seq![])
        } else {
            prev
        };
        (done, if cur.len() > 0 { cur + " "@ + w } else { w })
    }
}

/// The lines a text line wraps to at `width` bytes.
pub open spec fn wrap_spec(line: Seq<char>, width: nat) -> Seq<Seq<char>> {
    let st = fill(words(line), width);
    if st.1.len() > 0 { st.0.push(st.1) } else { st.0 }
}

proof fn lemma_fill_joins(ws: Seq<Seq<char>>, width: nat)
    requires
        ws.len() > 0,
        forall|i: int| 0 <= i < ws.len() ==> (#[trigger] ws[i]).len() > 0,
    ensures
        fill(ws, width).1.len() > 0,
        join(fill(ws, width).0.push(fill(ws, width).1), " "@) == join(ws, " "@),
    decreases ws.len(),
{
    reveal_strlit(" ");
    let w = ws.last();
    let q = ws.drop_last();
    assert(q.push(w) =~= ws);
    if q.len() == 0 {
        assert(fill(q, width) == (Seq::<Seq<char>>::empty(), Seq::<char>::empty()));
        assert(fill(ws, width) == (Seq::<Seq<char>>::empty(), w));
        assert(Seq::<Seq<char>>::empty().push(w) =~= ws);
    } else {
        assert forall|i: int| 0 <= i < q.len() implies (#[trigger] q[i]).len() > 0 by {
            assert(q[i] == ws[i]);
        }
        assert(ws[ws.len() - 1] == w);
        lemma_fill_joins(q, width);
        let prev = fill(q, width);
        if utf8_len(prev.1) + utf8_len(w) + 1 > width && prev.1.len() > 0 {
            assert(prev.0.push(prev.1).push(w).drop_last() =~= prev.0.push(prev.1));
            assert(join(prev.0.push(prev.1).push(w), " "@) == join(prev.0.push(prev.1), " "@) + " "@ + w);
            assert(ws.drop_last() =~= q);
        } else if prev.1.len() > 0 {
            let cur = prev.1 + " "@ + w;
            if prev.0.len() == 0 {
                assert(prev.0.push(prev.1) =~= seq![prev.1]);
                assert(prev.0.push(cur) =~= seq![cur]);
            } else {
                assert(prev.0.push(cur).drop_last() =~= prev.0);
                assert(prev.0.push(prev.1).drop_last() =~= prev.0);
                assert(join(prev.0.push(cur), " "@) =~= join(prev.0.push(prev.1), " "@) + " "@ + w);
            }
            assert(ws.drop_last() =~= q);
        }
    }
}

/// Wrapping loses no word and adds none: the lines joined by single spaces
/// are the line with its whitespace collapsed.
pub proof fn law_wrap_keeps_words(line: Seq<char>, width: nat)
    ensures
        join(wrap_spec(line, width), " "@) == collapsed(line),
{
    law_collapse_joins_words(line);
    crate::text::lemma_words_shape(line);
    let ws = words(line);
    if ws.len() > 0 {
        lemma_fill_joins(ws, width);
    } else {
        assert(fill(ws, width).1 =~= Seq::<char>::empty());
        assert(wrap_spec(line, width) =~= Seq::<Seq<char>>::empty());
    }
}

/// Wraps a line of text into lines of at most `width` bytes (a longer word
/// stands alone).
pub fn wrap(line: &str, width: usize) -> (r: Vec<String>)
    ensures
        r@.map_values(|s: String| s@) == wrap_spec(line@, width as nat),
{
    let cs = chars_of(line);
    let ws = words_of(&cs);
    let ghost wv = ws@.map_values(|w: Vec<char>| w@);
    let mut out: Vec<String> = Vec::new();
    let mut cur = String::new();
    let mut i: usize = 0;
    assert(wv.take(0) =~= Seq::<Seq<char>>::empty());
    assert(out@.map_values(|s: String| s@) =~= Seq::<Seq<char>>::empty());
    while i < ws.len()
        invariant
            i <= ws@.len(),
            wv == ws@.map_values(|w: Vec<char>| w@),
            (out@.map_values(|s: String| s@), cur@) == fill(wv.take(i as int), width as nat),
        decreases ws@.len() - i,
    {
        assert(wv.take(i + 1).drop_last() =~= wv.take(i as int));
        assert(wv.take(i + 1).last() == ws@[i as int]@);
        let w = string_of(&ws[i], 0, ws[i].len());
        assert(ws@[i as int]@.subrange(0, ws@[i as int]@.len() as int) =~= ws@[i as int]@);
        let wl = byte_len(w.as_str());
        let cl = byte_len(cur.as_str());
        let ghost before = out@.map_values(|s: String| s@);
        if (wl >= width || cl >= width - wl) && !cur.as_str().is_empty() {
            let done = cur;
            out.push(done);
            cur = String::new();
            assert(out@.map_values(|s: String| s@) =~= before.push(done@));
        }
        if !cur.as_str().is_empty() {
            push_char(&mut cur, ' ');
        }
        proof {
            reveal_strlit(" ");
        }
        push_str(&mut cur, w.as_str());
        i += 1;
    }
    assert(wv.take(ws@.len() as int) =~= wv);
    proof {
        assert(cs@ == line@);
    }
    if !cur.as_str().is_empty() {
        let ghost before = out@.map_values(|s: String| s@);
        let last = cur;
        out.push(last);
        assert(out@.map_values(|s: String| s@) =~= before.push(last@));
    }
    out
}

/// Line width of the body text, in bytes.
pub const WRAP_WIDTH: usize = 95;

/// Height of the first baseline, in tenths of a millimetre.
pub const TOP: i64 = 2770;

/// Lowest baseline before a new page, in tenths of a millimetre.
pub const BOTTOM: i64 = 200;

/// A drawing step of the document, positions in tenths of a millimetre from
/// the bottom of an A4 page, all at 20 mm from the left edge.
pub enum PdfOp {
    /// The title, bold 18 pt, at the top of the first page.
    Heading(String),
    /// A line of body text, 11 pt, at height `y`.
    Line(String, i64),
    /// A new page; drawing continues at the top.
    NewPage,
}

/// A drawing step as plain values.
pub enum OpView {
    Heading(Seq<char>),
    Line(Seq<char>, int),
    NewPage,
}

impl View for PdfOp {
    type V = OpView;

    open spec fn view(&self) -> OpView {
        match self {
            PdfOp::Heading(t) => OpView::Heading(t@),
            PdfOp::Line(t, y) => OpView::Line(t@, *y as int),
            PdfOp::NewPage => OpView::NewPage,
        }
    }
}

/// The steps so far and the next baseline.
pub type LayoutState = (Seq<OpView>, int);

/// Drawing wrapped lines one below the other, 5.5 mm apart, starting a new
/// page before a line that would sit below the bottom margin.
pub open spec fn place_lines(st: LayoutState, ls: Seq<Seq<char>>) -> LayoutState
    decreases ls.len(),
{
    if ls.len() == 0 {
        st
    } else {
        let prev = place_lines(st, ls.drop_last());
        let (ops, y) = if prev.1 < BOTTOM {
            (prev.0.push(OpView::NewPage), TOP as int)
        } else {
            prev
        };
        (ops.push(OpView::Line(ls.last(), y)), y - 55)
    }
}

/// One line of the content: a blank line moves down 5 mm (to a new page
/// below the bottom margin); other lines are wrapped and drawn.
pub open spec fn place_line(st: LayoutState, raw: Seq<char>) -> LayoutState {
    let ls = wrap_spec(raw, WRAP_WIDTH as nat);
    if ls.len() == 0 {
        if st.1 - 50 < BOTTOM {
            (st.0.push(OpView::NewPage), TOP as int)
        } else {
            (st.0, st.1 - 50)
        }
    } else {
        place_lines(st, ls)
    }
}

/// The content's lines laid out one after the other.
pub open spec fn place_all(st: LayoutState, raws: Seq<Seq<char>>) -> LayoutState
    decreases raws.len(),
{
    if raws.len() == 0 {
        st
    } else {
        place_line(place_all(st, raws.drop_last()), raws.last())
    }
}

/// The drawing steps of a document: the title at the top, 12 mm above the
/// first line, then each line of the content, all made Latin-1.
pub open spec fn layout_spec(title: Seq<char>, content: Seq<char>) -> Seq<OpView> {
    place_all(
        (seq![OpView::Heading(sanitized(title))], TOP - 120),
        split_on(sanitized(content), "\n"@),
    ).0
}

/// Draws wrapped lines.
fn place_lines_exec(ops: &mut Vec<PdfOp>, y: &mut i64, ls: &Vec<String>)
    requires
        145 <= *old(y) <= TOP,
    ensures
        145 <= *final(y) <= TOP,
        (final(ops)@.map_values(|o: PdfOp| o@), *final(y) as int) == place_lines(
            (old(ops)@.map_values(|o: PdfOp| o@), *old(y) as int),
            ls@.map_values(|s: String| s@),
        ),
{
    let ghost lv = ls@.map_values(|s: String| s@);
    let ghost st0 = (old(ops)@.map_values(|o: PdfOp| o@), *old(y) as int);
    let mut i: usize = 0;
    assert(lv.take(0) =~= Seq::<Seq<char>>::empty());
    while i < ls.len()
        invariant
            i <= ls@.len(),
            lv == ls@.map_values(|s: String| s@),
            145 <= *y <= TOP,
            (ops@.map_values(|o: PdfOp| o@), *y as int) == place_lines(st0, lv.take(i as int)),
        decreases ls@.len() - i,
    {
        assert(lv.take(i + 1).drop_last() =~= lv.take(i as int));
        let ghost before = ops@.map_values(|o: PdfOp| o@);
        if *y < BOTTOM {
            ops.push(PdfOp::NewPage);
            *y = TOP;
            assert(ops@.map_values(|o: PdfOp| o@) =~= before.push(OpView::NewPage));
        }
        let ghost mid = ops@.map_values(|o: PdfOp| o@);
        let text = ls[i].clone();
        ops.push(PdfOp::Line(text, *y));
        assert(ops@.map_values(|o: PdfOp| o@) =~= mid.push(OpView::Line(lv[i as int], *y as int)));
        *y = *y - 55;
        i += 1;
    }
    assert(lv.take(ls@.len() as int) =~= lv);
}

/// The drawing steps of a document with the given title and content.
pub fn layout(title: &str, content: &str) -> (r: Vec<PdfOp>)
    ensures
        r@.map_values(|o: PdfOp| o@) == layout_spec(title@, content@),
{
    let t = sanitize(title);
    let c = sanitize(content);
    let mut ops: Vec<PdfOp> = Vec::new();
    ops.push(PdfOp::Heading(t));
    let mut y: i64 = TOP - 120;
    let cs = chars_of(c.as_str());
    let nl = chars_of("\n");
    proof {
        reveal_strlit("\n");
    }
    let raws = split_chars(&cs, &nl);
    let ghost rv = raws@.map_values(|v: Vec<char>| v@);
    let ghost st0: LayoutState = (seq![OpView::Heading(sanitized(title@))], TOP - 120);
    assert(ops@.map_values(|o: PdfOp| o@) =~= st0.0);
    assert(rv.take(0) =~= Seq::<Seq<char>>::empty());
    let mut i: usize = 0;
    while i < raws.len()
        invariant
            i <= raws@.len(),
            rv == raws@.map_values(|v: Vec<char>| v@),
            145 <= y <= TOP,
            (ops@.map_values(|o: PdfOp| o@), y as int) == place_all(st0, rv.take(i as int)),
        decreases raws@.len() - i,
    {
        assert(rv.take(i + 1).drop_last() =~= rv.take(i as int));
        let line = string_of(&raws[i], 0, raws[i].len());
        assert(raws@[i as int]@.subrange(0, raws@[i as int]@.len() as int) =~= rv[i as int]);
        let ls = wrap(line.as_str(), WRAP_WIDTH);
        if ls.len() == 0 {
            if y - 50 < BOTTOM {
                let ghost before = ops@.map_values(|o: PdfOp| o@);
                ops.push(PdfOp::NewPage);
                y = TOP;
                assert(ops@.map_values(|o: PdfOp| o@) =~= before.push(OpView::NewPage));
            } else {
                y = y - 50;
            }
        } else {
            place_lines_exec(&mut ops, &mut y, &ls);
        }
        i += 1;
    }
    assert(rv.take(raws@.len() as int) =~= rv);
    ops
}

} // verus!
