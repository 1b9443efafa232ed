use sleepers_researcher::backends::{backend_named, groq_delta_text, BackendKind};
use sleepers_researcher::memory::kind_for_extension;
use sleepers_researcher::backends::{
    concat_strings, gemini_part_texts, gemini_reply_text, gemini_request, gemini_stream_deltas, groq_messages,
    groq_reply_text, groq_stream_deltas, ChatMessage, SseBuffer,
};
use sleepers_researcher::json::{Json, JsonNumber};
use sleepers_researcher::memory::{
    chunk_text, classify, extension, has_text, image_label, image_memory, skip_dir, FileKind, FileOutcome, IngestReport,
    CHUNK_SIZE,
};

fn s(x: &str) -> Json {
    Json::Str(x.to_string())
}

fn obj(fields: Vec<(&str, Json)>) -> Json {
    Json::Object(fields.into_iter().map(|(k, v)| (k.to_string(), v)).collect())
}

#[test]
fn gemini_request_splits_system_and_turns() {
    let msgs = vec![
        ChatMessage::system("sys".to_string()),
        ChatMessage::user("hi".to_string()),
        ChatMessage::assistant("hello".to_string()),
        ChatMessage { role: "tool".to_string(), content: "obs".to_string() },
    ];
    let r = gemini_request(&msgs);
    assert_eq!(r.system, vec!["sys".to_string()]);
    let turns: Vec<(&str, &str)> = r.contents.iter().map(|t| (t.role.as_str(), t.text.as_str())).collect();
    assert_eq!(turns, vec![("user", "hi"), ("model", "hello"), ("user", "obs")]);
    let g = groq_messages(&msgs);
    let roles: Vec<&str> = g.iter().map(|(r, _)| r.as_str()).collect();
    assert_eq!(roles, vec!["system", "user", "assistant", "tool"]);
    let odd = groq_messages(&vec![ChatMessage { role: "critic".to_string(), content: "c".to_string() }]);
    assert_eq!(odd[0], ("user".to_string(), "c".to_string()));
}

#[test]
fn replies_are_read() {
    let gem = obj(vec![(
        "candidates",
        Json::Array(vec![obj(vec![(
            "content",
            obj(vec![("parts", Json::Array(vec![obj(vec![("text", s("Hel"))]), obj(vec![]), obj(vec![("text", s("lo"))])]))]),
        )])]),
    )]);
    assert_eq!(gemini_part_texts(&gem), vec!["Hel".to_string(), "lo".to_string()]);
    assert_eq!(gemini_reply_text(&gem), "Hello");
    assert_eq!(gemini_reply_text(&obj(vec![])), "");
    let groq = obj(vec![(
        "choices",
        Json::Array(vec![obj(vec![("message", obj(vec![("content", s("answer"))]))])]),
    )]);
    assert_eq!(groq_reply_text(&groq), "answer");
    assert_eq!(concat_strings(&vec!["a".into(), "b".into()]), "ab");
}

#[test]
fn stream_payloads_give_deltas() {
    assert_eq!(groq_stream_deltas("{\"choices\":[{\"delta\":{\"content\":\"Hi\"}}]}"), vec!["Hi".to_string()]);
    assert!(groq_stream_deltas("[DONE]").is_empty());
    assert!(groq_stream_deltas("{\"choices\":[{\"delta\":{}}]}").is_empty());
    assert!(groq_stream_deltas("not json").is_empty());
    assert_eq!(
        gemini_stream_deltas("{\"candidates\":[{\"content\":{\"parts\":[{\"text\":\"a\"},{\"text\":\"b\"}]}}]}"),
        vec!["a".to_string(), "b".to_string()]
    );
    assert!(gemini_stream_deltas("{}").is_empty());
}

#[test]
fn sse_buffer_handles_split_lines() {
    let mut b = SseBuffer::new();
    assert!(b.feed("data: {\"x\"").is_empty());
    assert_eq!(b.pending, "data: {\"x\"");
    assert_eq!(b.feed(":1}\n\ndata: [DONE]\n: comment\ndata:   \n"), vec!["{\"x\":1}".to_string(), "[DONE]".to_string()]);
    assert_eq!(b.pending, "");
    assert_eq!(b.feed("data: tail"), Vec::<String>::new());
    assert_eq!(b.pending, "data: tail");
}

#[test]
fn sse_chunking_does_not_matter() {
    let stream = "data: one\ndata: two\r\n\nevent: x\ndata: three\npartial";
    let mut whole = SseBuffer::new();
    let all = whole.feed(stream);
    for cut in 0..stream.len() {
        if !stream.is_char_boundary(cut) {
            continue;
        }
        let mut b = SseBuffer::new();
        let mut got = b.feed(&stream[..cut]);
        got.extend(b.feed(&stream[cut..]));
        assert_eq!(got, all);
        assert_eq!(b.pending, whole.pending);
    }
    assert_eq!(all, vec!["one".to_string(), "two".to_string(), "three".to_string()]);
    assert_eq!(whole.pending, "partial");
}

#[test]
fn files_are_classified_by_extension() {
    assert!(matches!(classify("notes.MD"), FileKind::Text));
    assert!(matches!(classify("a.tar.rs"), FileKind::Text));
    assert!(matches!(classify("pic.JPEG"), FileKind::Image(ref m) if m == "image/jpeg"));
    assert!(matches!(classify("pic.png"), FileKind::Image(ref m) if m == "image/png"));
    assert!(matches!(classify("doc.pdf"), FileKind::Pdf));
    assert!(matches!(classify("movie.mp4"), FileKind::Skip));
    assert!(matches!(classify(".bashrc"), FileKind::Skip));
    assert!(matches!(classify("Makefile"), FileKind::Skip));
    assert_eq!(extension("a.b.c"), Some("c".to_string()));
    assert_eq!(extension("trailing."), Some("".to_string()));
    assert_eq!(extension(".hidden"), None);
    assert_eq!(extension(".."), None);
    assert!(skip_dir("node_modules") && skip_dir(".git") && skip_dir("target") && skip_dir("dist") && skip_dir(".venv"));
    assert!(!skip_dir("src"));
}

#[test]
fn chunks_hold_whole_words() {
    assert_eq!(chunk_text("aa bb cc", 6), vec!["aa bb ".to_string(), "cc ".to_string()]);
    assert_eq!(chunk_text("   \n ", 10), Vec::<String>::new());
    assert_eq!(chunk_text("hugeword x", 3), vec!["hugeword ".to_string(), "x ".to_string()]);
    let text = "lorem ipsum dolor sit amet consectetur adipiscing elit sed do eiusmod";
    for size in [1usize, 8, 20, CHUNK_SIZE] {
        let chunks = chunk_text(text, size);
        let expected: String = text.split_whitespace().map(|w| format!("{w} ")).collect();
        assert_eq!(chunks.concat(), expected);
    }
}

#[test]
fn images_and_reports() {
    let (b64, label) = image_memory(b"hello", "pic.png");
    assert_eq!(b64, "aGVsbG8=");
    assert_eq!(label, "[image] pic.png");
    assert_eq!(image_label("x"), "[image] x");
    assert!(has_text(" a "));
    assert!(!has_text(" \n"));
    let mut r = IngestReport::new();
    let doc = |label: &str, stored: usize, failed: usize| FileOutcome::Document { label: label.to_string(), stored, failed };
    assert_eq!(r.record("a.md", &doc("text", 3, 1)), "text: a.md (+3)");
    assert_eq!(r.record("b.pdf", &doc("pdf", 0, 2)), "pdf: b.pdf (nothing stored)");
    assert_eq!(r.record("x.txt", &FileOutcome::Failed), "error: x.txt");
    assert_eq!(r.record("c.pdf", &FileOutcome::PdfWithoutText), "pdf failed: c.pdf");
    assert_eq!(r.record("d.png", &FileOutcome::ImageStored), "image: d.png");
    assert_eq!(r.record("e.mp4", &FileOutcome::Skipped), "skipped: e.mp4");
    assert_eq!((r.files, r.chunks, r.skipped, r.errors), (2, 4, 1, 5));
    assert_eq!(r.summary(), "Ingested 2 files (4 chunks, 1 skipped, 5 errors)");
    let _ = JsonNumber { int: None, text: "1.5".to_string() };
}

#[test]
fn parsed_values_are_read() {
    let delta = obj(vec![(
        "choices",
        Json::Array(vec![obj(vec![("delta", obj(vec![("content", s("tok"))]))])]),
    )]);
    assert_eq!(groq_delta_text(&delta), Some("tok".to_string()));
    assert_eq!(groq_delta_text(&obj(vec![("choices", Json::Array(vec![]))])), None);
    assert_eq!(backend_named("groq"), Some(BackendKind::Groq));
    assert_eq!(backend_named("gemini"), Some(BackendKind::Gemini));
    assert_eq!(backend_named("Groq"), None);
    assert!(matches!(kind_for_extension("yml"), FileKind::Text));
    assert!(matches!(kind_for_extension("webp"), FileKind::Image(ref m) if m == "image/webp"));
    assert!(matches!(kind_for_extension("PDF"), FileKind::Skip));
    assert!(matches!(kind_for_extension(""), FileKind::Skip));
}

#[test]
fn base64_pads_and_uses_the_standard_alphabet() {
    assert_eq!(image_memory(&[0xfb, 0xff], "a").0, "+/8=");
    assert_eq!(image_memory(&[0], "a").0, "AA==");
    assert_eq!(image_memory(&[], "a").0, "");
    assert_eq!(image_memory(b"abc", "a").0, "YWJj");
}

#[test]
fn records_fit_until_a_counter_would_overflow() {
    let r = IngestReport::new();
    assert!(r.can_record(&FileOutcome::Skipped));
    assert!(r.can_record(&FileOutcome::Document { label: "text".to_string(), stored: 5, failed: 2 }));
    let full = IngestReport { files: usize::MAX, chunks: 0, skipped: usize::MAX, errors: 0 };
    assert!(!full.can_record(&FileOutcome::Skipped));
    assert!(!full.can_record(&FileOutcome::ImageStored));
    assert!(full.can_record(&FileOutcome::Failed));
    assert!(full.can_record(&FileOutcome::Document { label: "pdf".to_string(), stored: 0, failed: 1 }));
    assert!(!full.can_record(&FileOutcome::Document { label: "pdf".to_string(), stored: 1, failed: 0 }));
}

#[test]
fn chunks_are_shaped() {
    let text = "alpha beta gamma delta epsilon zeta eta theta iota kappa lambda";
    for size in [1usize, 5, 12, 30] {
        for c in chunk_text(text, size) {
            assert!(!c.is_empty());
            assert!(c.ends_with(' '));
            assert!(c.len() <= size || !c[..c.len() - 1].contains(char::is_whitespace));
        }
    }
    assert!(chunk_text(" \t\n ", 4).is_empty());
    assert!(chunk_text("", 4).is_empty());
}
