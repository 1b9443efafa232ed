use sleepers_researcher::agent::reply_of;
use sleepers_researcher::agent::{
    answer_pieces, compact, extract_json, last_user_query, memory_context, read_reply, registry_has,
    system_prompt, tool_step_text, truncate, turn_text, AgentAction, MemoryHit, ReactLoop, Reply, MAX_STEPS,
};
use sleepers_researcher::backends::{BackendKind, ChatMessage, GeminiBackend, GroqBackend, Router};
use sleepers_researcher::json::Json;
use sleepers_researcher::state::{
    auto_approved, auto_approved_note, chat_note, context_tokens, ingest_note, missing_key_message,
    granted, next_permission_id, session_info, status, try_status, PendingPermissions, Permissions,
};
use sleepers_researcher::tools::registry;

fn conv(n: usize) -> Vec<ChatMessage> {
    (0..n)
        .map(|i| if i % 2 == 0 { ChatMessage::user(format!("u{i}")) } else { ChatMessage::assistant(format!("a{i}")) })
        .collect()
}

#[test]
fn replies_are_classified() {
    match read_reply("{\"thought\":\"t\",\"tool\":\"web_search\",\"args\":{\"query\":\"x\"}}") {
        Reply::Tool { name, args } => {
            assert_eq!(name, "web_search");
            assert_eq!(args.get("query").and_then(|q| q.as_str()), Some("x"));
        }
        _ => panic!("expected a tool call"),
    }
    match read_reply("Here you go:\n{\"answer\":\"done\"}\nThanks") {
        Reply::Answer(a) => assert_eq!(a, "done"),
        _ => panic!("expected an answer"),
    }
    match read_reply("{\"tool\":5}") {
        Reply::Tool { name, args } => {
            assert_eq!(name, "");
            assert!(matches!(args, Json::Object(ref f) if f.is_empty()));
        }
        _ => panic!("expected a tool call"),
    }
    assert!(matches!(read_reply("plain text"), Reply::Raw));
    assert!(matches!(read_reply("{\"other\":1}"), Reply::Raw));
    assert!(extract_json("  {\"a\":1}  ").is_some());
    assert!(extract_json("} {").is_none());
}

#[test]
fn system_prompt_has_tools_and_memory() {
    let tools = registry();
    let p = system_prompt(&tools, "");
    assert!(p.starts_with("You are Sleepers Researcher, a local-first AI research and dev agent using a ReAct loop.\nYou may use these tools:\n- deep_research"));
    assert!(p.ends_with("Only one JSON object per turn."));
    let m = system_prompt(&tools, "facts");
    assert!(m.ends_with("Only one JSON object per turn.\n\n--- MEMORY ---\nfacts"));
}

#[test]
fn react_loop_runs_tools_and_stops_at_the_cap() {
    let tools = registry();
    let mut lp = ReactLoop::new("SYS".to_string(), &conv(3));
    assert_eq!(lp.messages.len(), 4);
    for step in 0..MAX_STEPS {
        assert!(matches!(lp.begin_step(false), AgentAction::AskModel));
        let reply = "{\"tool\":\"recall\",\"args\":{\"query\":\"q\"}}".to_string();
        match lp.on_model_reply(Ok(reply.clone()), &tools) {
            AgentAction::RunTool { name, .. } => assert_eq!(name, "recall"),
            _ => panic!("expected a tool run"),
        }
        lp.on_tool_result(Ok(format!("obs {step}")));
        assert_eq!(lp.steps, step + 1);
        let n = lp.messages.len();
        assert_eq!(lp.messages[n - 2].content, reply);
        assert_eq!(lp.messages[n - 1].content, format!("Observation: obs {step}"));
    }
    match lp.begin_step(false) {
        AgentAction::Finish(a) => assert_eq!(a, "I couldn't complete this within the step limit."),
        _ => panic!("the cap ends the request"),
    }
}

#[test]
fn react_loop_answers_errors_and_unknown_tools() {
    let tools = registry();
    let mut lp = ReactLoop::new("S".to_string(), &conv(30));
    assert_eq!(lp.messages.len(), 25);
    assert_eq!(lp.messages[1].content, "u6");
    match lp.begin_step(true) {
        AgentAction::Finish(a) => assert_eq!(a, "Stopped."),
        _ => panic!("a stop request ends the request"),
    }
    match lp.on_model_reply(Err("HTTP 500".to_string()), &tools) {
        AgentAction::Finish(a) => assert_eq!(a, "[backend error] HTTP 500"),
        _ => panic!("backend errors end the request"),
    }
    match lp.on_model_reply(Ok("{\"tool\":\"teleport\",\"args\":{}}".to_string()), &tools) {
        AgentAction::SkipTool { name, .. } => assert_eq!(name, "teleport"),
        _ => panic!("unknown tools are skipped"),
    }
    assert_eq!(lp.steps, 1);
    assert_eq!(lp.messages.last().unwrap().content, "Observation: unknown tool 'teleport'");
    match lp.on_model_reply(Ok("{\"answer\":\"42\"}".to_string()), &tools) {
        AgentAction::Finish(a) => assert_eq!(a, "42"),
        _ => panic!("answers end the request"),
    }
    match lp.on_model_reply(Ok("just words".to_string()), &tools) {
        AgentAction::Finish(a) => assert_eq!(a, "just words"),
        _ => panic!("raw replies are the answer"),
    }
    let mut lp2 = ReactLoop::new("S".to_string(), &conv(1));
    let _ = lp2.on_model_reply(Ok("{\"tool\":\"shell\",\"args\":{\"command\":\"ls\"}}".to_string()), &tools);
    lp2.on_tool_result(Err("denied by policy".to_string()));
    assert_eq!(lp2.messages.last().unwrap().content, "Observation: error: denied by policy");
    assert!(registry_has(&tools, "shell"));
    assert!(!registry_has(&tools, "teleport"));
}

#[test]
fn answer_streaming_pieces_rebuild_the_answer() {
    assert_eq!(answer_pieces("a bc  d"), vec!["a ", "bc ", " ", "d"]);
    assert_eq!(answer_pieces("end "), vec!["end "]);
    assert!(answer_pieces("").is_empty());
    let text = "The quick  brown fox ";
    assert_eq!(answer_pieces(text).concat(), text);
}

#[test]
fn request_edges() {
    let mut c = conv(3);
    c.push(ChatMessage::assistant("x".to_string()));
    assert_eq!(last_user_query(&c), "u2");
    assert_eq!(last_user_query(&vec![]), "");
    assert_eq!(turn_text("q", "a"), "User: q\nAssistant: a");
    assert_eq!(truncate("abcdef", 2), "ab…");
    assert_eq!(compact("{\"a\":1}"), "{\"a\":1}");
    assert_eq!(tool_step_text("web_search", "{\"query\":\"x\"}"), "web_search  {\"query\":\"x\"}");
    let long = format!("{{\"q\":\"{}\"}}", "z".repeat(200));
    assert_eq!(compact(&long), format!("{}…", &long[..120]));
}

#[test]
fn memory_context_lists_soul_and_relevant_hits() {
    let soul = vec!["likes tea".to_string()];
    let hits = vec![
        MemoryHit {
            kind: "note".into(),
            content: "c".repeat(300),
            source: "s.md".into(),
            score_text: "0.80".into(),
            relevant: true,
        },
        MemoryHit { kind: "doc".into(), content: "low".into(), source: "x".into(), score_text: "0.10".into(), relevant: false },
    ];
    assert_eq!(
        memory_context("query", &soul, &hits),
        format!(
            "What you know about the user (soul):\n- likes tea\n\nRelevant memory (retrieved):\n- [note 0.80] {}… (src: s.md)\n",
            "c".repeat(280)
        )
    );
    assert_eq!(memory_context("", &soul, &hits), "What you know about the user (soul):\n- likes tea\n");
    let low = vec![MemoryHit {
        kind: "doc".into(),
        content: "low".into(),
        source: "x".into(),
        score_text: "0.10".into(),
        relevant: false,
    }];
    assert_eq!(memory_context("q", &vec![], &low), "");
}

#[test]
fn permissions_follow_switches() {
    let default = Permissions::default();
    assert!(!auto_approved(&default, "file_write"));
    assert!(!auto_approved(&default, "code_exec"));
    let yolo = Permissions { yolo: true, auto_file_write: false, auto_code_exec: false };
    assert!(auto_approved(&yolo, "file_write"));
    assert!(auto_approved(&yolo, "anything"));
    let files = Permissions { yolo: false, auto_file_write: true, auto_code_exec: false };
    assert!(auto_approved(&files, "file_write"));
    assert!(!auto_approved(&files, "code_exec"));
    let both = Permissions { yolo: false, auto_file_write: true, auto_code_exec: true };
    assert!(auto_approved(&both, "code_exec"));
    assert!(!auto_approved(&both, "network"));
    assert_eq!(auto_approved_note("code_exec"), "code_exec auto-approved");
    let mut next = 7u64;
    assert_eq!(next_permission_id(&mut next), 7);
    assert_eq!(next_permission_id(&mut next), 8);
    assert_eq!(next, 9);
}

fn router(gemini_key: &str, groq_key: &str, default: Option<&str>) -> Router {
    Router::from_env(
        GeminiBackend::from_env(Some(gemini_key.to_string()), None),
        GroqBackend::from_env(Some(groq_key.to_string()), Some("llama-x".to_string())),
        default.map(|d| d.to_string()),
    )
}

#[test]
fn router_resolves_names_and_defaults() {
    let r = router("gk", "", None);
    assert_eq!(r.backend("GROQ"), BackendKind::Groq);
    assert_eq!(r.backend("gemini"), BackendKind::Gemini);
    assert_eq!(r.backend("ollama"), BackendKind::Gemini);
    assert!(r.is_configured("Gemini"));
    assert!(!r.is_configured("groq"));
    assert!(r.is_configured("other"));
    let g = router("", "k", Some("Groq"));
    assert_eq!(g.backend("unknown"), BackendKind::Groq);
    assert_eq!(g.try_backend("x"), Some(BackendKind::Groq));
    let broken = router("", "", Some("nothing"));
    assert_eq!(broken.try_backend("x"), None);
    assert_eq!(broken.try_backend("groq"), Some(BackendKind::Groq));
    assert!(try_status(&broken, "x", 1, 2).is_none());
    let st = status(&g, "groq", 10, 20);
    assert_eq!(st.backend, "groq");
    assert_eq!(st.model, "llama-x");
    assert_eq!(st.mem_chunks, 10);
    assert_eq!(st.context_tokens, 20);
    let st2 = try_status(&r, "gemini", 0, 0).unwrap();
    assert_eq!(st2.backend, "gemini");
    assert_eq!(st2.model, "gemini-3.1-flash-lite-preview");
}

#[test]
fn sessions_and_context_size() {
    let s = session_info(3, 100, "   ", 3);
    assert_eq!(s.preview, "New chat");
    assert!(s.active);
    let long = "é".repeat(70);
    let t = session_info(4, 1, &long, 3);
    assert_eq!(t.preview, "é".repeat(60));
    assert!(!t.active);
    let msgs = vec![ChatMessage::user("12345678".to_string()), ChatMessage::assistant("abc".to_string())];
    assert_eq!(context_tokens(&msgs), (8 / 4 + 4) + (3 / 4 + 4));
    assert_eq!(context_tokens(&vec![]), 0);
    assert_eq!(chat_note("groq"), "→ groq");
    assert_eq!(missing_key_message("groq"), "No API key configured for groq. Add it to .env and restart.");
    assert_eq!(ingest_note("/docs"), "ingesting /docs…");
}

#[test]
fn documents_are_classified() {
    let call = Json::Object(vec![("tool".to_string(), Json::Str("recall".to_string()))]);
    match reply_of(Some(call)) {
        Reply::Tool { name, args } => {
            assert_eq!(name, "recall");
            assert!(matches!(args, Json::Object(ref f) if f.is_empty()));
        }
        _ => panic!("expected a tool call"),
    }
    let answer = Json::Object(vec![("answer".to_string(), Json::Bool(true))]);
    assert!(matches!(reply_of(Some(answer)), Reply::Answer(ref a) if a.is_empty()));
    assert!(matches!(reply_of(Some(Json::Null)), Reply::Raw));
    assert!(matches!(reply_of(None), Reply::Raw));
}

#[test]
fn pending_permissions_are_registered_and_answered() {
    let mut p = PendingPermissions::new();
    assert_eq!(p.next, 1);
    let a = p.register();
    let b = p.register();
    assert_eq!((a, b), (1, 2));
    assert_eq!(p.ids, vec![1, 2]);
    assert!(p.respond(1));
    assert_eq!(p.ids, vec![2]);
    assert!(!p.respond(1));
    assert!(!p.respond(9));
    assert_eq!(p.register(), 3);
    assert_eq!(p.ids, vec![2, 3]);
    assert!(p.respond(3));
    assert_eq!(p.ids, vec![2]);
    assert_eq!(p.next, 4);
}

#[test]
fn a_request_resolves_to_its_answer_once() {
    let mut p = PendingPermissions::new();
    let a = p.register();
    let b = p.register();
    assert_eq!(p.answer(a, true), Some(true));
    assert_eq!(p.answer(a, false), None);
    assert_eq!(p.answer(b, false), Some(false));
    assert_eq!(p.answer(b, true), None);
    assert_eq!(p.answer(42, true), None);
    assert!(p.ids.is_empty());
    assert!(granted(Some(true)));
    assert!(!granted(Some(false)));
    assert!(!granted(None));
}
