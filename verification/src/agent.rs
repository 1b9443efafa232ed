//! The ReAct agent: the system prompt, reading the model's JSON reply, and
//! the step machine that alternates model calls and tool runs until an
//! answer, a stop request, or the step cap. The application performs each
//! action (calling the model, running the tool, streaming the answer) and
//! reports the outcome back.

use vstd::prelude::*;
use crate::backends::ChatMessage;
use crate::json::{json_parse, json_text, parse_json, to_json_text, Json};
use crate::text::{
    byte_len, chars_of, cut_bytes, cut_bytes_str, find, find_from, find_from_exec, is_boundary, push_str, rfind,
    rfind_before, rfind_exec, str_eq, string_of, trim, trim_str, utf8_len, occurs_at, lemma_find_from_some,
};
use crate::tools::{tools_prompt, tools_prompt_spec, ToolInfo};

verus! {

/// Most model calls one request may make.
pub const MAX_STEPS: usize = 6;

/// Most recent conversation turns sent to the model each request.
pub const MAX_HISTORY: usize = 24;

// ------------------------------------------------------------------ prompt

/// The opening of the system prompt, before the tool list.
pub open spec fn prompt_head() -> Seq<char> {
    "You are Sleepers Researcher, a local-first AI research and dev agent using a ReAct loop.\nYou may use these tools:\n"@
}

/// The rules of the system prompt, after the tool list.
pub open spec fn prompt_rules() -> Seq<char> {
    "\nOn each turn respond with EXACTLY ONE JSON object and nothing else.\nTo call a tool: {\"thought\":\"why\",\"tool\":\"<name>\",\"args\":{...}}\nWhen you can answer the user: {\"thought\":\"why\",\"answer\":\"<final answer>\"}\nRules: for deep research, web_search to find sources, then web_fetch the most promising URLs to read full page content, and cross-reference several sources before answering — do not rely on snippets alone. Use arxiv for papers. Use the shell tool to run scripts/tooling on the PC and create_pdf to produce PDF reports. Read files before writing them. Use recall to look up past context, and remember to save durable facts the user shares about themselves, their projects, goals, or preferences (store those with kind \"soul\"). Be efficient: don't call tools you don't need. Keep answers precise and technical. Never wrap the JSON in markdown fences. Only one JSON object per turn."@
}

/// The system prompt: head, tool list, rules, and the memory block when
/// there is memory context.
pub open spec fn system_prompt_spec(tools: Seq<ToolInfo>, memory_ctx: Seq<char>) -> Seq<char> {
    prompt_head() + tools_prompt_spec(tools) + prompt_rules() + (if memory_ctx.len() > 0 {
        "\n\n--- MEMORY ---\n"@ + memory_ctx
    } else {
        seq![]
    })
}

/// Builds the system prompt.
pub fn system_prompt(tools: &Vec<ToolInfo>, memory_ctx: &str) -> (r: String)
    ensures
        r@ == system_prompt_spec(tools@, memory_ctx@),
{
    let mut p = "You are Sleepers Researcher, a local-first AI research and dev agent using a ReAct loop.\nYou may use these tools:\n".to_owned();
    push_str(&mut p, tools_prompt(tools).as_str());
    push_str(&mut p, "\nOn each turn respond with EXACTLY ONE JSON object and nothing else.\nTo call a tool: {\"thought\":\"why\",\"tool\":\"<name>\",\"args\":{...}}\nWhen you can answer the user: {\"thought\":\"why\",\"answer\":\"<final answer>\"}\nRules: for deep research, web_search to find sources, then web_fetch the most promising URLs to read full page content, and cross-reference several sources before answering — do not rely on snippets alone. Use arxiv for papers. Use the shell tool to run scripts/tooling on the PC and create_pdf to produce PDF reports. Read files before writing them. Use recall to look up past context, and remember to save durable facts the user shares about themselves, their projects, goals, or preferences (store those with kind \"soul\"). Be efficient: don't call tools you don't need. Keep answers precise and technical. Never wrap the JSON in markdown fences. Only one JSON object per turn.");
    if !memory_ctx.is_empty() {
        push_str(&mut p, "\n\n--- MEMORY ---\n");
        push_str(&mut p, memory_ctx);
    } else {
        assert(p@ + Seq::<char>::empty() =~= p@);
    }
    p
}

// ------------------------------------------------------------------ helpers

/// `s` cut to `n` bytes with `…` appended, when longer.
pub fn truncate(s: &str, n: usize) -> (r: String)
    requires
        utf8_len(s@) > n ==> is_boundary(s@, n as int),
    ensures
        r@ == cut_bytes(s@, n as int, "…"@),
{
    cut_bytes_str(s, n, "…")
}

/// The JSON text of tool arguments cut to 120 bytes for the activity log.
pub fn compact(json_text: &str) -> (r: String)
    requires
        utf8_len(json_text@) > 120 ==> is_boundary(json_text@, 120),
    ensures
        r@ == cut_bytes(json_text@, 120, "…"@),
{
    cut_bytes_str(json_text, 120, "…")
}

/// The line shown for a tool step: the tool's name, two spaces, and its
/// arguments' JSON text cut to 120 bytes.
pub fn tool_step_text(name: &str, args_json: &str) -> (r: String)
    requires
        utf8_len(args_json@) > 120 ==> is_boundary(args_json@, 120),
    ensures
        r@ == name@ + "  "@ + cut_bytes(args_json@, 120, "…"@),
{
    let mut r = name.to_owned();
    push_str(&mut r, "  ");
    push_str(&mut r, compact(args_json).as_str());
    r
}

/// The line shown for a tool step, made from the arguments' JSON text, or
/// `None` when that text is longer than 120 bytes and byte 120 falls inside
/// a character (where cutting it is not defined).
pub fn tool_step_line(name: &str, args: &Json) -> (r: Option<String>)
    ensures
        r is Some <==> (utf8_len(json_text(*args)) > 120 ==> is_boundary(json_text(*args), 120)),
        r matches Some(l) ==> l@ == name@ + "  "@ + cut_bytes(json_text(*args), 120, "…"@),
{
    let text = to_json_text(args);
    if byte_len(text.as_str()) <= 120 || text.as_str().is_char_boundary(120) {
        Some(tool_step_text(name, text.as_str()))
    } else {
        None
    }
}

/// The JSON document in a model reply: the whole trimmed reply, or else the
/// text from its first `{` to its last `}`.
pub open spec fn extract_json_spec(s: Seq<char>) -> Option<Json> {
    let t = trim(s);
    match json_parse(t) {
        Some(v) => Some(v),
        None => match (find(t, "{"@), rfind(t, "}"@)) {
            (Some(a), Some(b)) => if a < b && b < t.len() {
                json_parse(t.subrange(a, b + 1))
            } else {
                None
            },
            _ => None,
        },
    }
}

/// Finds the JSON document in a model reply.
pub fn extract_json(s: &str) -> (r: Option<Json>)
    ensures
        r == extract_json_spec(s@),
{
    let trimmed = trim_str(s);
    match parse_json(trimmed.as_str()) {
        Some(v) => Some(v),
        None => {
            let tc = chars_of(trimmed.as_str());
            let start = match find_from_exec(&tc, &chars_of("{"), 0) {
                Some(a) => a,
                None => { return None; },
            };
            let end = match rfind_exec(&tc, &chars_of("}")) {
                Some(b) => b,
                None => { return None; },
            };
            if start < end && end < tc.len() {
                let inner = string_of(&tc, start, end + 1);
                parse_json(inner.as_str())
            } else {
                None
            }
        },
    }
}

/// A one-character pattern occurs exactly where that character stands.
proof fn lemma_occurs_char(h: Seq<char>, c: char, i: int)
    ensures
        occurs_at(h, seq![c], i) <==> (0 <= i < h.len() && h[i] == c),
{
    if 0 <= i < h.len() {
        if h[i] == c {
            assert(h.subrange(i, i + 1) =~= seq![c]);
        } else {
            assert(h.subrange(i, i + 1)[0] == h[i]);
        }
    }
}

/// The first occurrence of a character is found.
proof fn lemma_find_char_first(h: Seq<char>, c: char, k: int)
    requires
        0 <= k < h.len(),
        h[k] == c,
        forall|j: int| 0 <= j < k ==> h[j] != c,
    ensures
        find(h, seq![c]) == Some(k),
{
    lemma_find_from_some(h, seq![c], 0);
    lemma_occurs_char(h, c, k);
    match find_from(h, seq![c], 0) {
        Some(i) => {
            lemma_occurs_char(h, c, i);
            if i < k {
                assert(h[i] != c);
            }
            if i > k {
                assert(!occurs_at(h, seq![c], k));
            }
        },
        None => {
            assert(!occurs_at(h, seq![c], k));
        },
    }
}

/// The last occurrence of a character before `end` is found.
proof fn lemma_rfind_char_last(h: Seq<char>, c: char, k: int, end: int)
    requires
        0 <= k < end <= h.len() + 1,
        k < h.len(),
        h[k] == c,
        forall|j: int| k < j < h.len() ==> h[j] != c,
    ensures
        rfind_before(h, seq![c], end) == Some(k),
    decreases end,
{
    lemma_occurs_char(h, c, end - 1);
    if end - 1 != k {
        if end - 1 < h.len() {
            assert(h[end - 1] != c);
        }
        assert(!occurs_at(h, seq![c], end - 1));
        lemma_rfind_char_last(h, c, k, end - 1);
        assert(rfind_before(h, seq![c], end) == rfind_before(h, seq![c], end - 1));
    } else {
        assert(occurs_at(h, seq![c], end - 1));
    }
}

/// A JSON object wrapped in prose is found: when the trimmed reply is some
/// text without `{`, then a `{`...`}` span, then text without `}`, and the
/// whole reply is not JSON, the document read is the span's, nested braces
/// inside the span included.
pub proof fn law_json_found_in_prose(s: Seq<char>, before: Seq<char>, doc: Seq<char>, after: Seq<char>)
    requires
        trim(s) == before + doc + after,
        json_parse(trim(s)) is None,
        !before.contains('{'),
        !after.contains('}'),
        doc.len() >= 2,
        doc[0] == '{',
        doc[doc.len() - 1] == '}',
    ensures
        extract_json_spec(s) == json_parse(doc),
{
    reveal_strlit("{");
    reveal_strlit("}");
    let t = trim(s);
    let a = before.len() as int;
    let b = a + doc.len() - 1;
    assert("{"@ =~= seq!['{']);
    assert("}"@ =~= seq!['}']);
    assert(t[a] == '{');
    assert forall|j: int| 0 <= j < a implies t[j] != '{' by {
        assert(t[j] == before[j]);
    }
    lemma_find_char_first(t, '{', a);
    assert(t[b] == '}');
    assert forall|j: int| b < j < t.len() implies t[j] != '}' by {
        assert(t[j] == after[j - b - 1]);
    }
    lemma_rfind_char_last(t, '}', b, t.len() as int + 1);
    assert(t.subrange(a, b + 1) =~= doc);
}

/// What a model reply asks for.
pub enum Reply {
    /// A tool call: the tool's name and its arguments.
    Tool { name: String, args: Json },
    /// A final answer.
    Answer(String),
    /// Not a recognisable JSON reply: the raw text is the answer.
    Raw,
}

/// `args` are the arguments of the tool call `v`: its `args` member, or an
/// empty object when it has none.
pub open spec fn is_call_args(v: Json, args: Json) -> bool {
    match v.get_spec("args"@) {
        Some(a) => args == a,
        None => args matches Json::Object(f) && f@.len() == 0,
    }
}

/// What a reply's JSON document asks for: a document with a `tool` member
/// is a tool call (name `""` when the member is not a string), one with an
/// `answer` member is the answer, anything else is the raw text.
pub open spec fn reply_kind_of(doc: Option<Json>) -> Option<(bool, Seq<char>)> {
    match doc {
        Some(v) => if v.get_spec("tool"@) is Some {
            Some((true, v.str_or_empty("tool"@)))
        } else if v.get_spec("answer"@) is Some {
            Some((false, v.str_or_empty("answer"@)))
        } else {
            None
        },
        None => None,
    }
}

/// What a model reply asks for.
pub open spec fn reply_kind(resp: Seq<char>) -> Option<(bool, Seq<char>)> {
    reply_kind_of(extract_json_spec(resp))
}

/// Classifies the JSON document found in a model reply.
pub fn reply_of(doc: Option<Json>) -> (r: Reply)
    ensures
        match r {
            Reply::Tool { name, args } => reply_kind_of(doc) == Some((true, name@)) && is_call_args(
                doc->Some_0,
                args,
            ),
            Reply::Answer(a) => reply_kind_of(doc) == Some((false, a@)),
            Reply::Raw => reply_kind_of(doc) is None,
        },
{
    match doc {
        Some(v) => {
            if v.get("tool").is_some() {
                let name = v.str_field("tool");
                let args = match v.into_member("args") {
                    Some(a) => a,
                    None => Json::Object(Vec::new()),
                };
                Reply::Tool { name, args }
            } else if v.get("answer").is_some() {
                Reply::Answer(v.str_field("answer"))
            } else {
                Reply::Raw
            }
        },
        None => Reply::Raw,
    }
}

/// Classifies a model reply.
pub fn read_reply(resp: &str) -> (r: Reply)
    ensures
        match r {
            Reply::Tool { name, args } => reply_kind(resp@) == Some((true, name@))
                && is_call_args(extract_json_spec(resp@)->Some_0, args),
            Reply::Answer(a) => reply_kind(resp@) == Some((false, a@)),
            Reply::Raw => reply_kind(resp@) is None,
        },
{
    reply_of(extract_json(resp))
}

// ------------------------------------------------------------------ step machine

/// The answer when the step cap is reached without one.
pub open spec fn step_limit_answer() -> Seq<char> {
    "I couldn't complete this within the step limit."@
}

/// The answer when the user stopped the agent.
pub open spec fn stopped_answer() -> Seq<char> {
    "Stopped."@
}

/// The most recent `MAX_HISTORY` messages of a conversation.
pub open spec fn history_window(conv: Seq<ChatMessage>) -> Seq<ChatMessage> {
    if conv.len() > MAX_HISTORY {
        conv.skip(conv.len() - MAX_HISTORY)
    } else {
        conv
    }
}

/// Whether the registry has a tool of this name.
pub open spec fn has_tool(tools: Seq<ToolInfo>, name: Seq<char>) -> bool {
    exists|i: int| 0 <= i < tools.len() && #[trigger] tools[i].name@ == name
}

/// The observation fed back for a tool that is not in the registry.
pub open spec fn unknown_tool_note(name: Seq<char>) -> Seq<char> {
    "unknown tool '"@ + name + "'"@
}

/// The observation fed back for a tool run.
pub open spec fn observation(res: Result<String, String>) -> Seq<char> {
    match res {
        Ok(o) => o@,
        Err(e) => "error: "@ + e@,
    }
}

/// What the application does next.
pub enum AgentAction {
    /// Call the model with the current messages.
    AskModel,
    /// Log the call, run the named tool with these arguments, report its result.
    RunTool { name: String, args: Json },
    /// Log the call of a tool that does not exist (its observation is already
    /// recorded), then start the next step.
    SkipTool { name: String, args: Json },
    /// The request is over with this answer.
    Finish(String),
}

/// State of one agent request.
pub struct ReactLoop {
    /// Messages sent to the model: the system prompt, recent history, then
    /// each tool round's reply and observation.
    pub messages: Vec<ChatMessage>,
    /// Tool rounds completed.
    pub steps: usize,
    /// The model reply whose tool call is running.
    pub pending: Option<String>,
}

impl ReactLoop {
    /// The state invariant: at most `MAX_STEPS` rounds, and a tool runs only
    /// within the cap.
    pub open spec fn wf(self) -> bool {
        self.steps <= MAX_STEPS && (self.pending is Some ==> self.steps < MAX_STEPS)
    }

    /// The start of a request: the system prompt then the recent history.
    pub fn new(system: String, conversation: &Vec<ChatMessage>) -> (r: Self)
        ensures
            r.wf(),
            r.steps == 0,
            r.pending is None,
            r.messages@.len() == history_window(conversation@).len() + 1,
            r.messages@[0].role@ == "system"@,
            r.messages@[0].content == system,
            r.messages@.drop_first() == history_window(conversation@),
    {
        let mut messages: Vec<ChatMessage> = Vec::new();
        messages.push(ChatMessage::system(system));
        let n = conversation.len();
        let start = if n > MAX_HISTORY { n - MAX_HISTORY } else { 0 };
        let mut i = start;
        assert(conversation@.skip(0) =~= conversation@);
        while i < n
            invariant
                n == conversation@.len(),
                start <= i <= n,
                messages@.len() == 1 + (i - start),
                messages@[0].role@ == "system"@,
                messages@[0].content == system,
                messages@.drop_first() == conversation@.subrange(start as int, i as int),
            decreases n - i,
        {
            let m = conversation[i].duplicate();
            let ghost before = messages@;
            messages.push(m);
            assert(messages@.drop_first() =~= before.drop_first().push(m));
            assert(conversation@.subrange(start as int, i + 1) =~= conversation@.subrange(
                start as int,
                i as int,
            ).push(conversation@[i as int]));
            i += 1;
        }
        assert(conversation@.subrange(start as int, n as int) =~= history_window(conversation@));
        ReactLoop { messages, steps: 0, pending: None }
    }

    /// The start of a step: the cap ends the request, then a stop request,
    /// otherwise the model is asked.
    pub fn begin_step(&self, cancelled: bool) -> (a: AgentAction)
        requires
            self.wf(),
            self.pending is None,
        ensures
            self.steps >= MAX_STEPS ==> (a matches AgentAction::Finish(s) && s@ == step_limit_answer()),
            self.steps < MAX_STEPS && cancelled ==> (a matches AgentAction::Finish(s) && s@
                == stopped_answer()),
            self.steps < MAX_STEPS && !cancelled ==> a is AskModel,
    {
        if self.steps >= MAX_STEPS {
            AgentAction::Finish("I couldn't complete this within the step limit.".to_owned())
        } else if cancelled {
            AgentAction::Finish("Stopped.".to_owned())
        } else {
            AgentAction::AskModel
        }
    }

    /// The model answered (or failed): a backend error or an answer ends the
    /// request; a call of a registered tool runs it; a call of an unknown
    /// tool is answered with a note and ends the step.
    pub fn on_model_reply(&mut self, reply: Result<String, String>, tools: &Vec<ToolInfo>) -> (a: AgentAction)
        requires
            old(self).wf(),
            old(self).pending is None,
            old(self).steps < MAX_STEPS,
        ensures
            final(self).wf(),
            reply matches Err(e) ==> (a matches AgentAction::Finish(s) && s@ == "[backend error] "@ + e@)
                && *final(self) == *old(self),
            reply matches Ok(resp) ==> (reply_kind(resp@) is None ==> (a matches AgentAction::Finish(s)
                && s == resp) && *final(self) == *old(self)),
            reply matches Ok(resp) ==> (reply_kind(resp@) matches Some((false, ans)) ==> (
            a matches AgentAction::Finish(s) && s@ == ans) && *final(self) == *old(self)),
            reply matches Ok(resp) ==> (reply_kind(resp@) matches Some((true, name)) ==> (match a {
                AgentAction::RunTool { name: n, args } => n@ == name && is_call_args(
                    extract_json_spec(resp@)->Some_0,
                    args,
                ) && has_tool(tools@, name) && final(self).pending == Some(resp)
                    && final(self).steps == old(self).steps && final(self).messages == old(self).messages,
                AgentAction::SkipTool { name: n, args } => n@ == name && is_call_args(
                    extract_json_spec(resp@)->Some_0,
                    args,
                ) && !has_tool(tools@, name) && final(self).pending is None && final(self).steps == old(
                    self,
                ).steps + 1 && final(self).messages@.len() == old(self).messages@.len() + 2
                    && final(self).messages@.take(old(self).messages@.len() as int) == old(self).messages@
                    && final(self).messages@[old(self).messages@.len() as int].role@ == "assistant"@
                    && final(self).messages@[old(self).messages@.len() as int].content == resp
                    && final(self).messages@.last().role@ == "user"@
                    && final(self).messages@.last().content@ == "Observation: "@ + unknown_tool_note(name),
                _ => false,
            })),
    {
        match reply {
            Err(e) => {
                let mut s = "[backend error] ".to_owned();
                push_str(&mut s, e.as_str());
                AgentAction::Finish(s)
            },
            Ok(resp) => match read_reply(resp.as_str()) {
                Reply::Tool { name, args } => {
                    if registry_has(tools, name.as_str()) {
                        self.pending = Some(resp);
                        AgentAction::RunTool { name, args }
                    } else {
                        let mut note = "Observation: ".to_owned();
                        push_str(&mut note, "unknown tool '");
                        push_str(&mut note, name.as_str());
                        push_str(&mut note, "'");
                        let ghost before = self.messages@;
                        self.messages.push(ChatMessage::assistant(resp));
                        self.messages.push(ChatMessage::user(note));
                        self.steps = self.steps + 1;
                        assert(self.messages@.take(before.len() as int) =~= before);
                        AgentAction::SkipTool { name, args }
                    }
                },
                Reply::Answer(a) => AgentAction::Finish(a),
                Reply::Raw => AgentAction::Finish(resp),
            },
        }
    }

    /// The running tool finished: its reply and observation are added and
    /// the step is done.
    pub fn on_tool_result(&mut self, res: Result<String, String>)
        requires
            old(self).wf(),
            old(self).pending is Some,
        ensures
            final(self).wf(),
            final(self).pending is None,
            final(self).steps == old(self).steps + 1,
            final(self).messages@.len() == old(self).messages@.len() + 2,
            final(self).messages@.take(old(self).messages@.len() as int) == old(self).messages@,
            final(self).messages@[old(self).messages@.len() as int].role@ == "assistant"@,
            final(self).messages@[old(self).messages@.len() as int].content == old(self).pending->Some_0,
            final(self).messages@.last().role@ == "user"@,
            final(self).messages@.last().content@ == "Observation: "@ + observation(res),
    {
        let resp = match self.pending.take() {
            Some(r) => r,
            None => String::new(),
        };
        let mut note = "Observation: ".to_owned();
        match res {
            Ok(o) => push_str(&mut note, o.as_str()),
            Err(e) => {
                push_str(&mut note, "error: ");
                push_str(&mut note, e.as_str());
            },
        }
        let ghost before = self.messages@;
        self.messages.push(ChatMessage::assistant(resp));
        self.messages.push(ChatMessage::user(note));
        self.steps = self.steps + 1;
        assert(self.messages@.take(before.len() as int) =~= before);
    }
}

/// Whether the registry has a tool of this name.
pub fn registry_has(tools: &Vec<ToolInfo>, name: &str) -> (r: bool)
    ensures
        r == has_tool(tools@, name@),
{
    let mut i: usize = 0;
    while i < tools.len()
        invariant
            i <= tools@.len(),
            forall|j: int| 0 <= j < i ==> #[trigger] tools@[j].name@ != name@,
        decreases tools@.len() - i,
    {
        if str_eq(tools[i].name.as_str(), name) {
            return true;
        }
        i += 1;
    }
    false
}

// ------------------------------------------------------------------ request edges

/// The content of the last user message, or empty.
pub open spec fn last_user_query_spec(conv: Seq<ChatMessage>) -> Seq<char>
    decreases conv.len(),
{
    if conv.len() == 0 {
        seq![]
    } else if conv.last().role@ == "user"@ {
        conv.last().content@
    } else {
        last_user_query_spec(conv.drop_last())
    }
}

/// The user query just added to the conversation.
pub fn last_user_query(conv: &Vec<ChatMessage>) -> (r: String)
    ensures
        r@ == last_user_query_spec(conv@),
{
    let mut i = conv.len();
    assert(conv@.take(i as int) =~= conv@);
    while i > 0
        invariant
            i <= conv@.len(),
            last_user_query_spec(conv@) == last_user_query_spec(conv@.take(i as int)),
        decreases i,
    {
        assert(conv@.take(i as int).drop_last() =~= conv@.take(i - 1));
        if str_eq(conv[i - 1].role.as_str(), "user") {
            return conv[i - 1].content.clone();
        }
        i -= 1;
    }
    String::new()
}

/// The pieces an answer is streamed in: each runs up to and including a
/// space; the last holds what follows the last space (`split_inclusive(' ')`).
pub open spec fn pieces_spec(s: Seq<char>) -> Seq<Seq<char>>
    decreases s.len(),
{
    if s.len() == 0 {
        seq![]
    } else {
        match find(s, " "@) {
            Some(p) => if 0 <= p < s.len() {
                seq![s.take(p + 1)] + pieces_spec(s.skip(p + 1))
            } else {
                seq![s]
            },
            None => seq![s],
        }
    }
}

/// Splits an answer into the pieces streamed to the chat panel.
pub fn answer_pieces(answer: &str) -> (r: Vec<String>)
    ensures
        r@.map_values(|p: String| p@) == pieces_spec(answer@),
{
    let cs = chars_of(answer);
    let sp = chars_of(" ");
    proof {
        reveal_strlit(" ");
    }
    let n = cs.len();
    let mut out: Vec<String> = Vec::new();
    let mut pos: usize = 0;
    assert(cs@.skip(0) =~= cs@);
    assert(out@.map_values(|p: String| p@) + pieces_spec(cs@) =~= pieces_spec(cs@));
    while pos < n
        invariant
            n == cs@.len(),
            cs@ == answer@,
            sp@ == " "@,
            pos <= n,
            out@.map_values(|p: String| p@) + pieces_spec(cs@.skip(pos as int)) == pieces_spec(answer@),
        decreases n - pos,
    {
        let ghost t = cs@.skip(pos as int);
        let ghost before = out@.map_values(|p: String| p@);
        proof {
            reveal_strlit(" ");
            crate::text::lemma_find_from_skip(cs@, sp@, pos as int, pos as int);
            crate::text::lemma_find_from_some(cs@, sp@, pos as int);
        }
        match find_from_exec(&cs, &sp, pos) {
            Some(p) => {
                let piece = string_of(&cs, pos, p + 1);
                out.push(piece);
                assert(t.take(p - pos + 1) =~= cs@.subrange(pos as int, p + 1));
                assert(t.skip(p - pos + 1) =~= cs@.skip(p + 1));
                assert(out@.map_values(|p: String| p@) =~= before.push(piece@));
                assert(before + pieces_spec(t) =~= out@.map_values(|p: String| p@) + pieces_spec(
                    cs@.skip(p + 1),
                ));
                pos = p + 1;
            },
            None => {
                let piece = string_of(&cs, pos, n);
                out.push(piece);
                assert(cs@.subrange(pos as int, n as int) =~= t);
                assert(out@.map_values(|p: String| p@) =~= before + pieces_spec(t));
                return out;
            },
        }
    }
    assert(cs@.skip(pos as int) =~= Seq::<char>::empty());
    assert(out@.map_values(|p: String| p@) + Seq::<Seq<char>>::empty() =~= out@.map_values(|p: String| p@));
    out
}

/// Streaming loses nothing: the pieces put back together are the answer.
pub proof fn law_pieces_rebuild_answer(s: Seq<char>)
    ensures
        crate::text::concat_all(pieces_spec(s)) == s,
    decreases s.len(),
{
    if s.len() > 0 {
        match find(s, " "@) {
            Some(p) => {
                if 0 <= p < s.len() {
                    law_pieces_rebuild_answer(s.skip(p + 1));
                    lemma_concat_all_front(s.take(p + 1), pieces_spec(s.skip(p + 1)));
                    assert(s.take(p + 1) + s.skip(p + 1) =~= s);
                } else {
                    lemma_concat_all_front(s, Seq::<Seq<char>>::empty());
                    assert(seq![s] =~= seq![s] + Seq::<Seq<char>>::empty());
                    assert(s + Seq::<char>::empty() =~= s);
                }
            },
            None => {
                lemma_concat_all_front(s, Seq::<Seq<char>>::empty());
                assert(seq![s] =~= seq![s] + Seq::<Seq<char>>::empty());
                assert(s + Seq::<char>::empty() =~= s);
            },
        }
    }
}

proof fn lemma_concat_all_front(x: Seq<char>, rest: Seq<Seq<char>>)
    ensures
        crate::text::concat_all(seq![x] + rest) == x + crate::text::concat_all(rest),
    decreases rest.len(),
{
    if rest.len() == 0 {
        assert(seq![x] + rest =~= seq![x]);
        assert(seq![x].drop_last() =~= Seq::<Seq<char>>::empty());
        assert(crate::text::concat_all(Seq::<Seq<char>>::empty()) =~= Seq::<char>::empty());
        assert(crate::text::concat_all(seq![x]) =~= x);
        assert(x + Seq::<char>::empty() =~= x);
        assert(Seq::<char>::empty() + x =~= x);
    } else {
        lemma_concat_all_front(x, rest.drop_last());
        assert((seq![x] + rest).drop_last() =~= seq![x] + rest.drop_last());
        assert((seq![x] + rest).last() == rest.last());
        assert(x + crate::text::concat_all(rest.drop_last()) + rest.last() =~= x + (crate::text::concat_all(
            rest.drop_last(),
        ) + rest.last()));
    }
}

/// The conversation turn stored in long-term memory.
pub fn turn_text(query: &str, answer: &str) -> (r: String)
    ensures
        r@ == "User: "@ + query@ + "\nAssistant: "@ + answer@,
{
    let mut t = "User: ".to_owned();
    push_str(&mut t, query);
    push_str(&mut t, "\nAssistant: ");
    push_str(&mut t, answer);
    t
}

/// A retrieved memory as the context builder sees it: the score already
/// rendered with two decimals and compared with the relevance threshold.
pub struct MemoryHit {
    pub kind: String,
    pub content: String,
    pub source: String,
    pub score_text: String,
    pub relevant: bool,
}

/// Soul lines: `- fact` each.
pub open spec fn soul_lines(soul: Seq<Seq<char>>) -> Seq<char>
    decreases soul.len(),
{
    if soul.len() == 0 {
        seq![]
    } else {
        soul_lines(soul.drop_last()) + "- "@ + soul.last() + "\n"@
    }
}

/// One retrieved-memory line.
pub open spec fn hit_line(h: MemoryHit) -> Seq<char> {
    "- ["@ + h.kind@ + " "@ + h.score_text@ + "] "@ + cut_bytes(h.content@, 280, "…"@) + " (src: "@
        + cut_bytes(h.source@, 80, "…"@) + ")\n"@
}

/// The lines of the relevant hits.
pub open spec fn hit_lines(hits: Seq<MemoryHit>) -> Seq<char>
    decreases hits.len(),
{
    if hits.len() == 0 {
        seq![]
    } else {
        hit_lines(hits.drop_last()) + if hits.last().relevant { hit_line(hits.last()) } else { seq![] }
    }
}

/// Whether any hit is relevant.
pub open spec fn any_relevant(hits: Seq<MemoryHit>) -> bool {
    exists|i: int| 0 <= i < hits.len() && #[trigger] hits[i].relevant
}

/// The hits' texts can be cut where the context cuts them.
pub open spec fn hits_cuttable(hits: Seq<MemoryHit>) -> bool {
    forall|i: int|
        0 <= i < hits.len() && #[trigger] hits[i].relevant ==> (utf8_len(hits[i].content@) > 280
            ==> is_boundary(hits[i].content@, 280)) && (utf8_len(hits[i].source@) > 80 ==> is_boundary(
            hits[i].source@,
            80,
        ))
}

/// The memory block injected into the system prompt: the soul facts, then
/// the relevant retrieved memories (none when the query is empty).
pub open spec fn memory_context_spec(query: Seq<char>, soul: Seq<Seq<char>>, hits: Seq<MemoryHit>) -> Seq<char> {
    (if soul.len() > 0 {
        "What you know about the user (soul):\n"@ + soul_lines(soul)
    } else {
        seq![]
    }) + (if query.len() > 0 && any_relevant(hits) {
        "\nRelevant memory (retrieved):\n"@ + hit_lines(hits)
    } else {
        seq![]
    })
}

/// Formats soul facts and relevant memories for injection.
pub fn memory_context(query: &str, soul: &Vec<String>, hits: &Vec<MemoryHit>) -> (r: String)
    requires
        query@.len() > 0 ==> hits_cuttable(hits@),
    ensures
        r@ == memory_context_spec(query@, soul@.map_values(|f: String| f@), hits@),
{
    let ghost sv = soul@.map_values(|f: String| f@);
    let mut ctx = String::new();
    if soul.len() > 0 {
        push_str(&mut ctx, "What you know about the user (soul):\n");
        let mut i: usize = 0;
        let ghost head = ctx@;
        while i < soul.len()
            invariant
                i <= soul@.len(),
                sv == soul@.map_values(|f: String| f@),
                ctx@ == head + soul_lines(sv.take(i as int)),
            decreases soul@.len() - i,
        {
            assert(sv.take(i + 1).drop_last() =~= sv.take(i as int));
            push_str(&mut ctx, "- ");
            push_str(&mut ctx, soul[i].as_str());
            push_str(&mut ctx, "\n");
            assert(ctx@ =~= head + soul_lines(sv.take(i + 1)));
            i += 1;
        }
        assert(sv.take(soul@.len() as int) =~= sv);
    }
    let ghost mid = ctx@;
    assert(mid == (if sv.len() > 0 { "What you know about the user (soul):\n"@ + soul_lines(sv) } else { seq![] }));
    if query.is_empty() {
        assert(ctx@ =~= mid + Seq::<char>::empty());
        return ctx;
    }
    let mut any = false;
    let mut k: usize = 0;
    while k < hits.len()
        invariant
            k <= hits@.len(),
            any == exists|j: int| 0 <= j < k && #[trigger] hits@[j].relevant,
        decreases hits@.len() - k,
    {
        if hits[k].relevant {
            any = true;
        }
        k += 1;
    }
    if !any {
        assert(ctx@ =~= mid + Seq::<char>::empty());
        return ctx;
    }
    push_str(&mut ctx, "\nRelevant memory (retrieved):\n");
    let ghost head2 = ctx@;
    let mut i: usize = 0;
    while i < hits.len()
        invariant
            i <= hits@.len(),
            hits_cuttable(hits@),
            ctx@ == head2 + hit_lines(hits@.take(i as int)),
        decreases hits@.len() - i,
    {
        assert(hits@.take(i + 1).drop_last() =~= hits@.take(i as int));
        let h = &hits[i];
        if h.relevant {
            assert(hits@[i as int].relevant);
            push_str(&mut ctx, "- [");
            push_str(&mut ctx, h.kind.as_str());
            push_str(&mut ctx, " ");
            push_str(&mut ctx, h.score_text.as_str());
            push_str(&mut ctx, "] ");
            push_str(&mut ctx, truncate(h.content.as_str(), 280).as_str());
            push_str(&mut ctx, " (src: ");
            push_str(&mut ctx, truncate(h.source.as_str(), 80).as_str());
            push_str(&mut ctx, ")\n");
            assert(ctx@ =~= head2 + hit_lines(hits@.take(i + 1)));
        } else {
            assert(ctx@ =~= head2 + hit_lines(hits@.take(i + 1)));
        }
        i += 1;
    }
    assert(hits@.take(hits@.len() as int) =~= hits@);
    ctx
}

} // verus!
