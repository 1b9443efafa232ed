//! LLM backend layer: the conversation message type, backend configuration
//! and routing, the wire shape of requests, and the reading of replies
//! (whole or streamed as server-sent events). Network calls are made by the
//! application around this module.

use vstd::prelude::*;
use vstd::utf8::*;
use crate::json::{json_parse, parse_json, Json};
use crate::text::{
    ascii_lower, push_str, concat_all,
    chars_of, find, find_from_exec, lemma_find_from_extend, lemma_find_from_skip,
    lemma_find_from_some, occurs_at_exec, starts_with, str_eq, string_of, trim, trim_range,
};

verus! {

/// A single message in a conversation. Roles: "system" | "user" | "assistant" | "tool".
pub struct ChatMessage {
    pub role: String,
    pub content: String,
}

impl ChatMessage {
    /// A system message.
    pub fn system(s: String) -> (m: Self)
        ensures
            m.role@ == "system"@,
            m.content == s,
    {
        ChatMessage { role: "system".to_owned(), content: s }
    }

    /// A user message.
    pub fn user(s: String) -> (m: Self)
        ensures
            m.role@ == "user"@,
            m.content == s,
    {
        ChatMessage { role: "user".to_owned(), content: s }
    }

    /// An assistant message.
    pub fn assistant(s: String) -> (m: Self)
        ensures
            m.role@ == "assistant"@,
            m.content == s,
    {
        ChatMessage { role: "assistant".to_owned(), content: s }
    }

    /// A copy of the message.
    pub fn duplicate(&self) -> (m: Self)
        ensures
            m == *self,
    {
        ChatMessage { role: self.role.clone(), content: self.content.clone() }
    }
}

/// A completed model reply.
pub struct LlmResponse {
    pub content: String,
}

/// What `str::to_lowercase` (Unicode lower-casing) makes of a text.
pub uninterp spec fn unicode_lower(s: Seq<char>) -> Seq<char>;

/// Unicode lower-casing through `str::to_lowercase`. The contract claims
/// that the result is [`unicode_lower`] of the text, a function of the text
/// alone, and that an ASCII text is lower-cased letter by letter (`A`..`Z`
/// to `a`..`z`, everything else kept); the case mapping of other characters
/// is not stated here.
#[verifier::external_body]
pub(crate) fn to_lowercase(s: &str) -> (r: String)
    ensures
        r@ == unicode_lower(s@),
        (forall|i: int| 0 <= i < s@.len() ==> (s@[i] as u32) < 128) ==> r@ == ascii_lower(s@),
{
    s.to_lowercase()
}

/// What `String::from_utf8_lossy` makes of a byte sequence.
pub uninterp spec fn utf8_lossy(b: Seq<u8>) -> Seq<char>;

/// Decodes bytes as UTF-8, replacing invalid sequences with U+FFFD
/// (`String::from_utf8_lossy`). Its documentation states that valid UTF-8
/// comes back unchanged; what replaces invalid sequences is not stated here.
#[verifier::external_body]
pub(crate) fn from_utf8_lossy(b: &[u8]) -> (r: String)
    ensures
        r@ == utf8_lossy(b@),
        valid_utf8(b@) ==> r@ == decode_utf8(b@),
{
    String::from_utf8_lossy(b).to_string()
}

/// Settings of the Gemini backend (Google Generative Language API).
pub struct GeminiBackend {
    pub api_key: String,
    pub model: String,
}

/// Settings of the Groq backend (OpenAI-compatible endpoint).
pub struct GroqBackend {
    pub api_key: String,
    pub model: String,
}

/// The model Gemini uses when none is configured.
pub open spec fn default_gemini_model() -> Seq<char> {
    "gemini-3.1-flash-lite-preview"@
}

/// The model Groq uses when none is configured.
pub open spec fn default_groq_model() -> Seq<char> {
    "llama-3.3-70b-versatile"@
}

impl GeminiBackend {
    /// Settings from the configured key and model (`GEMINI_API_KEY`,
    /// `GEMINI_MODEL`); a missing key is empty, a missing model is the default.
    pub fn from_env(api_key: Option<String>, model: Option<String>) -> (b: Self)
        ensures
            b.api_key@ == (match api_key { Some(k) => k@, None => seq![] }),
            b.model@ == (match model { Some(m) => m@, None => default_gemini_model() }),
    {
        GeminiBackend {
            api_key: match api_key { Some(k) => k, None => String::new() },
            model: match model { Some(m) => m, None => "gemini-3.1-flash-lite-preview".to_owned() },
        }
    }

    /// Whether an API key is configured.
    pub fn has_key(&self) -> (r: bool)
        ensures
            r == (self.api_key@.len() > 0),
    {
        !self.api_key.as_str().is_empty()
    }
}

impl GroqBackend {
    /// Settings from the configured key and model (`GROQ_API_KEY`,
    /// `GROQ_MODEL`); a missing key is empty, a missing model is the default.
    pub fn from_env(api_key: Option<String>, model: Option<String>) -> (b: Self)
        ensures
            b.api_key@ == (match api_key { Some(k) => k@, None => seq![] }),
            b.model@ == (match model { Some(m) => m@, None => default_groq_model() }),
    {
        GroqBackend {
            api_key: match api_key { Some(k) => k, None => String::new() },
            model: match model { Some(m) => m, None => "llama-3.3-70b-versatile".to_owned() },
        }
    }

    /// Whether an API key is configured.
    pub fn has_key(&self) -> (r: bool)
        ensures
            r == (self.api_key@.len() > 0),
    {
        !self.api_key.as_str().is_empty()
    }
}

/// The two backends a request can be routed to.
#[derive(PartialEq, Eq, Structural, Clone, Copy, Debug)]
pub enum BackendKind {
    Gemini,
    Groq,
}

/// The backend a lower-cased name names, if any.
pub open spec fn named_backend(lower: Seq<char>) -> Option<BackendKind> {
    if lower == "groq"@ {
        Some(BackendKind::Groq)
    } else if lower == "gemini"@ {
        Some(BackendKind::Gemini)
    } else {
        None
    }
}

/// The backend a lower-cased name names.
pub fn backend_named(lower: &str) -> (r: Option<BackendKind>)
    ensures
        r == named_backend(lower@),
{
    proof {
        reveal_strlit("groq");
        reveal_strlit("gemini");
        assert("groq"@.len() != "gemini"@.len());
    }
    if str_eq(lower, "groq") {
        Some(BackendKind::Groq)
    } else if str_eq(lower, "gemini") {
        Some(BackendKind::Gemini)
    } else {
        None
    }
}

/// Config-driven switch between backends: a requested name picks a backend,
/// anything else falls back to the configured default.
pub struct Router {
    pub gemini: GeminiBackend,
    pub groq: GroqBackend,
    pub default: String,
}

impl Router {
    /// A router over the two backends; the default backend is the configured
    /// `DEFAULT_BACKEND`, or "gemini".
    pub fn from_env(gemini: GeminiBackend, groq: GroqBackend, default: Option<String>) -> (r: Self)
        ensures
            r.gemini == gemini,
            r.groq == groq,
            r.default@ == (match default { Some(d) => d@, None => "gemini"@ }),
    {
        Router {
            gemini,
            groq,
            default: match default { Some(d) => d, None => "gemini".to_owned() },
        }
    }

    /// The backend a name resolves to: the named one, else the default's.
    pub open spec fn resolve(self, name: Seq<char>) -> Option<BackendKind> {
        match named_backend(unicode_lower(name)) {
            Some(k) => Some(k),
            None => named_backend(unicode_lower(self.default@)),
        }
    }

    /// Resolve a backend by name, falling back to the configured default.
    /// A name that resolves to neither backend, with a default that does not
    /// either, is left out: resolution would recurse forever.
    pub fn backend(&self, name: &str) -> (k: BackendKind)
        requires
            self.resolve(name@) is Some,
        ensures
            Some(k) == self.resolve(name@),
    {
        match self.try_backend(name) {
            Some(k) => k,
            None => BackendKind::Gemini,
        }
    }

    /// Resolution that reports an unresolvable name as `None` instead of
    /// requiring that it resolves.
    pub fn try_backend(&self, name: &str) -> (k: Option<BackendKind>)
        ensures
            k == self.resolve(name@),
    {
        let lower = to_lowercase(name);
        match backend_named(lower.as_str()) {
            Some(k) => Some(k),
            None => {
                let d = to_lowercase(self.default.as_str());
                backend_named(d.as_str())
            },
        }
    }

    /// Whether the given backend has an API key configured (unknown names
    /// count as Gemini).
    pub fn is_configured(&self, name: &str) -> (r: bool)
        ensures
            r == (if unicode_lower(name@) == "groq"@ {
                self.groq.api_key@.len() > 0
            } else {
                self.gemini.api_key@.len() > 0
            }),
    {
        let lower = to_lowercase(name);
        if str_eq(lower.as_str(), "groq") {
            self.groq.has_key()
        } else {
            self.gemini.has_key()
        }
    }

    /// The display name of a backend.
    pub fn backend_name(&self, k: BackendKind) -> (r: String)
        ensures
            r@ == (match k { BackendKind::Groq => "groq"@, BackendKind::Gemini => "gemini"@ }),
    {
        match k {
            BackendKind::Groq => "groq".to_owned(),
            BackendKind::Gemini => "gemini".to_owned(),
        }
    }

    /// The configured model of a backend.
    pub fn backend_model(&self, k: BackendKind) -> (r: String)
        ensures
            r == (match k { BackendKind::Groq => self.groq.model, BackendKind::Gemini => self.gemini.model }),
    {
        match k {
            BackendKind::Groq => self.groq.model.clone(),
            BackendKind::Gemini => self.gemini.model.clone(),
        }
    }
}

// ------------------------------------------------------------------ wire shapes

/// A turn of a Gemini `contents` list: its role and text.
pub struct GeminiTurn {
    pub role: String,
    pub text: String,
}

/// A Gemini request: the texts of the system instruction and the turns.
pub struct GeminiRequest {
    pub system: Vec<String>,
    pub contents: Vec<GeminiTurn>,
}

/// System messages become the system instruction.
pub open spec fn gemini_system(ms: Seq<ChatMessage>) -> Seq<Seq<char>>
    decreases ms.len(),
{
    if ms.len() == 0 {
        seq![]
    } else if ms.last().role@ == "system"@ {
        gemini_system(ms.drop_last()).push(ms.last().content@)
    } else {
        gemini_system(ms.drop_last())
    }
}

/// Every other message becomes a turn: assistant messages as "model",
/// user messages and tool results as "user".
pub open spec fn gemini_contents(ms: Seq<ChatMessage>) -> Seq<(Seq<char>, Seq<char>)>
    decreases ms.len(),
{
    if ms.len() == 0 {
        seq![]
    } else if ms.last().role@ == "system"@ {
        gemini_contents(ms.drop_last())
    } else if ms.last().role@ == "assistant"@ {
        gemini_contents(ms.drop_last()).push(("model"@, ms.last().content@))
    } else {
        gemini_contents(ms.drop_last()).push(("user"@, ms.last().content@))
    }
}

/// The role a message is sent to Groq with: system, assistant and tool keep
/// theirs, anything else is sent as user.
pub open spec fn groq_role(role: Seq<char>) -> Seq<char> {
    if role == "system"@ || role == "assistant"@ || role == "tool"@ {
        role
    } else {
        "user"@
    }
}

/// Converts messages into Gemini's `contents` + `systemInstruction` shape.
pub fn gemini_request(messages: &Vec<ChatMessage>) -> (r: GeminiRequest)
    ensures
        r.system@.map_values(|s: String| s@) == gemini_system(messages@),
        r.contents@.map_values(|t: GeminiTurn| (t.role@, t.text@)) == gemini_contents(messages@),
{
    let mut system: Vec<String> = Vec::new();
    let mut contents: Vec<GeminiTurn> = Vec::new();
    let mut i: usize = 0;
    while i < messages.len()
        invariant
            i <= messages@.len(),
            system@.map_values(|s: String| s@) == gemini_system(messages@.take(i as int)),
            contents@.map_values(|t: GeminiTurn| (t.role@, t.text@)) == gemini_contents(
                messages@.take(i as int),
            ),
        decreases messages@.len() - i,
    {
        let m = &messages[i];
        proof {
            assert(messages@.take(i + 1).drop_last() =~= messages@.take(i as int));
            assert(messages@.take(i + 1).last() == messages@[i as int]);
        }
        if str_eq(m.role.as_str(), "system") {
            system.push(m.content.clone());
            assert(system@.map_values(|s: String| s@) =~= gemini_system(messages@.take(i as int)).push(
                m.content@,
            ));
        } else if str_eq(m.role.as_str(), "assistant") {
            contents.push(GeminiTurn { role: "model".to_owned(), text: m.content.clone() });
            assert(contents@.map_values(|t: GeminiTurn| (t.role@, t.text@)) =~= gemini_contents(
                messages@.take(i as int),
            ).push(("model"@, m.content@)));
        } else {
            contents.push(GeminiTurn { role: "user".to_owned(), text: m.content.clone() });
            assert(contents@.map_values(|t: GeminiTurn| (t.role@, t.text@)) =~= gemini_contents(
                messages@.take(i as int),
            ).push(("user"@, m.content@)));
        }
        i += 1;
    }
    assert(messages@.take(messages@.len() as int) =~= messages@);
    GeminiRequest { system, contents }
}

/// The (role, content) pairs of an OpenAI-style `messages` list for Groq.
pub fn groq_messages(messages: &Vec<ChatMessage>) -> (r: Vec<(String, String)>)
    ensures
        r@.len() == messages@.len(),
        forall|i: int|
            0 <= i < messages@.len() ==> r@[i].0@ == groq_role(#[trigger] messages@[i].role@)
                && r@[i].1 == messages@[i].content,
{
    let mut out: Vec<(String, String)> = Vec::new();
    let mut i: usize = 0;
    while i < messages.len()
        invariant
            i <= messages@.len(),
            out@.len() == i,
            forall|j: int|
                0 <= j < i ==> out@[j].0@ == groq_role(#[trigger] messages@[j].role@) && out@[j].1
                    == messages@[j].content,
        decreases messages@.len() - i,
    {
        let m = &messages[i];
        let r = m.role.as_str();
        let role = if str_eq(r, "system") || str_eq(r, "assistant") || str_eq(r, "tool") {
            m.role.clone()
        } else {
            "user".to_owned()
        };
        out.push((role, m.content.clone()));
        assert(out@[i as int].0@ == groq_role(messages@[i as int].role@));
        i += 1;
    }
    out
}

// ------------------------------------------------------------------ replies

/// The text of a Gemini reply: the text parts of the first candidate,
/// concatenated.
pub open spec fn gemini_text(v: Json) -> Seq<char> {
    match gemini_parts(v) {
        Some(parts) => concat_texts(parts),
        None => seq![],
    }
}

/// `v["candidates"][0]["content"]["parts"]` when it is an array.
pub open spec fn gemini_parts(v: Json) -> Option<Seq<Json>> {
    match v.get_spec("candidates"@) {
        Some(c) => match c.at_spec(0) {
            Some(c0) => match c0.get_spec("content"@) {
                Some(ct) => match ct.get_spec("parts"@) {
                    Some(Json::Array(ps)) => Some(ps@),
                    _ => None,
                },
                None => None,
            },
            None => None,
        },
        None => None,
    }
}

/// The `text` members of parts that have a string one.
pub open spec fn part_texts(parts: Seq<Json>) -> Seq<Seq<char>>
    decreases parts.len(),
{
    if parts.len() == 0 {
        seq![]
    } else {
        match parts.last().get_spec("text"@) {
            Some(t) => match t.str_spec() {
                Some(s) => part_texts(parts.drop_last()).push(s),
                None => part_texts(parts.drop_last()),
            },
            None => part_texts(parts.drop_last()),
        }
    }
}

/// The concatenation of the parts' texts.
pub open spec fn concat_texts(parts: Seq<Json>) -> Seq<char> {
    concat_all(part_texts(parts))
}

/// The `text` strings of the first candidate's parts, in order.
pub fn gemini_part_texts(v: &Json) -> (r: Vec<String>)
    ensures
        r@.map_values(|s: String| s@) == (match gemini_parts(*v) {
            Some(ps) => part_texts(ps),
            None => seq![],
        }),
{
    let mut out: Vec<String> = Vec::new();
    let parts = match v.get("candidates") {
        Some(c) => match c.at(0) {
            Some(c0) => match c0.get("content") {
                Some(ct) => match ct.get("parts") {
                    Some(p) => p,
                    None => { return out; },
                },
                None => { return out; },
            },
            None => { return out; },
        },
        None => { return out; },
    };
    match parts {
        Json::Array(ps) => {
            let mut i: usize = 0;
            while i < ps.len()
                invariant
                    i <= ps@.len(),
                    out@.map_values(|s: String| s@) == part_texts(ps@.take(i as int)),
                decreases ps@.len() - i,
            {
                proof {
                    assert(ps@.take(i + 1).drop_last() =~= ps@.take(i as int));
                    assert(ps@.take(i + 1).last() == ps@[i as int]);
                }
                match ps[i].get("text") {
                    Some(t) => match t.as_str() {
                        Some(s) => {
                            let ghost before = out@.map_values(|s: String| s@);
                            out.push(s.to_owned());
                            assert(out@.map_values(|s: String| s@) =~= before.push(s@));
                        },
                        None => {},
                    },
                    None => {},
                }
                i += 1;
            }
            assert(ps@.take(ps@.len() as int) =~= ps@);
            out
        },
        _ => {
            assert(out@.map_values(|s: String| s@) =~= Seq::<Seq<char>>::empty());
            out
        },
    }
}

/// Concatenation of strings.
pub fn concat_strings(parts: &Vec<String>) -> (r: String)
    ensures
        r@ == concat_all(parts@.map_values(|s: String| s@)),
{
    let mut r = String::new();
    let mut i: usize = 0;
    while i < parts.len()
        invariant
            i <= parts@.len(),
            r@ == concat_all(parts@.map_values(|s: String| s@).take(i as int)),
        decreases parts@.len() - i,
    {
        let ghost ps = parts@.map_values(|s: String| s@);
        assert(ps.take(i + 1).drop_last() =~= ps.take(i as int));
        push_str(&mut r, parts[i].as_str());
        i += 1;
    }
    assert(parts@.map_values(|s: String| s@).take(parts@.len() as int) =~= parts@.map_values(|s: String| s@));
    r
}

/// The text of a Gemini `generateContent` reply.
pub fn gemini_reply_text(v: &Json) -> (r: String)
    ensures
        r@ == gemini_text(*v),
{
    let texts = gemini_part_texts(v);
    concat_strings(&texts)
}

/// The text of a Groq chat completion: `choices[0].message.content`, or empty.
pub open spec fn groq_text(v: Json) -> Seq<char> {
    match v.get_spec("choices"@) {
        Some(c) => match c.at_spec(0) {
            Some(c0) => match c0.get_spec("message"@) {
                Some(m) => m.str_or_empty("content"@),
                None => seq![],
            },
            None => seq![],
        },
        None => seq![],
    }
}

/// The text of a Groq chat completion.
pub fn groq_reply_text(v: &Json) -> (r: String)
    ensures
        r@ == groq_text(*v),
{
    match v.get("choices") {
        Some(c) => match c.at(0) {
            Some(c0) => match c0.get("message") {
                Some(m) => m.str_field("content"),
                None => String::new(),
            },
            None => String::new(),
        },
        None => String::new(),
    }
}

/// The text delta of one streamed Groq event: `choices[0].delta.content`.
pub open spec fn groq_delta(v: Json) -> Option<Seq<char>> {
    match v.get_spec("choices"@) {
        Some(c) => match c.at_spec(0) {
            Some(c0) => match c0.get_spec("delta"@) {
                Some(d) => match d.get_spec("content"@) {
                    Some(t) => t.str_spec(),
                    None => None,
                },
                None => None,
            },
            None => None,
        },
        None => None,
    }
}

/// The text deltas carried by one stream payload: none for `[DONE]` or text
/// that is not JSON.
pub open spec fn groq_payload_deltas(payload: Seq<char>) -> Seq<Seq<char>> {
    if payload == "[DONE]"@ {
        seq![]
    } else {
        match json_parse(payload) {
            Some(v) => match groq_delta(v) {
                Some(t) => seq![t],
                None => seq![],
            },
            None => seq![],
        }
    }
}

/// The text deltas carried by one Gemini stream payload.
pub open spec fn gemini_payload_deltas(payload: Seq<char>) -> Seq<Seq<char>> {
    match json_parse(payload) {
        Some(v) => match gemini_parts(v) {
            Some(ps) => part_texts(ps),
            None => seq![],
        },
        None => seq![],
    }
}

/// Text deltas of a Groq stream payload.
pub fn groq_stream_deltas(payload: &str) -> (r: Vec<String>)
    ensures
        r@.map_values(|s: String| s@) == groq_payload_deltas(payload@),
{
    let mut out: Vec<String> = Vec::new();
    if str_eq(payload, "[DONE]") {
        assert(out@.map_values(|s: String| s@) =~= Seq::<Seq<char>>::empty());
        return out;
    }
    match parse_json(payload) {
        Some(v) => {
            match groq_delta_text(&v) {
                Some(t) => {
                    out.push(t);
                    assert(out@.map_values(|s: String| s@) =~= seq![out@[0]@]);
                },
                None => {
                    assert(out@.map_values(|s: String| s@) =~= Seq::<Seq<char>>::empty());
                },
            }
            out
        },
        None => {
            assert(out@.map_values(|s: String| s@) =~= Seq::<Seq<char>>::empty());
            out
        },
    }
}

/// The text delta of a parsed Groq stream payload, if it carries one.
pub fn groq_delta_text(v: &Json) -> (r: Option<String>)
    ensures
        match r {
            Some(t) => groq_delta(*v) == Some(t@),
            None => groq_delta(*v) is None,
        },
{
    match v.get("choices") {
        Some(c) => match c.at(0) {
            Some(c0) => match c0.get("delta") {
                Some(dd) => match dd.get("content") {
                    Some(t) => match t.as_str() {
                        Some(x) => Some(x.to_owned()),
                        None => None,
                    },
                    None => None,
                },
                None => None,
            },
            None => None,
        },
        None => None,
    }
}

/// Text deltas of a Gemini stream payload.
pub fn gemini_stream_deltas(payload: &str) -> (r: Vec<String>)
    ensures
        r@.map_values(|s: String| s@) == gemini_payload_deltas(payload@),
{
    match parse_json(payload) {
        Some(v) => gemini_part_texts(&v),
        None => {
            let out: Vec<String> = Vec::new();
            assert(out@.map_values(|s: String| s@) =~= Seq::<Seq<char>>::empty());
            out
        },
    }
}

// ------------------------------------------------------------------ streaming

/// The complete `\n`-terminated lines at the front of `s` (terminators
/// dropped) and the unterminated rest.
pub open spec fn split_lines(s: Seq<char>) -> (Seq<Seq<char>>, Seq<char>)
    decreases s.len(),
{
    match find(s, seq!['\n']) {
        Some(p) => if 0 <= p < s.len() {
            let rest = split_lines(s.skip(p + 1));
            (seq![s.take(p)] + rest.0, rest.1)
        } else {
            (seq![], s)
        },
        None => (seq![], s),
    }
}

/// The payload of a server-sent-event line: the trimmed text after a
/// `data:` prefix, when it is not empty.
pub open spec fn sse_payload(line: Seq<char>) -> Option<Seq<char>> {
    let t = trim(line);
    if starts_with(t, "data:"@) {
        let d = trim(t.skip(5));
        if d.len() > 0 { Some(d) } else { None }
    } else {
        None
    }
}

/// The payloads of a sequence of lines, in order.
pub open spec fn payloads(lines: Seq<Seq<char>>) -> Seq<Seq<char>>
    decreases lines.len(),
{
    if lines.len() == 0 {
        seq![]
    } else {
        match sse_payload(lines[0]) {
            Some(d) => seq![d] + payloads(lines.drop_first()),
            None => payloads(lines.drop_first()),
        }
    }
}

/// Feeding `chunk` to a stream whose pending text is `buf`: the payloads of
/// the lines completed, and the new pending text.
pub open spec fn sse_feed(buf: Seq<char>, chunk: Seq<char>) -> (Seq<Seq<char>>, Seq<char>) {
    let (lines, rest) = split_lines(buf + chunk);
    (payloads(lines), rest)
}

proof fn lemma_split_lines_concat(x: Seq<char>, y: Seq<char>)
    ensures
        split_lines(x + y) == ({
            let (l1, r1) = split_lines(x);
            let (l2, r2) = split_lines(r1 + y);
            (l1 + l2, r2)
        }),
    decreases x.len(),
{
    let nl = seq!['\n'];
    match find(x, nl) {
        Some(p) => {
            lemma_find_from_some(x, nl, 0);
            if 0 <= p < x.len() {
                lemma_find_from_extend(x, y, nl, 0);
                assert((x + y).take(p) =~= x.take(p));
                assert((x + y).skip(p + 1) =~= x.skip(p + 1) + y);
                lemma_split_lines_concat(x.skip(p + 1), y);
                let (l1, r1) = split_lines(x.skip(p + 1));
                let (l2, r2) = split_lines(r1 + y);
                assert(seq![x.take(p)] + l1 + l2 =~= seq![x.take(p)] + (l1 + l2));
            }
        },
        None => {
            assert(seq![] + split_lines(x + y).0 =~= split_lines(x + y).0);
        },
    }
}

proof fn lemma_payloads_concat(a: Seq<Seq<char>>, b: Seq<Seq<char>>)
    ensures
        payloads(a + b) == payloads(a) + payloads(b),
    decreases a.len(),
{
    if a.len() == 0 {
        assert(a + b =~= b);
    } else {
        lemma_payloads_concat(a.drop_first(), b);
        assert((a + b).drop_first() =~= a.drop_first() + b);
        assert((a + b)[0] == a[0]);
        match sse_payload(a[0]) {
            Some(d) => {
                assert(seq![d] + payloads(a.drop_first()) + payloads(b) =~= seq![d] + (payloads(
                    a.drop_first(),
                ) + payloads(b)));
            },
            None => {},
        }
    }
}

/// However a stream is cut into chunks, the same payloads come out in the
/// same order and the same text stays pending: feeding `a` and then `b`
/// equals feeding `a + b` at once.
pub proof fn law_sse_chunking(buf: Seq<char>, a: Seq<char>, b: Seq<char>)
    ensures
        ({
            let (p1, r1) = sse_feed(buf, a);
            let (p2, r2) = sse_feed(r1, b);
            let (p, r) = sse_feed(buf, a + b);
            p1 + p2 == p && r2 == r
        }),
{
    let (l1, r1) = split_lines(buf + a);
    lemma_split_lines_concat(buf + a, b);
    assert(buf + (a + b) =~= (buf + a) + b);
    let (l2, r2) = split_lines(r1 + b);
    lemma_payloads_concat(l1, l2);
}

/// Line buffer of a server-sent-event stream.
pub struct SseBuffer {
    pub pending: String,
}

impl SseBuffer {
    /// An empty buffer.
    pub fn new() -> (b: Self)
        ensures
            b.pending@ == Seq::<char>::empty(),
    {
        SseBuffer { pending: String::new() }
    }

    /// Adds a chunk of decoded text and returns the payloads of the
    /// `data:` lines it completes.
    pub fn feed(&mut self, chunk: &str) -> (r: Vec<String>)
        ensures
            r@.map_values(|s: String| s@) == sse_feed(old(self).pending@, chunk@).0,
            final(self).pending@ == sse_feed(old(self).pending@, chunk@).1,
    {
        let ghost whole = self.pending@ + chunk@;
        let mut cs = chars_of(self.pending.as_str());
        let more = chars_of(chunk);
        let mut k: usize = 0;
        while k < more.len()
            invariant
                k <= more@.len(),
                cs@ == old(self).pending@ + more@.take(k as int),
            decreases more@.len() - k,
        {
            cs.push(more[k]);
            assert(more@.take(k + 1) =~= more@.take(k as int).push(more@[k as int]));
            k += 1;
        }
        assert(more@.take(more@.len() as int) =~= more@);
        assert(cs@ == whole);
        let nl: Vec<char> = vec!['\n'];
        assert(nl@ =~= seq!['\n']);
        let d: Vec<char> = chars_of("data:");
        let mut out: Vec<String> = Vec::new();
        let mut pos: usize = 0;
        let n = cs.len();
        assert(cs@.skip(0) =~= cs@);
        assert(out@.map_values(|s: String| s@) + payloads(split_lines(cs@).0) =~= payloads(split_lines(cs@).0));
        loop
            invariant
                n == cs@.len(),
                cs@ == whole,
                whole == old(self).pending@ + chunk@,
                nl@ == seq!['\n'],
                d@ == "data:"@,
                pos <= cs@.len(),
                out@.map_values(|s: String| s@) + payloads(split_lines(cs@.skip(pos as int)).0)
                    == payloads(split_lines(whole).0),
                split_lines(cs@.skip(pos as int)).1 == split_lines(whole).1,
            decreases cs@.len() - pos,
        {
            let found = find_from_exec(&cs, &nl, pos);
            proof {
                lemma_find_from_skip(cs@, nl@, pos as int, pos as int);
                lemma_find_from_some(cs@, nl@, pos as int);
            }
            match found {
                None => {
                    let rest = string_of(&cs, pos, cs.len());
                    self.pending = rest;
                    proof {
                        let t = cs@.skip(pos as int);
                        assert(find(t, nl@) is None);
                        assert(split_lines(t) == (Seq::<Seq<char>>::empty(), t));
                        assert(payloads(Seq::<Seq<char>>::empty()) =~= Seq::<Seq<char>>::empty());
                        assert(cs@.subrange(pos as int, cs@.len() as int) =~= t);
                        assert(out@.map_values(|s: String| s@) + Seq::<Seq<char>>::empty()
                            =~= out@.map_values(|s: String| s@));
                    }
                    return out;
                },
                Some(p) => {
                    let ghost t = cs@.skip(pos as int);
                    let ghost q = p - pos;
                    let ghost line = cs@.subrange(pos as int, p as int);
                    let ghost lrest = split_lines(cs@.skip(p + 1));
                    proof {
                        assert(find(t, nl@) == Some(q));
                        assert(t.take(q) =~= line);
                        assert(t.skip(q + 1) =~= cs@.skip(p + 1));
                        assert(0 <= q < t.len());
                        assert(split_lines(t) == (seq![line] + lrest.0, lrest.1));
                        assert((seq![line] + lrest.0)[0] == line);
                        assert((seq![line] + lrest.0).drop_first() =~= lrest.0);
                        reveal_strlit("data:");
                    }
                    let (a, b) = trim_range(&cs, pos, p);
                    let ghost tl = cs@.subrange(a as int, b as int);
                    let is_data = b - a >= 5 && occurs_at_exec(&cs, &d, a);
                    proof {
                        if b - a >= 5 {
                            assert(tl.take(5) =~= cs@.subrange(a as int, a + 5));
                        }
                        assert(is_data == starts_with(tl, "data:"@));
                    }
                    let ghost prev = out@.map_values(|s: String| s@);
                    if is_data {
                        let (x, y) = trim_range(&cs, a + 5, b);
                        assert(tl.skip(5) =~= cs@.subrange(a + 5, b as int));
                        if y > x {
                            let payload = string_of(&cs, x, y);
                            out.push(payload);
                            proof {
                                assert(sse_payload(line) == Some(payload@));
                                assert(payloads(seq![line] + lrest.0) == seq![payload@] + payloads(lrest.0));
                                assert(out@.map_values(|s: String| s@) =~= prev.push(payload@));
                                assert(prev.push(payload@) + payloads(lrest.0) =~= prev + (seq![payload@]
                                    + payloads(lrest.0)));
                            }
                        } else {
                            assert(sse_payload(line) is None);
                            assert(payloads(seq![line] + lrest.0) == payloads(lrest.0));
                        }
                    } else {
                        assert(sse_payload(line) is None);
                        assert(payloads(seq![line] + lrest.0) == payloads(lrest.0));
                    }
                    pos = p + 1;
                },
            }
        }
    }
}

} // verus!
