//! Session state the application keeps between commands: approval
//! permissions, the status line, the session switcher entries, the context
//! size estimate and permission-request ids.

use vstd::prelude::*;
use crate::backends::{BackendKind, ChatMessage, Router};
use crate::text::{byte_len, push_str, str_eq, take_chars, take_chars_str, trim, trim_str, utf8_len};

verus! {

/// Auto-approval switches for mutating tools.
pub struct Permissions {
    pub yolo: bool,
    pub auto_file_write: bool,
    pub auto_code_exec: bool,
}

impl Default for Permissions {
    /// Nothing is auto-approved.
    fn default() -> (p: Self)
        ensures
            !p.yolo && !p.auto_file_write && !p.auto_code_exec,
    {
        Permissions { yolo: false, auto_file_write: false, auto_code_exec: false }
    }
}

/// Whether an action of `kind` runs without asking: YOLO approves
/// everything, the per-kind switches approve file writes and code runs.
pub open spec fn auto_approved_spec(p: Permissions, kind: Seq<char>) -> bool {
    p.yolo || (kind == "file_write"@ && p.auto_file_write) || (kind == "code_exec"@ && p.auto_code_exec)
}

/// Whether an action of `kind` is approved without asking the user.
pub fn auto_approved(p: &Permissions, kind: &str) -> (r: bool)
    ensures
        r == auto_approved_spec(*p, kind@),
{
    p.yolo || (str_eq(kind, "file_write") && p.auto_file_write) || (str_eq(kind, "code_exec")
        && p.auto_code_exec)
}

/// YOLO mode approves every kind of action without asking.
pub proof fn law_yolo_approves_all(p: Permissions, kind: Seq<char>)
    requires
        p.yolo,
    ensures
        auto_approved_spec(p, kind),
{
}

/// With no switch on, every action needs the user's answer.
pub proof fn law_default_asks(kind: Seq<char>)
    ensures
        !auto_approved_spec(Permissions { yolo: false, auto_file_write: false, auto_code_exec: false }, kind),
{
}

/// The per-kind switches approve only their own kind: any other kind of
/// action is approved without asking only in YOLO mode.
pub proof fn law_switches_are_per_kind(p: Permissions, kind: Seq<char>)
    requires
        !p.yolo,
        kind != "file_write"@,
        kind != "code_exec"@,
    ensures
        !auto_approved_spec(p, kind),
{
}

/// The activity-log line for an auto-approved action.
pub fn auto_approved_note(kind: &str) -> (r: String)
    ensures
        r@ == kind@ + " auto-approved"@,
{
    let mut s = kind.to_owned();
    push_str(&mut s, " auto-approved");
    s
}

/// Hands out the next permission-request id and advances the counter.
pub fn next_permission_id(next: &mut u64) -> (id: u64)
    requires
        *old(next) < u64::MAX,
    ensures
        id == *old(next),
        *final(next) == *old(next) + 1,
{
    let id = *next;
    *next = id + 1;
    id
}

/// Permission requests awaiting the user's answer, by id, and the next id
/// to hand out.
pub struct PendingPermissions {
    pub ids: Vec<u64>,
    pub next: u64,
}

impl PendingPermissions {
    /// Well-formed: every pending id was handed out before `next`, and no id
    /// is pending twice.
    pub open spec fn wf(&self) -> bool {
        &&& forall|i: int| 0 <= i < self.ids@.len() ==> #[trigger] self.ids@[i] < self.next
        &&& self.ids@.no_duplicates()
    }

    /// Nothing pending; ids start at 1.
    pub fn new() -> (r: Self)
        ensures
            r.wf(),
            r.ids@ == Seq::<u64>::empty(),
            r.next == 1,
    {
        PendingPermissions { ids: Vec::new(), next: 1 }
    }

    /// Registers a new request and returns its id: the next one, which is
    /// not pending yet; the counter moves on by one.
    pub fn register(&mut self) -> (id: u64)
        requires
            old(self).wf(),
            old(self).next < u64::MAX,
        ensures
            final(self).wf(),
            id == old(self).next,
            final(self).next == old(self).next + 1,
            !old(self).ids@.contains(id),
            final(self).ids@ == old(self).ids@.push(id),
    {
        let id = next_permission_id(&mut self.next);
        let ghost before = self.ids@;
        assert(!before.contains(id)) by {
            if before.contains(id) {
                let i = choose|i: int| 0 <= i < before.len() && before[i] == id;
                assert(before[i] < id);
            }
        }
        self.ids.push(id);
        assert forall|i: int| 0 <= i < self.ids@.len() implies #[trigger] self.ids@[i] < self.next by {
            if i < before.len() {
                assert(self.ids@[i] == before[i]);
            }
        }
        id
    }

    /// The answer to request `id` arrived: whether it was pending; it is
    /// pending no longer, and the other pending ids keep their order.
    pub fn respond(&mut self, id: u64) -> (r: bool)
        requires
            old(self).wf(),
        ensures
            final(self).wf(),
            r == old(self).ids@.contains(id),
            final(self).next == old(self).next,
            final(self).ids@ == without(old(self).ids@, id),
    {
        let ghost before = self.ids@;
        let mut kept: Vec<u64> = Vec::new();
        let mut found = false;
        let mut i: usize = 0;
        while i < self.ids.len()
            invariant
                i <= before.len(),
                before == self.ids@,
                kept@ == without(before.take(i as int), id),
                found == before.take(i as int).contains(id),
            decreases before.len() - i,
        {
            let x = self.ids[i];
            proof {
                assert(before.take(i + 1) =~= before.take(i as int).push(x));
                lemma_without_push(before.take(i as int), x, id);
                let t = before.take(i as int);
                if t.contains(id) {
                    let k = choose|k: int| 0 <= k < t.len() && t[k] == id;
                    assert(t.push(x)[k] == id);
                }
                if t.push(x).contains(id) && x != id {
                    let k = choose|k: int| 0 <= k < t.len() + 1 && t.push(x)[k] == id;
                    assert(t[k] == id);
                }
                assert(t.push(x)[t.len() as int] == x);
            }
            if x == id {
                found = true;
            } else {
                kept.push(x);
            }
            i += 1;
        }
        assert(before.take(before.len() as int) =~= before);
        proof {
            lemma_without_keeps(before, id);
        }
        self.ids = kept;
        found
    }

    /// The user's answer `approved` to request `id`: handed back once while
    /// the request is pending, `None` for an id that is not (never
    /// registered, or already answered); the request is pending no longer.
    pub fn answer(&mut self, id: u64, approved: bool) -> (r: Option<bool>)
        requires
            old(self).wf(),
        ensures
            final(self).wf(),
            r == answer_spec(old(self).ids@, id, approved),
            final(self).next == old(self).next,
            final(self).ids@ == without(old(self).ids@, id),
    {
        if self.respond(id) {
            Some(approved)
        } else {
            None
        }
    }
}

/// What answering request `id` with `approved` hands back while `ids` are
/// pending.
pub open spec fn answer_spec(ids: Seq<u64>, id: u64, approved: bool) -> Option<bool> {
    if ids.contains(id) {
        Some(approved)
    } else {
        None
    }
}

/// Whether an answer, if one came, approved the request: a request left
/// unanswered counts as declined.
pub fn granted(answer: Option<bool>) -> (r: bool)
    ensures
        r == (answer == Some(true)),
{
    match answer {
        Some(b) => b,
        None => false,
    }
}

/// `s` with every occurrence of `id` taken out, the rest in order.
pub open spec fn without(s: Seq<u64>, id: u64) -> Seq<u64> {
    s.filter(|x: u64| x != id)
}

/// A registered request resolves to the answer given to it, once: the first
/// answer to the fresh id hands back that answer, and a later answer to the
/// same id hands back nothing.
pub proof fn law_request_resolves_to_answer(p: PendingPermissions, first: bool, later: bool)
    requires
        p.wf(),
    ensures
        answer_spec(p.ids@.push(p.next), p.next, first) == Some(first),
        answer_spec(without(p.ids@.push(p.next), p.next), p.next, later) is None,
{
    law_answer_undoes_request(p);
    assert(!p.ids@.contains(p.next)) by {
        if p.ids@.contains(p.next) {
            let i = choose|i: int| 0 <= i < p.ids@.len() && p.ids@[i] == p.next;
            assert(p.ids@[i] < p.next);
        }
    }
}

/// Answering a request undoes registering it: the fresh id handed out is
/// pending, and once it is answered the pending ids are those from before.
pub proof fn law_answer_undoes_request(p: PendingPermissions)
    requires
        p.wf(),
    ensures
        p.ids@.push(p.next).contains(p.next),
        without(p.ids@.push(p.next), p.next) == p.ids@,
{
    let s = p.ids@;
    assert(s.push(p.next)[s.len() as int] == p.next);
    lemma_without_push(s, p.next, p.next);
    assert(!s.contains(p.next)) by {
        if s.contains(p.next) {
            let i = choose|i: int| 0 <= i < s.len() && s[i] == p.next;
            assert(s[i] < p.next);
        }
    }
    lemma_without_absent(s, p.next);
}

proof fn lemma_without_absent(s: Seq<u64>, id: u64)
    requires
        !s.contains(id),
    ensures
        without(s, id) == s,
    decreases s.len(),
{
    if s.len() > 0 {
        let t = s.drop_last();
        assert(t.push(s.last()) =~= s);
        assert(!t.contains(id)) by {
            if t.contains(id) {
                let k = choose|k: int| 0 <= k < t.len() && t[k] == id;
                assert(s[k] == id);
            }
        }
        assert(s[s.len() - 1] != id);
        lemma_without_absent(t, id);
        lemma_without_push(t, s.last(), id);
    } else {
        reveal(Seq::filter);
        assert(without(s, id) =~= s);
    }
}

proof fn lemma_without_push(s: Seq<u64>, x: u64, id: u64)
    ensures
        without(s.push(x), id) == (if x != id { without(s, id).push(x) } else { without(s, id) }),
{
    reveal(Seq::filter);
    assert(s.push(x).drop_last() =~= s);
}

proof fn lemma_without_keeps(s: Seq<u64>, id: u64)
    requires
        s.no_duplicates(),
    ensures
        without(s, id).no_duplicates(),
        forall|j: int| 0 <= j < without(s, id).len() ==> s.contains(#[trigger] without(s, id)[j]),
    decreases s.len(),
{
    if s.len() > 0 {
        let t = s.drop_last();
        assert(t.push(s.last()) =~= s);
        lemma_without_keeps(t, id);
        lemma_without_push(t, s.last(), id);
        let f = without(t, id);
        assert forall|j: int| 0 <= j < f.len() implies s.contains(#[trigger] f[j]) && f[j] != s.last() by {
            let k = choose|k: int| 0 <= k < t.len() && t[k] == f[j];
            assert(s[k] == f[j]);
        }
        if s.last() != id {
            let g = f.push(s.last());
            assert forall|a: int, b: int| 0 <= a < g.len() && 0 <= b < g.len() && a != b implies g[a] != g[b] by {
                if a < f.len() && b < f.len() {
                } else if a == f.len() {
                    assert(f[b] != s.last());
                } else {
                    assert(f[a] != s.last());
                }
            }
            assert forall|j: int| 0 <= j < g.len() implies s.contains(#[trigger] g[j]) by {
                if j < f.len() {
                    assert(s.contains(f[j]));
                } else {
                    assert(s[s.len() - 1] == g[j]);
                }
            }
        }
    } else {
        reveal(Seq::filter);
    }
}

/// Status line: backend and model in use, memory size, context size.
pub struct Status {
    pub backend: String,
    pub model: String,
    pub mem_chunks: usize,
    pub context_tokens: usize,
}

/// The status for the requested backend name.
pub fn status(router: &Router, requested: &str, mem_chunks: usize, context_tokens: usize) -> (r: Status)
    requires
        router.resolve(requested@) is Some,
    ensures
        r.backend@ == (match router.resolve(requested@) {
            Some(BackendKind::Groq) => "groq"@,
            _ => "gemini"@,
        }),
        r.model == (match router.resolve(requested@) {
            Some(BackendKind::Groq) => router.groq.model,
            _ => router.gemini.model,
        }),
        r.mem_chunks == mem_chunks,
        r.context_tokens == context_tokens,
{
    let k = router.backend(requested);
    Status {
        backend: router.backend_name(k),
        model: router.backend_model(k),
        mem_chunks,
        context_tokens,
    }
}

/// The status for the requested backend name, or `None` when neither the
/// name nor the configured default names a backend.
pub fn try_status(router: &Router, requested: &str, mem_chunks: usize, context_tokens: usize) -> (r: Option<
    Status,
>)
    ensures
        router.resolve(requested@) is None ==> r is None,
        router.resolve(requested@) is Some ==> (r matches Some(st) && st.backend@ == (match router.resolve(
            requested@,
        ) {
            Some(BackendKind::Groq) => "groq"@,
            _ => "gemini"@,
        }) && st.model == (match router.resolve(requested@) {
            Some(BackendKind::Groq) => router.groq.model,
            _ => router.gemini.model,
        }) && st.mem_chunks == mem_chunks && st.context_tokens == context_tokens),
{
    match router.try_backend(requested) {
        Some(_) => Some(status(router, requested, mem_chunks, context_tokens)),
        None => None,
    }
}

/// An entry of the session switcher.
pub struct SessionInfo {
    pub id: i64,
    pub preview: String,
    pub ts: i64,
    pub active: bool,
}

/// The preview of a session: its first user message cut to 60 characters,
/// or "New chat" when there is none.
pub open spec fn preview_spec(first: Seq<char>) -> Seq<char> {
    if trim(first).len() == 0 {
        "New chat"@
    } else {
        take_chars(first, 60)
    }
}

/// The switcher entry of a stored session.
pub fn session_info(id: i64, ts: i64, preview: &str, active: i64) -> (r: SessionInfo)
    ensures
        r.id == id,
        r.ts == ts,
        r.preview@ == preview_spec(preview@),
        r.active == (id == active),
{
    let t = trim_str(preview);
    let p = if t.as_str().is_empty() { "New chat".to_owned() } else { take_chars_str(preview, 60) };
    SessionInfo { id, ts, preview: p, active: id == active }
}

/// Estimated context size of a conversation: a quarter of each message's
/// byte length plus four.
pub open spec fn context_tokens_spec(ms: Seq<ChatMessage>) -> int
    decreases ms.len(),
{
    if ms.len() == 0 {
        0
    } else {
        context_tokens_spec(ms.drop_last()) + utf8_len(ms.last().content@) / 4 + 4
    }
}

proof fn lemma_context_tokens_mono(ms: Seq<ChatMessage>, i: int)
    requires
        0 <= i <= ms.len(),
    ensures
        context_tokens_spec(ms.take(i)) <= context_tokens_spec(ms),
    decreases ms.len() - i,
{
    if i < ms.len() {
        lemma_context_tokens_mono(ms, i + 1);
        assert(ms.take(i + 1).drop_last() =~= ms.take(i));
    } else {
        assert(ms.take(i) =~= ms);
    }
}

/// Estimated context size of a conversation.
pub fn context_tokens(ms: &Vec<ChatMessage>) -> (r: usize)
    requires
        context_tokens_spec(ms@) <= usize::MAX,
    ensures
        r == context_tokens_spec(ms@),
{
    let mut used: usize = 0;
    let mut i: usize = 0;
    while i < ms.len()
        invariant
            i <= ms@.len(),
            context_tokens_spec(ms@) <= usize::MAX,
            used == context_tokens_spec(ms@.take(i as int)),
        decreases ms@.len() - i,
    {
        proof {
            assert(ms@.take(i + 1).drop_last() =~= ms@.take(i as int));
            lemma_context_tokens_mono(ms@, i + 1);
        }
        used = used + byte_len(ms[i].content.as_str()) / 4 + 4;
        i += 1;
    }
    assert(ms@.take(ms@.len() as int) =~= ms@);
    used
}

/// The activity line of a sent chat message.
pub fn chat_note(backend: &str) -> (r: String)
    ensures
        r@ == "→ "@ + backend@,
{
    let mut r = "→ ".to_owned();
    push_str(&mut r, backend);
    r
}

/// The reply when the chosen backend has no API key.
pub fn missing_key_message(backend: &str) -> (r: String)
    ensures
        r@ == "No API key configured for "@ + backend@ + ". Add it to .env and restart."@,
{
    let mut r = "No API key configured for ".to_owned();
    push_str(&mut r, backend);
    push_str(&mut r, ". Add it to .env and restart.");
    r
}

/// The activity line at the start of an ingestion.
pub fn ingest_note(path: &str) -> (r: String)
    ensures
        r@ == "ingesting "@ + path@ + "…"@,
{
    let mut r = "ingesting ".to_owned();
    push_str(&mut r, path);
    push_str(&mut r, "…");
    r
}

/// How many sessions the switcher lists.
pub const SESSION_LIST_LIMIT: usize = 30;

} // verus!
