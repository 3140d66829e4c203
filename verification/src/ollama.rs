//! The generative-text client's data shapes and session logic: the
//! request and response records, the per-client conversation context,
//! the session store keyed by session id, and the routing of user
//! messages received over the wire.

use crate::json::{sp_obj, sp_ws, x_obj, x_ws, tail, JsonLeaf, LeafV};
use vstd::prelude::*;
use vstd::string::StringExecFns;

verus! {

/// One generation request.
#[derive(Debug, Clone, PartialEq)]
pub struct OllamaRequest {
    pub model: String,
    pub prompt: String,
    pub stream: bool,
    pub context: Option<Vec<i64>>,
}

/// One generation response, fields absent where the backend omits them.
#[derive(Debug, Clone, PartialEq)]
pub struct OllamaResponse {
    pub response: String,
    pub context: Option<Vec<i64>>,
    pub done: bool,
    pub done_reason: Option<String>,
    pub model: Option<String>,
    pub created_at: Option<String>,
    pub thinking: Option<String>,
    pub total_duration: Option<u64>,
    pub load_duration: Option<u64>,
    pub prompt_eval_count: Option<u32>,
    pub prompt_eval_duration: Option<u64>,
    pub eval_count: Option<u32>,
    pub eval_duration: Option<u64>,
}

impl OllamaResponse {
    /// Whether the response carries a non-empty thinking trace.
    pub fn has_thinking(&self) -> (r: bool)
        ensures
            r == (self.thinking matches Some(t) && t@.len() > 0),
    {
        match &self.thinking {
            Some(t) => t.as_str().unicode_len() > 0,
            None => false,
        }
    }

    /// Whether generation finished normally: done, and any stated
    /// reason is a plain stop.
    pub fn is_successfully_done(&self) -> (r: bool)
        ensures
            r == (self.done && (match self.done_reason {
                Some(t) => t@ == "stop"@,
                None => true,
            })),
    {
        if !self.done {
            return false;
        }
        match &self.done_reason {
            Some(t) => {
                let stop = String::from_str("stop");
                t.eq(&stop)
            },
            None => true,
        }
    }
}

/// A copy of an optional context vector, value for value.
fn clone_context(c: &Option<Vec<i64>>) -> (r: Option<Vec<i64>>)
    ensures
        view_context(r) == view_context(*c),
{
    match c {
        Some(v) => {
            let copy = v.clone();
            proof {
                assert(copy@ =~= v@);
            }
            Some(copy)
        },
        None => None,
    }
}

/// The abstract value of an optional context vector.
pub open spec fn view_context(c: Option<Vec<i64>>) -> Option<Seq<i64>> {
    match c {
        Some(v) => Some(v@),
        None => None,
    }
}

/// One conversation with the generative backend: the context the last
/// response handed back, threaded into the next request.
pub struct OllamaSession {
    context: Option<Vec<i64>>,
}

impl OllamaSession {
    /// The context held now.
    pub closed spec fn spec_context(&self) -> Option<Seq<i64>> {
        view_context(self.context)
    }

    /// A fresh session with no context.
    pub fn new() -> (s: OllamaSession)
        ensures
            s.spec_context() is None,
    {
        OllamaSession { context: None }
    }

    /// The request for one prompt: a fresh conversation drops the
    /// context first, a continuing one threads it through; the request
    /// never streams.
    pub fn prepare_request(&mut self, prompt: String, model: String, new_session: bool) -> (r:
        OllamaRequest)
        ensures
            r.prompt@ == prompt@,
            r.model@ == model@,
            !r.stream,
            new_session ==> final(self).spec_context() is None && view_context(r.context) is None,
            !new_session ==> final(self).spec_context() == old(self).spec_context()
                && view_context(r.context) == old(self).spec_context(),
    {
        if new_session {
            self.context = None;
        }
        let context = clone_context(&self.context);
        OllamaRequest { model, prompt, stream: false, context }
    }

    /// Keeps the context a response handed back; a response without one
    /// changes nothing.
    pub fn absorb_response(&mut self, response: &OllamaResponse)
        ensures
            response.context matches Some(c) ==> final(self).spec_context() == Some(c@),
            response.context is None ==> final(self).spec_context() == old(self).spec_context(),
    {
        match &response.context {
            Some(c) => {
                let copy = c.clone();
                proof {
                    assert(copy@ =~= c@);
                }
                self.context = Some(copy);
            },
            None => {},
        }
    }

    /// The context held now, copied out.
    pub fn get_context(&self) -> (r: Option<Vec<i64>>)
        ensures
            view_context(r) == self.spec_context(),
    {
        clone_context(&self.context)
    }

    /// Replaces the context.
    pub fn set_context(&mut self, new_context: Vec<i64>)
        ensures
            final(self).spec_context() == Some(new_context@),
    {
        self.context = Some(new_context);
    }

    /// Drops the context.
    pub fn clear_context(&mut self)
        ensures
            final(self).spec_context() is None,
    {
        self.context = None;
    }

    /// Whether a context is held.
    pub fn has_context(&self) -> (r: bool)
        ensures
            r == (self.spec_context() is Some),
    {
        self.context.is_some()
    }

    /// How many entries the context holds; zero without one.
    pub fn context_size(&self) -> (n: usize)
        ensures
            self.spec_context() matches Some(c) ==> n == c.len(),
            self.spec_context() is None ==> n == 0,
    {
        match &self.context {
            Some(c) => c.len(),
            None => 0,
        }
    }
}

/// The context stored under a session id: the value of the first entry
/// with that id.
pub open spec fn store_lookup(s: Seq<(String, Vec<i64>)>, id: Seq<char>) -> Option<Seq<i64>>
    decreases s.len(),
{
    if s.len() == 0 {
        None
    } else if s[0].0@ == id {
        Some(s[0].1@)
    } else {
        store_lookup(s.skip(1), id)
    }
}

/// Conversation contexts kept per session id.
pub struct SessionStore {
    sessions: Vec<(String, Vec<i64>)>,
}

impl SessionStore {
    /// The stored contexts.
    pub closed spec fn spec_sessions(&self) -> Seq<(String, Vec<i64>)> {
        self.sessions@
    }

    /// An empty store.
    pub fn new() -> (s: SessionStore)
        ensures
            s.spec_sessions().len() == 0,
    {
        SessionStore { sessions: Vec::new() }
    }

    /// The context stored under the id, copied out.
    pub fn get_context(&self, session_id: &String) -> (r: Option<Vec<i64>>)
        ensures
            view_context(r) == store_lookup(self.spec_sessions(), session_id@),
    {
        proof {
            assert(self.spec_sessions().skip(0) =~= self.spec_sessions());
        }
        self.lookup_from(0, session_id)
    }

    /// The context stored under the id among the entries from `i` on.
    fn lookup_from(&self, i: usize, session_id: &String) -> (r: Option<Vec<i64>>)
        requires
            i <= self.spec_sessions().len(),
        ensures
            view_context(r) == store_lookup(self.spec_sessions().skip(i as int), session_id@),
        decreases self.spec_sessions().len() - i,
    {
        if i == self.sessions.len() {
            assert(self.spec_sessions().skip(i as int).len() == 0);
            return None;
        }
        assert(self.spec_sessions().skip(i as int)[0] == self.spec_sessions()[i as int]);
        if self.sessions[i].0.eq(session_id) {
            let copy = self.sessions[i].1.clone();
            proof {
                assert(copy@ =~= self.spec_sessions()[i as int].1@);
            }
            Some(copy)
        } else {
            proof {
                assert(self.spec_sessions().skip(i as int).skip(1) =~= self.spec_sessions().skip(
                    i as int + 1,
                ));
            }
            self.lookup_from(i + 1, session_id)
        }
    }

    /// Stores the context under the id, replacing what was there.
    pub fn save_context(&mut self, session_id: String, context: Vec<i64>)
        ensures
            store_lookup(final(self).spec_sessions(), session_id@) == Some(context@),
            forall|id: Seq<char>|
                id != session_id@ ==> #[trigger] store_lookup(final(self).spec_sessions(), id)
                    == store_lookup(old(self).spec_sessions(), id),
    {
        let ghost s0 = self.sessions@;
        self.sessions.insert(0, (session_id, context));
        proof {
            assert(self.sessions@[0].0@ == session_id@);
            assert(self.sessions@.skip(1) =~= s0);
            assert(store_lookup(self.sessions@, session_id@) == Some(context@));
        }
    }
}

/// The first twenty characters of a prompt, for display.
pub fn prompt_preview(s: &str) -> (r: String)
    ensures
        s@.len() > 20 ==> r@ == s@.subrange(0, 20),
        s@.len() <= 20 ==> r@ == s@,
{
    let n = s.unicode_len();
    if n > 20 {
        let cut = s.substring_char(0, 20);
        String::from_str(cut)
    } else {
        String::from_str(s)
    }
}

/// The string stored under a key in a flat object, if the first entry
/// with that key holds a string.
pub open spec fn obj_lookup_str(es: Seq<(Seq<char>, LeafV)>, key: Seq<char>) -> Option<Seq<char>>
    decreases es.len(),
{
    if es.len() == 0 {
        None
    } else if es[0].0 == key {
        match es[0].1 {
            LeafV::Str(t) => Some(t),
            _ => None,
        }
    } else {
        obj_lookup_str(es.skip(1), key)
    }
}

/// What a user message's payload text resolves to: the message body and
/// the originating client. A payload that is a flat object supplies
/// them under the message and client-id keys; anything else is taken
/// verbatim as the body, from an unknown client.
pub open spec fn extract_spec(t: Seq<char>) -> (Seq<char>, Seq<char>) {
    let a = sp_ws(t);
    match sp_obj(a, a.len()) {
        Some((es, r)) => {
            if sp_ws(r).len() == 0 {
                (
                    match obj_lookup_str(es, "message"@) {
                        Some(m) => m,
                        None => t,
                    },
                    match obj_lookup_str(es, "client_id"@) {
                        Some(c) => c,
                        None => "unknown"@,
                    },
                )
            } else {
                (t, "unknown"@)
            }
        },
        None => (t, "unknown"@),
    }
}

/// The string stored under a key, read from the parsed entries.
fn x_lookup_str(es: &Vec<(String, JsonLeaf)>, i: usize, key: &String) -> (r: Option<String>)
    requires
        i <= es@.len(),
    ensures
        (match r {
            Some(t) => Some(t@),
            None => None,
        }) == obj_lookup_str(crate::json::entries_view(es@).skip(i as int), key@),
    decreases es@.len() - i,
{
    let ghost evs = crate::json::entries_view(es@);
    if i == es.len() {
        assert(evs.skip(i as int).len() == 0);
        return None;
    }
    assert(evs.skip(i as int)[0] == evs[i as int]);
    if es[i].0.eq(key) {
        match &es[i].1 {
            JsonLeaf::Str(t) => Some(t.clone()),
            _ => None,
        }
    } else {
        proof {
            assert(evs.skip(i as int).skip(1) =~= evs.skip(i as int + 1));
        }
        x_lookup_str(es, i + 1, key)
    }
}

/// Resolves a user message's payload text to the message body and the
/// originating client, as `extract_spec` says.
pub fn extract_user_message(text: &str) -> (r: (String, String))
    ensures
        r.0@ == extract_spec(text@).0,
        r.1@ == extract_spec(text@).1,
{
    let s = crate::text::string_to_chars(text);
    proof {
        assert(tail(s@, 0) =~= text@);
    }
    let a = x_ws(&s, 0);
    let parsed = x_obj(&s, a);
    match parsed {
        Some((es, j)) => {
            let k = x_ws(&s, j);
            if k == s.len() {
                proof {
                    assert(tail(s@, k as int).len() == 0);
                }
                let message_key = String::from_str("message");
                let client_key = String::from_str("client_id");
                let body = match x_lookup_str(&es, 0, &message_key) {
                    Some(m) => m,
                    None => String::from_str(text),
                };
                let client = match x_lookup_str(&es, 0, &client_key) {
                    Some(c) => c,
                    None => String::from_str("unknown"),
                };
                proof {
                    assert(crate::json::entries_view(es@).skip(0) =~= crate::json::entries_view(
                        es@,
                    ));
                }
                (body, client)
            } else {
                proof {
                    assert(tail(s@, k as int).len() > 0);
                }
                (String::from_str(text), String::from_str("unknown"))
            }
        },
        None => (String::from_str(text), String::from_str("unknown")),
    }
}

/// The topic a reply to the client goes to.
pub fn reply_topic(client_id: &str) -> (r: String)
    ensures
        r@ == "user/message/"@ + client_id@,
{
    let mut r = String::from_str("user/message/");
    r.append(client_id);
    r
}

} // verus!
