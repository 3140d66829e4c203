//! The message envelope: type, content and metadata, with a wire
//! encoding in the shared JSON dialect. The decode path is single and
//! deterministic: the type field is read first and decides the shape of
//! the content. Metadata carries the schema version, a timestamp in
//! seconds since the epoch, and the writer's offset from universal time.

use crate::json::{pr_int, pr_obj, pr_string, sp_i64, sp_obj, sp_string, sp_tok, sp_u64, sp_ws,
    starts_with, LeafV, JsonLeaf, entries_view};
use crate::text::dec_rep;
use vstd::prelude::*;

verus! {

/// The kind of a message.
#[derive(Debug, Clone, Copy, PartialEq, Eq, Structural)]
pub enum MessageType {
    System,
    User,
    Event,
}

/// The outcome an event reports.
#[derive(Debug, Clone, Copy, PartialEq, Eq, Structural)]
pub enum EventStatus {
    Success,
    Error,
}

/// Metadata of an envelope: schema version, creation time in seconds
/// since the epoch, and the writer's offset from universal time in
/// seconds.
#[derive(Debug, Clone, PartialEq)]
pub struct MessageMeta {
    pub schema_version: String,
    pub timestamp_secs: u64,
    pub utc_offset_secs: i32,
}

/// The error an event carries when it reports a failure.
#[derive(Debug, Clone, PartialEq)]
pub struct EventError {
    pub code: String,
    pub message: String,
}

/// The content of an event message.
#[derive(Debug, Clone, PartialEq)]
pub struct EventContent {
    pub source: String,
    pub status: EventStatus,
    pub data: Option<Vec<(String, JsonLeaf)>>,
    pub error: Option<EventError>,
}

/// The content of a message: text for a user message, an event for an
/// event message, a flat object for a system message.
#[derive(Debug, Clone, PartialEq)]
pub enum MessageContent {
    Text(String),
    Event(EventContent),
    Object(Vec<(String, JsonLeaf)>),
}

/// The envelope: the top-level structure of every message.
#[derive(Debug, Clone, PartialEq)]
pub struct Envelope {
    pub message_type: MessageType,
    pub content: MessageContent,
    pub meta: MessageMeta,
}

// ---------------------------------------------------------------------
// abstract values
// ---------------------------------------------------------------------
pub struct MetaV {
    pub schema_version: Seq<char>,
    pub timestamp_secs: u64,
    pub utc_offset_secs: i32,
}

pub struct EventErrorV {
    pub code: Seq<char>,
    pub message: Seq<char>,
}

pub struct EventV {
    pub source: Seq<char>,
    pub status: EventStatus,
    pub data: Option<Seq<(Seq<char>, LeafV)>>,
    pub error: Option<EventErrorV>,
}

pub enum ContentV {
    Text(Seq<char>),
    Event(EventV),
    Object(Seq<(Seq<char>, LeafV)>),
}

pub struct EnvV {
    pub message_type: MessageType,
    pub content: ContentV,
    pub meta: MetaV,
}

pub open spec fn meta_view(m: MessageMeta) -> MetaV {
    MetaV {
        schema_version: m.schema_version@,
        timestamp_secs: m.timestamp_secs,
        utc_offset_secs: m.utc_offset_secs,
    }
}

pub open spec fn error_view(e: EventError) -> EventErrorV {
    EventErrorV { code: e.code@, message: e.message@ }
}

pub open spec fn event_view(e: EventContent) -> EventV {
    EventV {
        source: e.source@,
        status: e.status,
        data: match e.data {
            Some(d) => Some(entries_view(d@)),
            None => None,
        },
        error: match e.error {
            Some(er) => Some(error_view(er)),
            None => None,
        },
    }
}

pub open spec fn content_view(c: MessageContent) -> ContentV {
    match c {
        MessageContent::Text(t) => ContentV::Text(t@),
        MessageContent::Event(e) => ContentV::Event(event_view(e)),
        MessageContent::Object(o) => ContentV::Object(entries_view(o@)),
    }
}

pub open spec fn env_view(e: Envelope) -> EnvV {
    EnvV {
        message_type: e.message_type,
        content: content_view(e.content),
        meta: meta_view(e.meta),
    }
}

/// The content shape agrees with the message type: text for a user
/// message, an event for an event message, an object for a system
/// message.
pub open spec fn content_matches(mt: MessageType, c: ContentV) -> bool {
    match mt {
        MessageType::User => c is Text,
        MessageType::Event => c is Event,
        MessageType::System => c is Object,
    }
}

/// A well-formed envelope: the content shape agrees with the type.
pub open spec fn env_wf(e: EnvV) -> bool {
    content_matches(e.message_type, e.content)
}

/// The metadata an envelope without any carries: the current schema
/// version, the epoch, and the east-eight offset. Stamping the reading
/// time here would make decoding depend on the clock; this layer keeps
/// decoding a pure function of the text, so an absent timestamp is the
/// epoch, deliberately. A writer that wants the current time stamps it
/// before encoding, as `MessageMeta::new` does.
pub open spec fn default_meta() -> MetaV {
    MetaV { schema_version: "v0"@, timestamp_secs: 0, utc_offset_secs: 28800 }
}

// ---------------------------------------------------------------------
// printing
// ---------------------------------------------------------------------
pub open spec fn pr_mtype(mt: MessageType) -> Seq<char> {
    match mt {
        MessageType::System => "\"system\""@,
        MessageType::User => "\"user\""@,
        MessageType::Event => "\"event\""@,
    }
}

pub open spec fn pr_status(st: EventStatus) -> Seq<char> {
    match st {
        EventStatus::Success => "\"ok\""@,
        EventStatus::Error => "\"error\""@,
    }
}

pub open spec fn pr_err(e: EventErrorV) -> Seq<char> {
    "{\"code\":"@ + pr_string(e.code) + ",\"message\":"@ + pr_string(e.message) + seq!['}']
}

pub open spec fn pr_event(e: EventV) -> Seq<char> {
    "{\"source\":"@ + pr_string(e.source) + ",\"status\":"@ + pr_status(e.status) + (
    match e.data {
        Some(d) => ",\"data\":"@ + pr_obj(d),
        None => Seq::empty(),
    }) + (match e.error {
        Some(er) => ",\"error\":"@ + pr_err(er),
        None => Seq::empty(),
    }) + seq!['}']
}

pub open spec fn pr_content(c: ContentV) -> Seq<char> {
    match c {
        ContentV::Text(t) => pr_string(t),
        ContentV::Event(e) => pr_event(e),
        ContentV::Object(o) => pr_obj(o),
    }
}

pub open spec fn pr_meta(m: MetaV) -> Seq<char> {
    "{\"schema_version\":"@ + pr_string(m.schema_version) + ",\"timestamp\":"@ + dec_rep(
        m.timestamp_secs as nat,
    ) + ",\"utc_offset\":"@ + pr_int(m.utc_offset_secs as int) + seq!['}']
}

pub open spec fn pr_env(e: EnvV) -> Seq<char> {
    "{\"type\":"@ + pr_mtype(e.message_type) + ",\"content\":"@ + pr_content(e.content)
        + ",\"meta\":"@ + pr_meta(e.meta) + seq!['}']
}

// ---------------------------------------------------------------------
// parsing
// ---------------------------------------------------------------------
/// Parses the message type token.
pub open spec fn sp_mtype(s: Seq<char>) -> Option<(MessageType, Seq<char>)> {
    if starts_with(s, "\"system\""@) {
        Some((MessageType::System, s.skip("\"system\""@.len() as int)))
    } else if starts_with(s, "\"user\""@) {
        Some((MessageType::User, s.skip("\"user\""@.len() as int)))
    } else if starts_with(s, "\"event\""@) {
        Some((MessageType::Event, s.skip("\"event\""@.len() as int)))
    } else {
        None
    }
}

/// Parses the status token.
pub open spec fn sp_status(s: Seq<char>) -> Option<(EventStatus, Seq<char>)> {
    if starts_with(s, "\"ok\""@) {
        Some((EventStatus::Success, s.skip("\"ok\""@.len() as int)))
    } else if starts_with(s, "\"error\""@) {
        Some((EventStatus::Error, s.skip("\"error\""@.len() as int)))
    } else {
        None
    }
}

/// Parses one key: the quoted name, optional whitespace, and the colon.
pub open spec fn sp_key(s: Seq<char>, name: Seq<char>) -> Option<Seq<char>> {
    match sp_tok(s, name) {
        None => None,
        Some(r0) => {
            let r1 = sp_ws(r0);
            if r1.len() > 0 && r1[0] == ':' {
                Some(sp_ws(r1.skip(1)))
            } else {
                None
            }
        },
    }
}

/// Parses the error object of an event.
pub open spec fn sp_err(s: Seq<char>) -> Option<(EventErrorV, Seq<char>)> {
    if s.len() > 0 && s[0] == '{' {
        let a = sp_ws(s.skip(1));
        match sp_key(a, "\"code\""@) {
            None => None,
            Some(b) => match sp_string(b) {
                None => None,
                Some((code, c0)) => {
                    let c = sp_ws(c0);
                    if c.len() > 0 && c[0] == ',' {
                        let d = sp_ws(c.skip(1));
                        match sp_key(d, "\"message\""@) {
                            None => None,
                            Some(e) => match sp_string(e) {
                                None => None,
                                Some((message, f0)) => {
                                    let f = sp_ws(f0);
                                    if f.len() > 0 && f[0] == '}' {
                                        Some((EventErrorV { code, message }, f.skip(1)))
                                    } else {
                                        None
                                    }
                                },
                            },
                        }
                    } else {
                        None
                    }
                },
            },
        }
    } else {
        None
    }
}

/// Parses what may follow the status of an event: nothing, a data
/// object, an error object, or both in that order, then the closing
/// brace.
pub open spec fn sp_event_tail(source: Seq<char>, status: EventStatus, s: Seq<char>) -> Option<
    (EventV, Seq<char>)> {
    if s.len() > 0 && s[0] == '}' {
        Some((EventV { source, status, data: None, error: None }, s.skip(1)))
    } else if s.len() > 0 && s[0] == ',' {
        let a = sp_ws(s.skip(1));
        if starts_with(a, "\"data\""@) {
            match sp_key(a, "\"data\""@) {
                None => None,
                Some(b) => match sp_obj(b, b.len()) {
                    None => None,
                    Some((data, c0)) => {
                        let c = sp_ws(c0);
                        if c.len() > 0 && c[0] == '}' {
                            Some(
                                (
                                    EventV { source, status, data: Some(data), error: None },
                                    c.skip(1),
                                ),
                            )
                        } else if c.len() > 0 && c[0] == ',' {
                            let d = sp_ws(c.skip(1));
                            match sp_key(d, "\"error\""@) {
                                None => None,
                                Some(e) => match sp_err(e) {
                                    None => None,
                                    Some((error, f0)) => {
                                        let f = sp_ws(f0);
                                        if f.len() > 0 && f[0] == '}' {
                                            Some(
                                                (
                                                    EventV {
                                                        source,
                                                        status,
                                                        data: Some(data),
                                                        error: Some(error),
                                                    },
                                                    f.skip(1),
                                                ),
                                            )
                                        } else {
                                            None
                                        }
                                    },
                                },
                            }
                        } else {
                            None
                        }
                    },
                },
            }
        } else {
            match sp_key(a, "\"error\""@) {
                None => None,
                Some(e) => match sp_err(e) {
                    None => None,
                    Some((error, f0)) => {
                        let f = sp_ws(f0);
                        if f.len() > 0 && f[0] == '}' {
                            Some(
                                (
                                    EventV { source, status, data: None, error: Some(error) },
                                    f.skip(1),
                                ),
                            )
                        } else {
                            None
                        }
                    },
                },
            }
        }
    } else {
        None
    }
}

/// Parses an event content object.
pub open spec fn sp_event(s: Seq<char>) -> Option<(EventV, Seq<char>)> {
    if s.len() > 0 && s[0] == '{' {
        let a = sp_ws(s.skip(1));
        match sp_key(a, "\"source\""@) {
            None => None,
            Some(b) => match sp_string(b) {
                None => None,
                Some((source, c0)) => {
                    let c = sp_ws(c0);
                    if c.len() > 0 && c[0] == ',' {
                        let d = sp_ws(c.skip(1));
                        match sp_key(d, "\"status\""@) {
                            None => None,
                            Some(e) => match sp_status(e) {
                                None => None,
                                Some((status, f0)) => sp_event_tail(source, status, sp_ws(f0)),
                            },
                        }
                    } else {
                        None
                    }
                },
            },
        }
    } else {
        None
    }
}

/// Parses the content by the already-read message type: a string for a
/// user message, an event object for an event, a flat object for a
/// system message.
pub open spec fn sp_content(mt: MessageType, s: Seq<char>) -> Option<(ContentV, Seq<char>)> {
    match mt {
        MessageType::User => match sp_string(s) {
            Some((t, r)) => Some((ContentV::Text(t), r)),
            None => None,
        },
        MessageType::Event => match sp_event(s) {
            Some((e, r)) => Some((ContentV::Event(e), r)),
            None => None,
        },
        MessageType::System => match sp_obj(s, s.len()) {
            Some((o, r)) => Some((ContentV::Object(o), r)),
            None => None,
        },
    }
}

/// Parses a metadata object: empty, the schema version alone, or the
/// full form the printer writes.
pub open spec fn sp_meta(s: Seq<char>) -> Option<(MetaV, Seq<char>)> {
    if s.len() > 0 && s[0] == '{' {
        let a = sp_ws(s.skip(1));
        if a.len() > 0 && a[0] == '}' {
            Some((default_meta(), a.skip(1)))
        } else {
            match sp_key(a, "\"schema_version\""@) {
                None => None,
                Some(b) => match sp_string(b) {
                    None => None,
                    Some((sv, c0)) => {
                        let c = sp_ws(c0);
                        if c.len() > 0 && c[0] == '}' {
                            Some(
                                (
                                    MetaV {
                                        schema_version: sv,
                                        timestamp_secs: 0,
                                        utc_offset_secs: 28800,
                                    },
                                    c.skip(1),
                                ),
                            )
                        } else if c.len() > 0 && c[0] == ',' {
                            let d = sp_ws(c.skip(1));
                            match sp_key(d, "\"timestamp\""@) {
                                None => None,
                                Some(e) => match sp_u64(e) {
                                    None => None,
                                    Some((ts, f0)) => {
                                        let f = sp_ws(f0);
                                        if f.len() > 0 && f[0] == ',' {
                                            let g = sp_ws(f.skip(1));
                                            match sp_key(g, "\"utc_offset\""@) {
                                                None => None,
                                                Some(h) => match sp_i64(h) {
                                                    None => None,
                                                    Some((off, i0)) => {
                                                        if i32::MIN <= off <= i32::MAX {
                                                            let i1 = sp_ws(i0);
                                                            if i1.len() > 0 && i1[0] == '}' {
                                                                Some(
                                                                    (
                                                                        MetaV {
                                                                            schema_version: sv,
                                                                            timestamp_secs: ts,
                                                                            utc_offset_secs: off as i32,
                                                                        },
                                                                        i1.skip(1),
                                                                    ),
                                                                )
                                                            } else {
                                                                None
                                                            }
                                                        } else {
                                                            None
                                                        }
                                                    },
                                                },
                                            }
                                        } else {
                                            None
                                        }
                                    },
                                },
                            }
                        } else {
                            None
                        }
                    },
                },
            }
        }
    } else {
        None
    }
}

/// Parses a whole envelope: the entire input, whitespace tolerated
/// between tokens, the type first, then the content it dictates, then
/// optionally the metadata.
pub open spec fn sp_env(s: Seq<char>) -> Option<EnvV> {
    let a = sp_ws(s);
    if a.len() > 0 && a[0] == '{' {
        let b = sp_ws(a.skip(1));
        match sp_key(b, "\"type\""@) {
            None => None,
            Some(c) => match sp_mtype(c) {
                None => None,
                Some((mt, d0)) => {
                    let d = sp_ws(d0);
                    if d.len() > 0 && d[0] == ',' {
                        let e = sp_ws(d.skip(1));
                        match sp_key(e, "\"content\""@) {
                            None => None,
                            Some(f) => match sp_content(mt, f) {
                                None => None,
                                Some((ct, g0)) => {
                                    let g = sp_ws(g0);
                                    if g.len() > 0 && g[0] == '}' {
                                        let h = sp_ws(g.skip(1));
                                        if h.len() == 0 {
                                            Some(
                                                EnvV {
                                                    message_type: mt,
                                                    content: ct,
                                                    meta: default_meta(),
                                                },
                                            )
                                        } else {
                                            None
                                        }
                                    } else if g.len() > 0 && g[0] == ',' {
                                        let h = sp_ws(g.skip(1));
                                        match sp_key(h, "\"meta\""@) {
                                            None => None,
                                            Some(i0) => match sp_meta(i0) {
                                                None => None,
                                                Some((meta, j0)) => {
                                                    let j = sp_ws(j0);
                                                    if j.len() > 0 && j[0] == '}' {
                                                        let k = sp_ws(j.skip(1));
                                                        if k.len() == 0 {
                                                            Some(
                                                                EnvV {
                                                                    message_type: mt,
                                                                    content: ct,
                                                                    meta,
                                                                },
                                                            )
                                                        } else {
                                                            None
                                                        }
                                                    } else {
                                                        None
                                                    }
                                                },
                                            },
                                        }
                                    } else {
                                        None
                                    }
                                },
                            },
                        }
                    } else {
                        None
                    }
                },
            },
        }
    } else {
        None
    }
}

// ---------------------------------------------------------------------
// round trip
// ---------------------------------------------------------------------
/// A key literal followed by a colon and the value parses as that key.
proof fn lemma_sp_key(name: Seq<char>, value: Seq<char>)
    requires
        value.len() > 0,
        !crate::json::is_ws(value[0]),
    ensures
        sp_key(name + seq![':'] + value, name) == Some(value),
{
    let w = name + seq![':'] + value;
    crate::json::lemma_starts_with_concat(name, seq![':'] + value);
    assert(w =~= name + (seq![':'] + value));
    assert(sp_tok(w, name) == Some(seq![':'] + value));
    let r0 = seq![':'] + value;
    assert(r0[0] == ':');
    crate::json::lemma_sp_ws_len(r0);
    assert(r0.skip(1) =~= value);
    crate::json::lemma_sp_ws_len(value);
}

/// The printed content starts with a quote or a brace.
proof fn lemma_pr_content_first(c: ContentV)
    ensures
        pr_content(c).len() > 0,
        pr_content(c)[0] == '"' || pr_content(c)[0] == '{',
{
    reveal_strlit("{\"source\":");
    match c {
        ContentV::Text(t) => {
            assert(pr_string(t)[0] == '"');
        },
        ContentV::Event(e) => {
            assert(pr_event(e)[0] == "{\"source\":"@[0]);
        },
        ContentV::Object(o) => {
            assert(pr_obj(o)[0] == '{');
        },
    }
}

/// Parsing inverts printing for event errors.
#[verifier::rlimit(100)]
proof fn lemma_err_rt(e: EventErrorV, rest: Seq<char>)
    ensures
        sp_err(pr_err(e) + rest) == Some((e, rest)),
{
    reveal_strlit("{\"code\":");
    reveal_strlit(",\"message\":");
    reveal_strlit("\"code\"");
    reveal_strlit("\"message\"");
    let w = pr_err(e) + rest;
    let t2 = pr_string(e.message) + seq!['}'] + rest;
    let t1 = ",\"message\":"@ + t2;
    let t0 = pr_string(e.code) + t1;
    assert(w =~= seq!['{'] + ("\"code\""@ + seq![':'] + t0));
    assert(w[0] == '{');
    assert(w.skip(1) =~= "\"code\""@ + seq![':'] + t0);
    assert(w.skip(1)[0] == '"');
    crate::json::lemma_sp_ws_len(w.skip(1));
    assert(t0[0] == '"');
    lemma_sp_key("\"code\""@, t0);
    crate::json::lemma_string_round_trip(e.code, t1);
    assert(t1[0] == ',');
    crate::json::lemma_sp_ws_len(t1);
    assert(t1.skip(1) =~= "\"message\""@ + seq![':'] + t2);
    assert(t1.skip(1)[0] == '"');
    crate::json::lemma_sp_ws_len(t1.skip(1));
    assert(t2[0] == '"');
    lemma_sp_key("\"message\""@, t2);
    let f = seq!['}'] + rest;
    assert(t2 =~= pr_string(e.message) + f);
    crate::json::lemma_string_round_trip(e.message, f);
    assert(sp_string(t2) == Some((e.message, f)));
    assert(f[0] == '}');
    crate::json::lemma_sp_ws_len(f);
    assert(f.skip(1) =~= rest);
    assert(EventErrorV { code: e.code, message: e.message } == e);
    assert(sp_err(pr_err(e) + rest) == Some((e, rest)));
}

/// Parsing inverts printing for event content.
#[verifier::rlimit(100)]
proof fn lemma_event_rt(e: EventV, rest: Seq<char>)
    ensures
        sp_event(pr_event(e) + rest) == Some((e, rest)),
{
    reveal_strlit("{\"source\":");
    reveal_strlit(",\"status\":");
    reveal_strlit(",\"data\":");
    reveal_strlit(",\"error\":");
    reveal_strlit("\"source\"");
    reveal_strlit("\"status\"");
    reveal_strlit("\"data\"");
    reveal_strlit("\"error\"");
    reveal_strlit("\"ok\"");
    reveal_strlit("\"error\"");
    let w = pr_event(e) + rest;
    let data_part = (match e.data {
        Some(d) => ",\"data\":"@ + pr_obj(d),
        None => Seq::<char>::empty(),
    });
    let error_part = (match e.error {
        Some(er) => ",\"error\":"@ + pr_err(er),
        None => Seq::<char>::empty(),
    });
    let t3 = data_part + error_part + seq!['}'] + rest;
    assert(t3 == event_tail_text(e, rest));
    let t2 = pr_status(e.status) + t3;
    let t1 = ",\"status\":"@ + t2;
    let t0 = pr_string(e.source) + t1;
    assert(w =~= seq!['{'] + ("\"source\""@ + seq![':'] + t0));
    assert(w[0] == '{');
    assert(w.skip(1) =~= "\"source\""@ + seq![':'] + t0);
    assert(w.skip(1)[0] == '"');
    crate::json::lemma_sp_ws_len(w.skip(1));
    assert(t0[0] == '"');
    lemma_sp_key("\"source\""@, t0);
    crate::json::lemma_string_round_trip(e.source, t1);
    assert(t1[0] == ',');
    crate::json::lemma_sp_ws_len(t1);
    assert(t1.skip(1) =~= "\"status\""@ + seq![':'] + t2);
    assert(t1.skip(1)[0] == '"');
    crate::json::lemma_sp_ws_len(t1.skip(1));
    assert(t2[0] == '"');
    lemma_sp_key("\"status\""@, t2);
    // the status token
    match e.status {
        EventStatus::Success => {
            crate::json::lemma_starts_with_concat("\"ok\""@, t3);
            assert(t2 =~= "\"ok\""@ + t3);
            assert(sp_status(t2) == Some((EventStatus::Success, t3)));
        },
        EventStatus::Error => {
            crate::json::lemma_starts_with_concat("\"error\""@, t3);
            assert(t2 =~= "\"error\""@ + t3);
            assert(!starts_with(t2, "\"ok\""@)) by {
                if starts_with(t2, "\"ok\""@) {
                    assert(t2.subrange(0, 4)[1] == 'o');
                    assert(t2[1] == 'e');
                }
            }
            assert(sp_status(t2) == Some((EventStatus::Error, t3)));
        },
    }
    crate::json::lemma_sp_ws_len(t3);
    lemma_event_tail_rt(e, rest);
    assert(sp_event_tail(e.source, e.status, t3) == Some((e, rest)));
}

/// The text after an event's status parses back to the event's data
/// and error parts.
#[verifier::rlimit(100)]
proof fn lemma_event_tail_rt(e: EventV, rest: Seq<char>)
    ensures
        sp_event_tail(e.source, e.status, event_tail_text(e, rest)) == Some((e, rest)),
{
    reveal_strlit(",\"data\":");
    reveal_strlit(",\"error\":");
    reveal_strlit("\"data\"");
    reveal_strlit("\"error\"");
    let t3 = event_tail_text(e, rest);
    match e.data {
        None => {
            match e.error {
                None => {
                    assert(t3 =~= seq!['}'] + rest);
                    assert(t3[0] == '}');
                    assert(t3.skip(1) =~= rest);
                    assert(EventV { source: e.source, status: e.status, data: None, error: None }
                        == e);
                },
                Some(er) => {
                    let u1 = "\"error\""@ + seq![':'] + (pr_err(er) + seq!['}'] + rest);
                    assert(t3 =~= seq![','] + u1);
                    assert(t3[0] == ',');
                    assert(t3.skip(1) =~= u1);
                    assert(u1[0] == '"');
                    crate::json::lemma_sp_ws_len(u1);
                    assert(!starts_with(u1, "\"data\""@)) by {
                        if starts_with(u1, "\"data\""@) {
                            assert(u1.subrange(0, 6)[1] == 'd');
                            assert(u1[1] == 'e');
                        }
                    }
                    lemma_pr_err_first(er);
                    let f = seq!['}'] + rest;
                    assert(pr_err(er) + seq!['}'] + rest =~= pr_err(er) + f);
                    lemma_sp_key("\"error\""@, pr_err(er) + seq!['}'] + rest);
                    lemma_err_rt(er, f);
                    assert(sp_err(pr_err(er) + seq!['}'] + rest) == Some((er, f)));
                    assert(f[0] == '}');
                    crate::json::lemma_sp_ws_len(f);
                    assert(f.skip(1) =~= rest);
                    assert(EventV {
                        source: e.source,
                        status: e.status,
                        data: None,
                        error: Some(er),
                    } == e);
                },
            }
        },
        Some(d) => {
            let error_part = (match e.error {
                Some(er) => ",\"error\":"@ + pr_err(er),
                None => Seq::<char>::empty(),
            });
            let after_obj = error_part + seq!['}'] + rest;
            let u1 = "\"data\""@ + seq![':'] + (pr_obj(d) + after_obj);
            assert(t3 =~= seq![','] + u1);
            assert(t3[0] == ',');
            assert(t3.skip(1) =~= u1);
            assert(u1[0] == '"');
            crate::json::lemma_sp_ws_len(u1);
            crate::json::lemma_starts_with_concat("\"data\""@, seq![':'] + (pr_obj(d)
                + after_obj));
            assert(u1 =~= "\"data\""@ + (seq![':'] + (pr_obj(d) + after_obj)));
            lemma_pr_obj_first(d);
            lemma_sp_key("\"data\""@, pr_obj(d) + after_obj);
            let b = pr_obj(d) + after_obj;
            crate::json::lemma_pr_entries_len(d);
            crate::json::lemma_obj_round_trip(d, after_obj, b.len());
            assert(crate::json::sp_obj(b, b.len()) == Some((d, after_obj)));
            crate::json::lemma_sp_ws_len(after_obj);
            match e.error {
                None => {
                    assert(after_obj =~= seq!['}'] + rest);
                    assert(after_obj[0] == '}');
                    assert(after_obj.skip(1) =~= rest);
                    assert(EventV {
                        source: e.source,
                        status: e.status,
                        data: Some(d),
                        error: None,
                    } == e);
                },
                Some(er) => {
                    let v1 = "\"error\""@ + seq![':'] + (pr_err(er) + seq!['}'] + rest);
                    assert(after_obj =~= seq![','] + v1);
                    assert(after_obj[0] == ',');
                    assert(after_obj.skip(1) =~= v1);
                    assert(v1[0] == '"');
                    crate::json::lemma_sp_ws_len(v1);
                    lemma_pr_err_first(er);
                    let f = seq!['}'] + rest;
                    assert(pr_err(er) + seq!['}'] + rest =~= pr_err(er) + f);
                    lemma_sp_key("\"error\""@, pr_err(er) + seq!['}'] + rest);
                    lemma_err_rt(er, f);
                    assert(sp_err(pr_err(er) + seq!['}'] + rest) == Some((er, f)));
                    assert(f[0] == '}');
                    crate::json::lemma_sp_ws_len(f);
                    assert(f.skip(1) =~= rest);
                    assert(EventV {
                        source: e.source,
                        status: e.status,
                        data: Some(d),
                        error: Some(er),
                    } == e);
                },
            }
        },
    }
}

/// The text an event's printed form holds after its status.
pub open spec fn event_tail_text(e: EventV, rest: Seq<char>) -> Seq<char> {
    (match e.data {
        Some(d) => ",\"data\":"@ + pr_obj(d),
        None => Seq::<char>::empty(),
    }) + (match e.error {
        Some(er) => ",\"error\":"@ + pr_err(er),
        None => Seq::<char>::empty(),
    }) + seq!['}'] + rest
}

/// The printed error object starts with a brace.
proof fn lemma_pr_err_first(e: EventErrorV)
    ensures
        pr_err(e).len() > 0,
        pr_err(e)[0] == '{',
{
    reveal_strlit("{\"code\":");
    assert(pr_err(e)[0] == "{\"code\":"@[0]);
}

/// The printed object starts with a brace.
proof fn lemma_pr_obj_first(d: Seq<(Seq<char>, LeafV)>)
    ensures
        pr_obj(d).len() > 0,
        pr_obj(d)[0] == '{',
{
    assert(pr_obj(d)[0] == '{');
}

/// Parsing inverts printing for metadata.
#[verifier::rlimit(100)]
proof fn lemma_meta_rt(m: MetaV, rest: Seq<char>)
    ensures
        sp_meta(pr_meta(m) + rest) == Some((m, rest)),
{
    reveal_strlit("{\"schema_version\":");
    reveal_strlit(",\"timestamp\":");
    reveal_strlit(",\"utc_offset\":");
    reveal_strlit("\"schema_version\"");
    reveal_strlit("\"timestamp\"");
    reveal_strlit("\"utc_offset\"");
    let w = pr_meta(m) + rest;
    let t4 = crate::json::pr_int(m.utc_offset_secs as int) + seq!['}'] + rest;
    let t3 = ",\"utc_offset\":"@ + t4;
    let t2 = dec_rep(m.timestamp_secs as nat) + t3;
    let t1 = ",\"timestamp\":"@ + t2;
    let t0 = pr_string(m.schema_version) + t1;
    assert(w =~= seq!['{'] + ("\"schema_version\""@ + seq![':'] + t0));
    assert(w[0] == '{');
    assert(w.skip(1) =~= "\"schema_version\""@ + seq![':'] + t0);
    assert(w.skip(1)[0] == '"');
    crate::json::lemma_sp_ws_len(w.skip(1));
    assert(t0[0] == '"');
    lemma_sp_key("\"schema_version\""@, t0);
    crate::json::lemma_string_round_trip(m.schema_version, t1);
    assert(t1[0] == ',');
    crate::json::lemma_sp_ws_len(t1);
    assert(t1.skip(1) =~= "\"timestamp\""@ + seq![':'] + t2);
    assert(t1.skip(1)[0] == '"');
    crate::json::lemma_sp_ws_len(t1.skip(1));
    crate::text::lemma_dec_rep_digits(m.timestamp_secs as nat);
    assert(t2[0] == dec_rep(m.timestamp_secs as nat)[0]);
    assert(!crate::json::is_ws(t2[0]));
    lemma_sp_key("\"timestamp\""@, t2);
    assert(t3[0] == ',');
    assert(!crate::text::is_dec_digit(','));
    crate::json::lemma_u64_round_trip(m.timestamp_secs, t3);
    crate::json::lemma_sp_ws_len(t3);
    assert(t3.skip(1) =~= "\"utc_offset\""@ + seq![':'] + t4);
    assert(t3.skip(1)[0] == '"');
    crate::json::lemma_sp_ws_len(t3.skip(1));
    if m.utc_offset_secs < 0 {
        assert(t4[0] == '-');
    } else {
        crate::text::lemma_dec_rep_digits(m.utc_offset_secs as nat);
        assert(t4[0] == dec_rep(m.utc_offset_secs as nat)[0]);
        assert(crate::text::is_dec_digit(t4[0]));
    }
    assert(!crate::json::is_ws(t4[0]));
    lemma_sp_key("\"utc_offset\""@, t4);
    let close = seq!['}'] + rest;
    assert(t4 =~= crate::json::pr_int(m.utc_offset_secs as int) + close);
    assert(close[0] == '}');
    assert(!crate::text::is_dec_digit('}'));
    crate::json::lemma_i64_round_trip(m.utc_offset_secs as i64, close);
    assert(crate::json::sp_i64(t4) == Some((m.utc_offset_secs as i64, close)));
    crate::json::lemma_sp_ws_len(close);
    assert(close.skip(1) =~= rest);
}

/// Decoding inverts encoding: the printed form of a well-formed
/// envelope parses back to exactly that envelope.
#[verifier::rlimit(100)]
pub proof fn lemma_env_round_trip(e: EnvV)
    requires
        env_wf(e),
    ensures
        sp_env(pr_env(e)) == Some(e),
{
    reveal_strlit("{\"type\":");
    reveal_strlit(",\"content\":");
    reveal_strlit(",\"meta\":");
    reveal_strlit("\"type\"");
    reveal_strlit("\"content\"");
    reveal_strlit("\"meta\"");
    reveal_strlit("\"system\"");
    reveal_strlit("\"user\"");
    reveal_strlit("\"event\"");
    let w = pr_env(e);
    let t4 = pr_meta(e.meta) + seq!['}'];
    let t3 = ",\"meta\":"@ + t4;
    let t2 = pr_content(e.content) + t3;
    let t1 = ",\"content\":"@ + t2;
    let t0 = pr_mtype(e.message_type) + t1;
    assert(w =~= seq!['{'] + ("\"type\""@ + seq![':'] + t0));
    crate::json::lemma_sp_ws_len(w);
    assert(w[0] == '{');
    assert(w.skip(1) =~= "\"type\""@ + seq![':'] + t0);
    assert(w.skip(1)[0] == '"');
    crate::json::lemma_sp_ws_len(w.skip(1));
    assert(t0[0] == '"');
    lemma_sp_key("\"type\""@, t0);
    // the type token
    match e.message_type {
        MessageType::System => {
            crate::json::lemma_starts_with_concat("\"system\""@, t1);
            assert(t0 =~= "\"system\""@ + t1);
            assert(sp_mtype(t0) == Some((MessageType::System, t1)));
        },
        MessageType::User => {
            crate::json::lemma_starts_with_concat("\"user\""@, t1);
            assert(t0 =~= "\"user\""@ + t1);
            assert(!starts_with(t0, "\"system\""@)) by {
                if starts_with(t0, "\"system\""@) {
                    assert(t0.subrange(0, 8)[1] == 's');
                    assert(t0[1] == 'u');
                }
            }
            assert(sp_mtype(t0) == Some((MessageType::User, t1)));
        },
        MessageType::Event => {
            crate::json::lemma_starts_with_concat("\"event\""@, t1);
            assert(t0 =~= "\"event\""@ + t1);
            assert(!starts_with(t0, "\"system\""@)) by {
                if starts_with(t0, "\"system\""@) {
                    assert(t0.subrange(0, 8)[1] == 's');
                    assert(t0[1] == 'e');
                }
            }
            assert(!starts_with(t0, "\"user\""@)) by {
                if starts_with(t0, "\"user\""@) {
                    assert(t0.subrange(0, 6)[1] == 'u');
                    assert(t0[1] == 'e');
                }
            }
            assert(sp_mtype(t0) == Some((MessageType::Event, t1)));
        },
    }
    assert(t1[0] == ',');
    crate::json::lemma_sp_ws_len(t1);
    assert(t1.skip(1) =~= "\"content\""@ + seq![':'] + t2);
    assert(t1.skip(1)[0] == '"');
    crate::json::lemma_sp_ws_len(t1.skip(1));
    lemma_pr_content_first(e.content);
    assert(t2[0] == pr_content(e.content)[0]);
    assert(!crate::json::is_ws(t2[0]));
    lemma_sp_key("\"content\""@, t2);
    // the content by kind
    match e.content {
        ContentV::Text(t) => {
            crate::json::lemma_string_round_trip(t, t3);
            assert(t2 =~= pr_string(t) + t3);
            assert(sp_content(e.message_type, t2) == Some((e.content, t3)));
        },
        ContentV::Event(ev) => {
            lemma_event_rt(ev, t3);
            assert(t2 =~= pr_event(ev) + t3);
            assert(sp_content(e.message_type, t2) == Some((e.content, t3)));
        },
        ContentV::Object(o) => {
            crate::json::lemma_pr_entries_len(o);
            crate::json::lemma_obj_round_trip(o, t3, t2.len());
            assert(t2 =~= pr_obj(o) + t3);
            assert(sp_content(e.message_type, t2) == Some((e.content, t3)));
        },
    }
    assert(t3[0] == ',');
    crate::json::lemma_sp_ws_len(t3);
    assert(t3.skip(1) =~= "\"meta\""@ + seq![':'] + t4);
    assert(t3.skip(1)[0] == '"');
    crate::json::lemma_sp_ws_len(t3.skip(1));
    lemma_pr_meta_first(e.meta);
    assert(t4[0] == pr_meta(e.meta)[0]);
    assert(!crate::json::is_ws(t4[0]));
    lemma_sp_key("\"meta\""@, t4);
    lemma_meta_rt(e.meta, seq!['}']);
    assert(t4 =~= pr_meta(e.meta) + seq!['}']);
    let j = seq!['}'];
    assert(j[0] == '}');
    crate::json::lemma_sp_ws_len(j);
    assert(j.skip(1) =~= Seq::<char>::empty());
    crate::json::lemma_sp_ws_len(j.skip(1));
}

/// Decoding also inverts the indented form: the pretty-printed text of
/// a well-formed envelope parses back to exactly that envelope, since
/// the parser tolerates whitespace between tokens.
#[verifier::rlimit(100)]
pub proof fn lemma_env_pretty_round_trip(e: EnvV)
    requires
        env_wf(e),
    ensures
        sp_env(pr_env_pretty(e)) == Some(e),
{
    reveal_strlit("{\n  \"type\": ");
    reveal_strlit(",\n  \"content\": ");
    reveal_strlit(",\n  \"meta\": ");
    reveal_strlit("\n}");
    reveal_strlit("\n  ");
    reveal_strlit(" ");
    reveal_strlit("\"type\"");
    reveal_strlit("\"content\"");
    reveal_strlit("\"meta\"");
    reveal_strlit("\"system\"");
    reveal_strlit("\"user\"");
    reveal_strlit("\"event\"");
    let w = pr_env_pretty(e);
    let t4 = pr_meta(e.meta) + "\n}"@;
    let t3 = ",\n  \"meta\": "@ + t4;
    let t2 = pr_content(e.content) + t3;
    let t1 = ",\n  \"content\": "@ + t2;
    let after_type_key = seq![':'] + (" "@ + (pr_mtype(e.message_type) + t1));
    assert(w =~= seq!['{'] + ("\n  "@ + ("\"type\""@ + after_type_key)));
    crate::json::lemma_sp_ws_len(w);
    assert(w[0] == '{');
    assert(w.skip(1) =~= "\n  "@ + ("\"type\""@ + after_type_key));
    assert(forall|i: int| 0 <= i < "\n  "@.len() ==> crate::json::is_ws(#[trigger] "\n  "@[i]));
    crate::json::lemma_sp_ws_prefix("\n  "@, "\"type\""@ + after_type_key);
    assert(("\"type\""@ + after_type_key)[0] == '"');
    crate::json::lemma_sp_ws_len("\"type\""@ + after_type_key);
    crate::json::lemma_starts_with_concat("\"type\""@, after_type_key);
    assert(sp_tok("\"type\""@ + after_type_key, "\"type\""@) == Some(after_type_key));
    assert(after_type_key[0] == ':');
    crate::json::lemma_sp_ws_len(after_type_key);
    assert(after_type_key.skip(1) =~= " "@ + (pr_mtype(e.message_type) + t1));
    assert(forall|i: int| 0 <= i < " "@.len() ==> crate::json::is_ws(#[trigger] " "@[i]));
    crate::json::lemma_sp_ws_prefix(" "@, pr_mtype(e.message_type) + t1);
    assert((pr_mtype(e.message_type) + t1)[0] == '"');
    crate::json::lemma_sp_ws_len(pr_mtype(e.message_type) + t1);
    assert(sp_key(w.skip(1).skip("\n  "@.len() as int), "\"type\""@) is Some) by {
        assert(w.skip(1).skip("\n  "@.len() as int) =~= "\"type\""@ + after_type_key);
    }
    // the type token
    let tv = pr_mtype(e.message_type) + t1;
    match e.message_type {
        MessageType::System => {
            crate::json::lemma_starts_with_concat("\"system\""@, t1);
            assert(tv =~= "\"system\""@ + t1);
            assert(sp_mtype(tv) == Some((MessageType::System, t1)));
        },
        MessageType::User => {
            crate::json::lemma_starts_with_concat("\"user\""@, t1);
            assert(tv =~= "\"user\""@ + t1);
            assert(!starts_with(tv, "\"system\""@)) by {
                if starts_with(tv, "\"system\""@) {
                    assert(tv.subrange(0, 8)[1] == 's');
                    assert(tv[1] == 'u');
                }
            }
            assert(sp_mtype(tv) == Some((MessageType::User, t1)));
        },
        MessageType::Event => {
            crate::json::lemma_starts_with_concat("\"event\""@, t1);
            assert(tv =~= "\"event\""@ + t1);
            assert(!starts_with(tv, "\"system\""@)) by {
                if starts_with(tv, "\"system\""@) {
                    assert(tv.subrange(0, 8)[1] == 's');
                    assert(tv[1] == 'e');
                }
            }
            assert(!starts_with(tv, "\"user\""@)) by {
                if starts_with(tv, "\"user\""@) {
                    assert(tv.subrange(0, 6)[1] == 'u');
                    assert(tv[1] == 'e');
                }
            }
            assert(sp_mtype(tv) == Some((MessageType::Event, t1)));
        },
    }
    // the content key
    assert(t1[0] == ',');
    crate::json::lemma_sp_ws_len(t1);
    let after_content_key = seq![':'] + (" "@ + t2);
    assert(t1.skip(1) =~= "\n  "@ + ("\"content\""@ + after_content_key));
    crate::json::lemma_sp_ws_prefix("\n  "@, "\"content\""@ + after_content_key);
    assert(("\"content\""@ + after_content_key)[0] == '"');
    crate::json::lemma_sp_ws_len("\"content\""@ + after_content_key);
    crate::json::lemma_starts_with_concat("\"content\""@, after_content_key);
    assert(after_content_key[0] == ':');
    crate::json::lemma_sp_ws_len(after_content_key);
    assert(after_content_key.skip(1) =~= " "@ + t2);
    crate::json::lemma_sp_ws_prefix(" "@, t2);
    lemma_pr_content_first(e.content);
    assert(t2[0] == pr_content(e.content)[0]);
    assert(!crate::json::is_ws(t2[0]));
    crate::json::lemma_sp_ws_len(t2);
    // the content by kind
    match e.content {
        ContentV::Text(t) => {
            crate::json::lemma_string_round_trip(t, t3);
            assert(t2 =~= pr_string(t) + t3);
            assert(sp_content(e.message_type, t2) == Some((e.content, t3)));
        },
        ContentV::Event(ev) => {
            lemma_event_rt(ev, t3);
            assert(t2 =~= pr_event(ev) + t3);
            assert(sp_content(e.message_type, t2) == Some((e.content, t3)));
        },
        ContentV::Object(o) => {
            crate::json::lemma_pr_entries_len(o);
            crate::json::lemma_obj_round_trip(o, t3, t2.len());
            assert(t2 =~= pr_obj(o) + t3);
            assert(sp_content(e.message_type, t2) == Some((e.content, t3)));
        },
    }
    // the meta key
    assert(t3[0] == ',');
    crate::json::lemma_sp_ws_len(t3);
    let after_meta_key = seq![':'] + (" "@ + t4);
    assert(t3.skip(1) =~= "\n  "@ + ("\"meta\""@ + after_meta_key));
    crate::json::lemma_sp_ws_prefix("\n  "@, "\"meta\""@ + after_meta_key);
    assert(("\"meta\""@ + after_meta_key)[0] == '"');
    crate::json::lemma_sp_ws_len("\"meta\""@ + after_meta_key);
    crate::json::lemma_starts_with_concat("\"meta\""@, after_meta_key);
    assert(after_meta_key[0] == ':');
    crate::json::lemma_sp_ws_len(after_meta_key);
    assert(after_meta_key.skip(1) =~= " "@ + t4);
    crate::json::lemma_sp_ws_prefix(" "@, t4);
    lemma_pr_meta_first(e.meta);
    assert(t4[0] == pr_meta(e.meta)[0]);
    assert(!crate::json::is_ws(t4[0]));
    crate::json::lemma_sp_ws_len(t4);
    lemma_meta_rt(e.meta, "\n}"@);
    assert(t4 =~= pr_meta(e.meta) + "\n}"@);
    // the closing brace behind its newline
    let tail_nl = "\n}"@;
    assert(tail_nl =~= seq!['\n'] + seq!['}']);
    assert(crate::json::is_ws('\n'));
    assert(forall|i: int|
        0 <= i < seq!['\n'].len() ==> crate::json::is_ws(#[trigger] seq!['\n'][i]));
    crate::json::lemma_sp_ws_prefix(seq!['\n'], seq!['}']);
    crate::json::lemma_sp_ws_len(seq!['}']);
    assert(crate::json::sp_ws(tail_nl) == seq!['}']);
    assert(seq!['}'].skip(1) =~= Seq::<char>::empty());
    crate::json::lemma_sp_ws_len(Seq::<char>::empty());
}

/// The printed metadata starts with a brace.
proof fn lemma_pr_meta_first(m: MetaV)
    ensures
        pr_meta(m).len() > 0,
        pr_meta(m)[0] == '{',
{
    reveal_strlit("{\"schema_version\":");
    assert(pr_meta(m)[0] == "{\"schema_version\":"@[0]);
}

// ---------------------------------------------------------------------
// executable form
// ---------------------------------------------------------------------
impl MessageMeta {
    /// Fresh metadata: the current schema version, the time now, and
    /// the east-eight offset.
    pub fn new() -> (m: MessageMeta)
        ensures
            m.schema_version@ == "v0"@,
            m.utc_offset_secs == 28800,
    {
        let now = crate::message::now_epoch_seconds();
        let stamp: u64 = if now < 0 {
            0
        } else {
            now as u64
        };
        MessageMeta {
            schema_version: String::from_str("v0"),
            timestamp_secs: stamp,
            utc_offset_secs: 28800,
        }
    }

    /// Fresh metadata stamped with the current time, in the east-eight
    /// zone.
    pub fn with_china_time() -> (m: MessageMeta)
        ensures
            m.schema_version@ == "v0"@,
            m.utc_offset_secs == 28800,
    {
        MessageMeta::new()
    }
}

impl Default for MessageMeta {
    /// The same metadata `new` builds.
    fn default() -> (m: MessageMeta)
        ensures
            m.schema_version@ == "v0"@,
            m.utc_offset_secs == 28800,
    {
        MessageMeta::new()
    }
}

impl EventContent {
    /// An event reporting success, with its data.
    pub fn ok(source: String, data: Vec<(String, JsonLeaf)>) -> (e: EventContent)
        ensures
            e.source@ == source@,
            e.status == EventStatus::Success,
            e.data matches Some(d) && entries_view(d@) == entries_view(data@),
            e.error is None,
    {
        EventContent { source, status: EventStatus::Success, data: Some(data), error: None }
    }

    /// An event reporting failure, with its error.
    pub fn error(source: String, error: EventError) -> (e: EventContent)
        ensures
            e.source@ == source@,
            e.status == EventStatus::Error,
            e.data is None,
            e.error matches Some(er) && er.code@ == error.code@ && er.message@ == error.message@,
    {
        EventContent { source, status: EventStatus::Error, data: None, error: Some(error) }
    }

    /// Checks the event's consistency: a success must carry data, a
    /// failure must carry an error.
    pub fn validate(&self) -> (r: Result<(), String>)
        ensures
            (self.status == EventStatus::Success && self.data is None) ==> (r matches Err(m)
                && m@ == "Status is 'ok' but 'data' is missing"@),
            (self.status == EventStatus::Error && self.error is None) ==> (r matches Err(m)
                && m@ == "Status is 'error' but 'error' is missing"@),
            !(self.status == EventStatus::Success && self.data is None) && !(self.status
                == EventStatus::Error && self.error is None) ==> r is Ok,
    {
        match self.status {
            EventStatus::Success => {
                if self.data.is_none() {
                    Err(String::from_str("Status is 'ok' but 'data' is missing"))
                } else {
                    Ok(())
                }
            },
            EventStatus::Error => {
                if self.error.is_none() {
                    Err(String::from_str("Status is 'error' but 'error' is missing"))
                } else {
                    Ok(())
                }
            },
        }
    }
}

impl Envelope {
    /// A user message holding the given text, with fresh metadata.
    pub fn user(content: String) -> (e: Envelope)
        ensures
            e.message_type == MessageType::User,
            e.content matches MessageContent::Text(t) && t@ == content@,
            env_wf(env_view(e)),
    {
        Envelope {
            message_type: MessageType::User,
            content: MessageContent::Text(content),
            meta: MessageMeta::new(),
        }
    }

    /// An event message holding the given event, with fresh metadata.
    pub fn event(content: EventContent) -> (e: Envelope)
        ensures
            e.message_type == MessageType::Event,
            e.content matches MessageContent::Event(ev) && event_view(ev) == event_view(content),
            env_wf(env_view(e)),
    {
        Envelope {
            message_type: MessageType::Event,
            content: MessageContent::Event(content),
            meta: MessageMeta::new(),
        }
    }

    /// A system message holding the given object, with fresh metadata.
    pub fn system(content: Vec<(String, JsonLeaf)>) -> (e: Envelope)
        ensures
            e.message_type == MessageType::System,
            e.content matches MessageContent::Object(o) && entries_view(o@) == entries_view(
                content@,
            ),
            env_wf(env_view(e)),
    {
        Envelope {
            message_type: MessageType::System,
            content: MessageContent::Object(content),
            meta: MessageMeta::new(),
        }
    }

    /// The same envelope with the given metadata.
    pub fn with_meta(self, meta: MessageMeta) -> (e: Envelope)
        ensures
            e.message_type == self.message_type,
            content_view(e.content) == content_view(self.content),
            meta_view(e.meta) == meta_view(meta),
    {
        Envelope { meta, ..self }
    }
}

// ---------------------------------------------------------------------
// executable printing
// ---------------------------------------------------------------------
/// The indented form of an envelope: each top-level field on its own
/// line; content and metadata printed compactly.
pub open spec fn pr_env_pretty(e: EnvV) -> Seq<char> {
    "{\n  \"type\": "@ + pr_mtype(e.message_type) + ",\n  \"content\": "@ + pr_content(
        e.content,
    ) + ",\n  \"meta\": "@ + pr_meta(e.meta) + "\n}"@
}

/// Appends the printed content.
fn xp_content(c: &MessageContent, out: &mut Vec<char>)
    ensures
        final(out)@ == old(out)@ + pr_content(content_view(*c)),
{
    match c {
        MessageContent::Text(t) => {
            let chars = crate::text::string_to_chars(t.as_str());
            crate::json::xp_string(&chars, out);
        },
        MessageContent::Event(e) => {
            xp_event(e, out);
        },
        MessageContent::Object(o) => {
            crate::json::xp_obj(o, out);
        },
    }
}

/// Appends every character of a literal.
fn xp_lit(text: &str, out: &mut Vec<char>)
    ensures
        final(out)@ == old(out)@ + text@,
{
    let chars = crate::text::string_to_chars(text);
    let mut k: usize = 0;
    while k < chars.len()
        invariant
            k <= chars@.len(),
            chars@ == text@,
            out@ == old(out)@ + text@.subrange(0, k as int),
        decreases chars@.len() - k,
    {
        out.push(chars[k]);
        k = k + 1;
        assert(out@ =~= old(out)@ + text@.subrange(0, k as int));
    }
    assert(final(out)@ =~= old(out)@ + text@);
}

/// Appends the printed error object.
fn xp_err(e: &EventError, out: &mut Vec<char>)
    ensures
        final(out)@ == old(out)@ + pr_err(error_view(*e)),
{
    xp_lit("{\"code\":", out);
    let code_chars = crate::text::string_to_chars(e.code.as_str());
    crate::json::xp_string(&code_chars, out);
    xp_lit(",\"message\":", out);
    let msg_chars = crate::text::string_to_chars(e.message.as_str());
    crate::json::xp_string(&msg_chars, out);
    out.push('}');
    proof {
        assert(final(out)@ =~= old(out)@ + pr_err(error_view(*e)));
    }
}

/// Appends the printed event content object.
#[verifier::rlimit(100)]
fn xp_event(e: &EventContent, out: &mut Vec<char>)
    ensures
        final(out)@ == old(out)@ + pr_event(event_view(*e)),
{
    xp_lit("{\"source\":", out);
    let source_chars = crate::text::string_to_chars(e.source.as_str());
    crate::json::xp_string(&source_chars, out);
    xp_lit(",\"status\":", out);
    match e.status {
        EventStatus::Success => {
            xp_lit("\"ok\"", out);
        },
        EventStatus::Error => {
            xp_lit("\"error\"", out);
        },
    }
    match &e.data {
        Some(d) => {
            xp_lit(",\"data\":", out);
            crate::json::xp_obj(d, out);
        },
        None => {},
    }
    match &e.error {
        Some(er) => {
            xp_lit(",\"error\":", out);
            xp_err(er, out);
        },
        None => {},
    }
    out.push('}');
    proof {
        assert(final(out)@ =~= old(out)@ + pr_event(event_view(*e)));
    }
}

/// Appends the printed metadata object.
fn xp_meta(m: &MessageMeta, out: &mut Vec<char>)
    ensures
        final(out)@ == old(out)@ + pr_meta(meta_view(*m)),
{
    xp_lit("{\"schema_version\":", out);
    let sv_chars = crate::text::string_to_chars(m.schema_version.as_str());
    crate::json::xp_string(&sv_chars, out);
    xp_lit(",\"timestamp\":", out);
    crate::text::push_decimal_u64(m.timestamp_secs, out);
    xp_lit(",\"utc_offset\":", out);
    crate::json::xp_int(m.utc_offset_secs as i64, out);
    out.push('}');
    proof {
        assert(final(out)@ =~= old(out)@ + pr_meta(meta_view(*m)));
    }
}

/// Appends the printed message type token.
fn xp_mtype(mt: MessageType, out: &mut Vec<char>)
    ensures
        final(out)@ == old(out)@ + pr_mtype(mt),
{
    match mt {
        MessageType::System => xp_lit("\"system\"", out),
        MessageType::User => xp_lit("\"user\"", out),
        MessageType::Event => xp_lit("\"event\"", out),
    }
}

impl Envelope {
    /// The envelope's wire form, compact.
    pub fn to_json(&self) -> (r: String)
        ensures
            r@ == pr_env(env_view(*self)),
    {
        let mut out: Vec<char> = Vec::new();
        xp_lit("{\"type\":", &mut out);
        xp_mtype(self.message_type, &mut out);
        xp_lit(",\"content\":", &mut out);
        xp_content(&self.content, &mut out);
        xp_lit(",\"meta\":", &mut out);
        xp_meta(&self.meta, &mut out);
        out.push('}');
        proof {
            assert(out@ =~= pr_env(env_view(*self)));
        }
        crate::text::chars_to_string(&out)
    }

    /// The envelope's wire form, with each top-level field on its own
    /// line.
    pub fn to_json_pretty(&self) -> (r: String)
        ensures
            r@ == pr_env_pretty(env_view(*self)),
    {
        let mut out: Vec<char> = Vec::new();
        xp_lit("{\n  \"type\": ", &mut out);
        xp_mtype(self.message_type, &mut out);
        xp_lit(",\n  \"content\": ", &mut out);
        xp_content(&self.content, &mut out);
        xp_lit(",\n  \"meta\": ", &mut out);
        xp_meta(&self.meta, &mut out);
        xp_lit("\n}", &mut out);
        proof {
            assert(out@ =~= pr_env_pretty(env_view(*self)));
        }
        crate::text::chars_to_string(&out)
    }
}

// ---------------------------------------------------------------------
// executable parsing
// ---------------------------------------------------------------------
/// Consumes one key at position `i`: the quoted name, optional
/// whitespace, and the colon, then any whitespace before the value.
fn x_key(s: &Vec<char>, i: usize, name: &str) -> (r: Option<usize>)
    requires
        i <= s@.len(),
    ensures
        r is None ==> sp_key(crate::json::tail(s@, i as int), name@) is None,
        r matches Some(j) ==> i <= j <= s@.len() && sp_key(crate::json::tail(s@, i as int), name@)
            == Some(crate::json::tail(s@, j as int)),
{
    let pat = crate::text::string_to_chars(name);
    let j0 = match crate::json::x_lit(s, i, &pat) {
        None => {
            return None;
        },
        Some(j) => j,
    };
    proof {
        assert(crate::json::tail(s@, j0 as int) =~= crate::json::tail(s@, i as int).skip(
            name@.len() as int,
        ));
    }
    let j1 = crate::json::x_ws(s, j0);
    if j1 == s.len() {
        proof {
            assert(crate::json::tail(s@, j1 as int).len() == 0);
        }
        return None;
    }
    let c = s[j1];
    assert(crate::json::tail(s@, j1 as int)[0] == c);
    if c != ':' {
        return None;
    }
    proof {
        assert(crate::json::tail(s@, j1 as int).skip(1) =~= crate::json::tail(s@, j1 as int + 1));
    }
    let j2 = crate::json::x_ws(s, j1 + 1);
    Some(j2)
}

/// Parses the message type token at position `i`.
fn x_mtype(s: &Vec<char>, i: usize) -> (r: Option<(MessageType, usize)>)
    requires
        i <= s@.len(),
    ensures
        r is None ==> sp_mtype(crate::json::tail(s@, i as int)) is None,
        r matches Some(p) ==> i <= p.1 <= s@.len() && sp_mtype(crate::json::tail(s@, i as int))
            == Some((p.0, crate::json::tail(s@, p.1 as int))),
{
    let pat_system = crate::text::string_to_chars("\"system\"");
    let pat_user = crate::text::string_to_chars("\"user\"");
    let pat_event = crate::text::string_to_chars("\"event\"");
    match crate::json::x_lit(s, i, &pat_system) {
        Some(j) => {
            proof {
                assert(crate::json::tail(s@, j as int) =~= crate::json::tail(s@, i as int).skip(
                    "\"system\""@.len() as int,
                ));
            }
            Some((MessageType::System, j))
        },
        None => match crate::json::x_lit(s, i, &pat_user) {
            Some(j) => {
                proof {
                    assert(crate::json::tail(s@, j as int) =~= crate::json::tail(
                        s@, i as int).skip("\"user\""@.len() as int));
                }
                Some((MessageType::User, j))
            },
            None => match crate::json::x_lit(s, i, &pat_event) {
                Some(j) => {
                    proof {
                        assert(crate::json::tail(s@, j as int) =~= crate::json::tail(
                            s@, i as int).skip("\"event\""@.len() as int));
                    }
                    Some((MessageType::Event, j))
                },
                None => None,
            },
        },
    }
}

/// Parses the status token at position `i`.
fn x_status(s: &Vec<char>, i: usize) -> (r: Option<(EventStatus, usize)>)
    requires
        i <= s@.len(),
    ensures
        r is None ==> sp_status(crate::json::tail(s@, i as int)) is None,
        r matches Some(p) ==> i <= p.1 <= s@.len() && sp_status(crate::json::tail(s@, i as int))
            == Some((p.0, crate::json::tail(s@, p.1 as int))),
{
    let pat_ok = crate::text::string_to_chars("\"ok\"");
    let pat_error = crate::text::string_to_chars("\"error\"");
    match crate::json::x_lit(s, i, &pat_ok) {
        Some(j) => {
            proof {
                assert(crate::json::tail(s@, j as int) =~= crate::json::tail(s@, i as int).skip(
                    "\"ok\""@.len() as int,
                ));
            }
            Some((EventStatus::Success, j))
        },
        None => match crate::json::x_lit(s, i, &pat_error) {
            Some(j) => {
                proof {
                    assert(crate::json::tail(s@, j as int) =~= crate::json::tail(
                        s@, i as int).skip("\"error\""@.len() as int));
                }
                Some((EventStatus::Error, j))
            },
            None => None,
        },
    }
}

/// Parses the error object of an event at position `i`.
#[verifier::rlimit(100)]
fn x_err(s: &Vec<char>, i: usize) -> (r: Option<(EventError, usize)>)
    requires
        i <= s@.len(),
    ensures
        r is None ==> sp_err(crate::json::tail(s@, i as int)) is None,
        r matches Some(p) ==> i <= p.1 <= s@.len() && sp_err(crate::json::tail(s@, i as int))
            == Some((error_view(p.0), crate::json::tail(s@, p.1 as int))),
{
    if i == s.len() {
        assert(crate::json::tail(s@, i as int).len() == 0);
        return None;
    }
    let c = s[i];
    assert(crate::json::tail(s@, i as int)[0] == c);
    if c != '{' {
        return None;
    }
    proof {
        assert(crate::json::tail(s@, i as int).skip(1) =~= crate::json::tail(s@, i as int + 1));
    }
    let a = crate::json::x_ws(s, i + 1);
    let b = match x_key(s, a, "\"code\"") {
        None => {
            return None;
        },
        Some(j) => j,
    };
    let (code_chars, c0) = match crate::json::x_string(s, b) {
        None => {
            return None;
        },
        Some(p) => p,
    };
    let c1 = crate::json::x_ws(s, c0);
    if c1 == s.len() {
        proof {
            assert(crate::json::tail(s@, c1 as int).len() == 0);
        }
        return None;
    }
    let sep = s[c1];
    assert(crate::json::tail(s@, c1 as int)[0] == sep);
    if sep != ',' {
        return None;
    }
    proof {
        assert(crate::json::tail(s@, c1 as int).skip(1) =~= crate::json::tail(s@, c1 as int + 1));
    }
    let d = crate::json::x_ws(s, c1 + 1);
    let e = match x_key(s, d, "\"message\"") {
        None => {
            return None;
        },
        Some(j) => j,
    };
    let (msg_chars, f0) = match crate::json::x_string(s, e) {
        None => {
            return None;
        },
        Some(p) => p,
    };
    let f = crate::json::x_ws(s, f0);
    if f == s.len() {
        proof {
            assert(crate::json::tail(s@, f as int).len() == 0);
        }
        return None;
    }
    let close = s[f];
    assert(crate::json::tail(s@, f as int)[0] == close);
    if close != '}' {
        return None;
    }
    proof {
        assert(crate::json::tail(s@, f as int).skip(1) =~= crate::json::tail(s@, f as int + 1));
    }
    let code = crate::text::chars_to_string(&code_chars);
    let message = crate::text::chars_to_string(&msg_chars);
    Some((EventError { code, message }, f + 1))
}

/// Parses an event content object at position `i`.
#[verifier::rlimit(100)]
fn x_event(s: &Vec<char>, i: usize) -> (r: Option<(EventContent, usize)>)
    requires
        i <= s@.len(),
    ensures
        r is None ==> sp_event(crate::json::tail(s@, i as int)) is None,
        r matches Some(p) ==> i <= p.1 <= s@.len() && sp_event(crate::json::tail(s@, i as int))
            == Some((event_view(p.0), crate::json::tail(s@, p.1 as int))),
{
    if i == s.len() {
        assert(crate::json::tail(s@, i as int).len() == 0);
        return None;
    }
    let c = s[i];
    assert(crate::json::tail(s@, i as int)[0] == c);
    if c != '{' {
        return None;
    }
    proof {
        assert(crate::json::tail(s@, i as int).skip(1) =~= crate::json::tail(s@, i as int + 1));
    }
    let a = crate::json::x_ws(s, i + 1);
    let b = match x_key(s, a, "\"source\"") {
        None => {
            return None;
        },
        Some(j) => j,
    };
    let (source_chars, c0) = match crate::json::x_string(s, b) {
        None => {
            return None;
        },
        Some(p) => p,
    };
    let c1 = crate::json::x_ws(s, c0);
    if c1 == s.len() {
        proof {
            assert(crate::json::tail(s@, c1 as int).len() == 0);
        }
        return None;
    }
    let sep = s[c1];
    assert(crate::json::tail(s@, c1 as int)[0] == sep);
    if sep != ',' {
        return None;
    }
    proof {
        assert(crate::json::tail(s@, c1 as int).skip(1) =~= crate::json::tail(s@, c1 as int + 1));
    }
    let d = crate::json::x_ws(s, c1 + 1);
    let e = match x_key(s, d, "\"status\"") {
        None => {
            return None;
        },
        Some(j) => j,
    };
    let (status, f0) = match x_status(s, e) {
        None => {
            return None;
        },
        Some(p) => p,
    };
    let f = crate::json::x_ws(s, f0);
    let source = crate::text::chars_to_string(&source_chars);
    // the tail after the status
    if f == s.len() {
        proof {
            assert(crate::json::tail(s@, f as int).len() == 0);
        }
        return None;
    }
    let sep2 = s[f];
    assert(crate::json::tail(s@, f as int)[0] == sep2);
    if sep2 == '}' {
        proof {
            assert(crate::json::tail(s@, f as int).skip(1) =~= crate::json::tail(
                s@, f as int + 1));
        }
        let ev = EventContent { source, status, data: None, error: None };
        return Some((ev, f + 1));
    }
    if sep2 != ',' {
        return None;
    }
    proof {
        assert(crate::json::tail(s@, f as int).skip(1) =~= crate::json::tail(s@, f as int + 1));
    }
    let g = crate::json::x_ws(s, f + 1);
    let pat_data = crate::text::string_to_chars("\"data\"");
    let data_key = crate::json::x_lit(s, g, &pat_data);
    if data_key.is_some() {
        let b2 = match x_key(s, g, "\"data\"") {
            None => {
                return None;
            },
            Some(j) => j,
        };
        let (data, c2) = match crate::json::x_obj(s, b2) {
            None => {
                return None;
            },
            Some(p) => p,
        };
        let c3 = crate::json::x_ws(s, c2);
        if c3 == s.len() {
            proof {
                assert(crate::json::tail(s@, c3 as int).len() == 0);
            }
            return None;
        }
        let sep3 = s[c3];
        assert(crate::json::tail(s@, c3 as int)[0] == sep3);
        if sep3 == '}' {
            proof {
                assert(crate::json::tail(s@, c3 as int).skip(1) =~= crate::json::tail(
                    s@, c3 as int + 1));
            }
            let ev = EventContent { source, status, data: Some(data), error: None };
            return Some((ev, c3 + 1));
        }
        if sep3 != ',' {
            return None;
        }
        proof {
            assert(crate::json::tail(s@, c3 as int).skip(1) =~= crate::json::tail(
                s@, c3 as int + 1));
        }
        let d2 = crate::json::x_ws(s, c3 + 1);
        let e2 = match x_key(s, d2, "\"error\"") {
            None => {
                return None;
            },
            Some(j) => j,
        };
        let (error, f2) = match x_err(s, e2) {
            None => {
                return None;
            },
            Some(p) => p,
        };
        let f3 = crate::json::x_ws(s, f2);
        if f3 == s.len() {
            proof {
                assert(crate::json::tail(s@, f3 as int).len() == 0);
            }
            return None;
        }
        let close = s[f3];
        assert(crate::json::tail(s@, f3 as int)[0] == close);
        if close != '}' {
            return None;
        }
        proof {
            assert(crate::json::tail(s@, f3 as int).skip(1) =~= crate::json::tail(
                s@, f3 as int + 1));
        }
        let ev = EventContent { source, status, data: Some(data), error: Some(error) };
        Some((ev, f3 + 1))
    } else {
        let e2 = match x_key(s, g, "\"error\"") {
            None => {
                return None;
            },
            Some(j) => j,
        };
        let (error, f2) = match x_err(s, e2) {
            None => {
                return None;
            },
            Some(p) => p,
        };
        let f3 = crate::json::x_ws(s, f2);
        if f3 == s.len() {
            proof {
                assert(crate::json::tail(s@, f3 as int).len() == 0);
            }
            return None;
        }
        let close = s[f3];
        assert(crate::json::tail(s@, f3 as int)[0] == close);
        if close != '}' {
            return None;
        }
        proof {
            assert(crate::json::tail(s@, f3 as int).skip(1) =~= crate::json::tail(
                s@, f3 as int + 1));
        }
        let ev = EventContent { source, status, data: None, error: Some(error) };
        Some((ev, f3 + 1))
    }
}

/// Parses a metadata object at position `i`.
#[verifier::rlimit(100)]
fn x_meta(s: &Vec<char>, i: usize) -> (r: Option<(MessageMeta, usize)>)
    requires
        i <= s@.len(),
    ensures
        r is None ==> sp_meta(crate::json::tail(s@, i as int)) is None,
        r matches Some(p) ==> i <= p.1 <= s@.len() && sp_meta(crate::json::tail(s@, i as int))
            == Some((meta_view(p.0), crate::json::tail(s@, p.1 as int))),
{
    if i == s.len() {
        assert(crate::json::tail(s@, i as int).len() == 0);
        return None;
    }
    let c = s[i];
    assert(crate::json::tail(s@, i as int)[0] == c);
    if c != '{' {
        return None;
    }
    proof {
        assert(crate::json::tail(s@, i as int).skip(1) =~= crate::json::tail(s@, i as int + 1));
    }
    let a = crate::json::x_ws(s, i + 1);
    if a == s.len() {
        proof {
            assert(crate::json::tail(s@, a as int).len() == 0);
        }
        return None;
    }
    let c1 = s[a];
    assert(crate::json::tail(s@, a as int)[0] == c1);
    if c1 == '}' {
        proof {
            assert(crate::json::tail(s@, a as int).skip(1) =~= crate::json::tail(
                s@, a as int + 1));
        }
        let m = MessageMeta {
            schema_version: String::from_str("v0"),
            timestamp_secs: 0,
            utc_offset_secs: 28800,
        };
        return Some((m, a + 1));
    }
    let b = match x_key(s, a, "\"schema_version\"") {
        None => {
            return None;
        },
        Some(j) => j,
    };
    let (sv_chars, c0) = match crate::json::x_string(s, b) {
        None => {
            return None;
        },
        Some(p) => p,
    };
    let c2 = crate::json::x_ws(s, c0);
    if c2 == s.len() {
        proof {
            assert(crate::json::tail(s@, c2 as int).len() == 0);
        }
        return None;
    }
    let sep = s[c2];
    assert(crate::json::tail(s@, c2 as int)[0] == sep);
    let sv = crate::text::chars_to_string(&sv_chars);
    if sep == '}' {
        proof {
            assert(crate::json::tail(s@, c2 as int).skip(1) =~= crate::json::tail(
                s@, c2 as int + 1));
        }
        let m = MessageMeta { schema_version: sv, timestamp_secs: 0, utc_offset_secs: 28800 };
        return Some((m, c2 + 1));
    }
    if sep != ',' {
        return None;
    }
    proof {
        assert(crate::json::tail(s@, c2 as int).skip(1) =~= crate::json::tail(s@, c2 as int + 1));
    }
    let d = crate::json::x_ws(s, c2 + 1);
    let e = match x_key(s, d, "\"timestamp\"") {
        None => {
            return None;
        },
        Some(j) => j,
    };
    let (ts, f0) = match crate::json::x_u64(s, e) {
        None => {
            return None;
        },
        Some(p) => p,
    };
    let f = crate::json::x_ws(s, f0);
    if f == s.len() {
        proof {
            assert(crate::json::tail(s@, f as int).len() == 0);
        }
        return None;
    }
    let sep2 = s[f];
    assert(crate::json::tail(s@, f as int)[0] == sep2);
    if sep2 != ',' {
        return None;
    }
    proof {
        assert(crate::json::tail(s@, f as int).skip(1) =~= crate::json::tail(s@, f as int + 1));
    }
    let g = crate::json::x_ws(s, f + 1);
    let h = match x_key(s, g, "\"utc_offset\"") {
        None => {
            return None;
        },
        Some(j) => j,
    };
    let (off, i0) = match crate::json::x_int(s, h) {
        None => {
            return None;
        },
        Some(p) => p,
    };
    if off < -2147483648i64 || off > 2147483647i64 {
        return None;
    }
    let i1 = crate::json::x_ws(s, i0);
    if i1 == s.len() {
        proof {
            assert(crate::json::tail(s@, i1 as int).len() == 0);
        }
        return None;
    }
    let close = s[i1];
    assert(crate::json::tail(s@, i1 as int)[0] == close);
    if close != '}' {
        return None;
    }
    proof {
        assert(crate::json::tail(s@, i1 as int).skip(1) =~= crate::json::tail(s@, i1 as int + 1));
    }
    let m = MessageMeta { schema_version: sv, timestamp_secs: ts, utc_offset_secs: off as i32 };
    Some((m, i1 + 1))
}

/// Parses the content at position `i` by the already-read message type.
fn x_content(s: &Vec<char>, mt: MessageType, i: usize) -> (r: Option<(MessageContent, usize)>)
    requires
        i <= s@.len(),
    ensures
        r is None ==> sp_content(mt, crate::json::tail(s@, i as int)) is None,
        r matches Some(p) ==> i <= p.1 <= s@.len() && sp_content(
            mt,
            crate::json::tail(s@, i as int),
        ) == Some((content_view(p.0), crate::json::tail(s@, p.1 as int))),
{
    match mt {
        MessageType::User => match crate::json::x_string(s, i) {
            None => None,
            Some((t, j)) => {
                let text = crate::text::chars_to_string(&t);
                Some((MessageContent::Text(text), j))
            },
        },
        MessageType::Event => match x_event(s, i) {
            None => None,
            Some((e, j)) => Some((MessageContent::Event(e), j)),
        },
        MessageType::System => match crate::json::x_obj(s, i) {
            None => None,
            Some((o, j)) => Some((MessageContent::Object(o), j)),
        },
    }
}

impl Envelope {
    /// The envelope a text holds, if the whole text is one envelope in
    /// the wire form; the error text otherwise. Decoding is a pure
    /// function of the text: a missing metadata object yields the
    /// defaults of `default_meta`, with the timestamp at the epoch
    /// rather than the reading time.
    #[verifier::rlimit(100)]
    pub fn from_json(text: &str) -> (r: Result<Envelope, String>)
        ensures
            r matches Err(m) ==> sp_env(text@) is None && m@ == "invalid message envelope"@,
            r matches Ok(e) ==> sp_env(text@) == Some(env_view(e)) && env_wf(env_view(e)),
    {
        let s = crate::text::string_to_chars(text);
        proof {
            assert(crate::json::tail(s@, 0) =~= text@);
        }
        let a = crate::json::x_ws(&s, 0);
        match Envelope::parse_at(&s, a) {
            Some(e) => Ok(e),
            None => Err(String::from_str("invalid message envelope")),
        }
    }

    /// Parses a whole envelope whose opening brace sits at position `i`,
    /// with nothing but whitespace after it.
    #[verifier::rlimit(100)]
    fn parse_at(s: &Vec<char>, i: usize) -> (r: Option<Envelope>)
        requires
            i <= s@.len(),
            crate::json::tail(s@, i as int) == crate::json::sp_ws(s@),
        ensures
            r is None ==> sp_env(s@) is None,
            r matches Some(e) ==> sp_env(s@) == Some(env_view(e)) && env_wf(env_view(e)),
    {
        if i == s.len() {
            assert(crate::json::tail(s@, i as int).len() == 0);
            return None;
        }
        let c = s[i];
        assert(crate::json::tail(s@, i as int)[0] == c);
        if c != '{' {
            return None;
        }
        proof {
            assert(crate::json::tail(s@, i as int).skip(1) =~= crate::json::tail(
                s@, i as int + 1));
        }
        let b = crate::json::x_ws(s, i + 1);
        let c0 = match x_key(s, b, "\"type\"") {
            None => {
                return None;
            },
            Some(j) => j,
        };
        let (mt, d0) = match x_mtype(s, c0) {
            None => {
                return None;
            },
            Some(p) => p,
        };
        let d = crate::json::x_ws(s, d0);
        if d == s.len() {
            proof {
                assert(crate::json::tail(s@, d as int).len() == 0);
            }
            return None;
        }
        let sep = s[d];
        assert(crate::json::tail(s@, d as int)[0] == sep);
        if sep != ',' {
            return None;
        }
        proof {
            assert(crate::json::tail(s@, d as int).skip(1) =~= crate::json::tail(
                s@, d as int + 1));
        }
        let e = crate::json::x_ws(s, d + 1);
        let f = match x_key(s, e, "\"content\"") {
            None => {
                return None;
            },
            Some(j) => j,
        };
        let (ct, g0) = match x_content(s, mt, f) {
            None => {
                return None;
            },
            Some(p) => p,
        };
        let g = crate::json::x_ws(s, g0);
        if g == s.len() {
            proof {
                assert(crate::json::tail(s@, g as int).len() == 0);
            }
            return None;
        }
        let sep2 = s[g];
        assert(crate::json::tail(s@, g as int)[0] == sep2);
        if sep2 == '}' {
            proof {
                assert(crate::json::tail(s@, g as int).skip(1) =~= crate::json::tail(
                    s@, g as int + 1));
            }
            let h = crate::json::x_ws(s, g + 1);
            if h != s.len() {
                proof {
                    assert(crate::json::tail(s@, h as int).len() > 0);
                }
                return None;
            }
            proof {
                assert(crate::json::tail(s@, h as int).len() == 0);
            }
            let meta = MessageMeta {
                schema_version: String::from_str("v0"),
                timestamp_secs: 0,
                utc_offset_secs: 28800,
            };
            let env = Envelope { message_type: mt, content: ct, meta };
            return Some(env);
        }
        if sep2 != ',' {
            return None;
        }
        proof {
            assert(crate::json::tail(s@, g as int).skip(1) =~= crate::json::tail(
                s@, g as int + 1));
        }
        let h = crate::json::x_ws(s, g + 1);
        let i0 = match x_key(s, h, "\"meta\"") {
            None => {
                return None;
            },
            Some(j) => j,
        };
        let (meta, j0) = match x_meta(s, i0) {
            None => {
                return None;
            },
            Some(p) => p,
        };
        let j = crate::json::x_ws(s, j0);
        if j == s.len() {
            proof {
                assert(crate::json::tail(s@, j as int).len() == 0);
            }
            return None;
        }
        let close = s[j];
        assert(crate::json::tail(s@, j as int)[0] == close);
        if close != '}' {
            return None;
        }
        proof {
            assert(crate::json::tail(s@, j as int).skip(1) =~= crate::json::tail(
                s@, j as int + 1));
        }
        let k = crate::json::x_ws(s, j + 1);
        if k != s.len() {
            proof {
                assert(crate::json::tail(s@, k as int).len() > 0);
            }
            return None;
        }
        proof {
            assert(crate::json::tail(s@, k as int).len() == 0);
        }
        let env = Envelope { message_type: mt, content: ct, meta };
        Some(env)
    }
}

impl EventError {
    /// A copy holding the same abstract value.
    pub fn clone_error(&self) -> (r: EventError)
        ensures
            error_view(r) == error_view(*self),
    {
        EventError { code: self.code.clone(), message: self.message.clone() }
    }
}

impl EventContent {
    /// A copy holding the same abstract value.
    pub fn clone_event(&self) -> (r: EventContent)
        ensures
            event_view(r) == event_view(*self),
    {
        EventContent {
            source: self.source.clone(),
            status: self.status,
            data: match &self.data {
                Some(d) => Some(crate::json::clone_entries(d)),
                None => None,
            },
            error: match &self.error {
                Some(er) => Some(er.clone_error()),
                None => None,
            },
        }
    }
}

impl MessageMeta {
    /// A copy holding the same abstract value.
    pub fn clone_meta(&self) -> (r: MessageMeta)
        ensures
            meta_view(r) == meta_view(*self),
    {
        MessageMeta {
            schema_version: self.schema_version.clone(),
            timestamp_secs: self.timestamp_secs,
            utc_offset_secs: self.utc_offset_secs,
        }
    }
}

impl MessageContent {
    /// A copy holding the same abstract value.
    pub fn clone_content(&self) -> (r: MessageContent)
        ensures
            content_view(r) == content_view(*self),
    {
        match self {
            MessageContent::Text(t) => MessageContent::Text(t.clone()),
            MessageContent::Event(e) => MessageContent::Event(e.clone_event()),
            MessageContent::Object(o) => MessageContent::Object(crate::json::clone_entries(o)),
        }
    }
}

impl Envelope {
    /// A copy holding the same abstract value.
    pub fn clone_envelope(&self) -> (r: Envelope)
        ensures
            env_view(r) == env_view(*self),
            r.message_type == self.message_type,
    {
        Envelope {
            message_type: self.message_type,
            content: self.content.clone_content(),
            meta: self.meta.clone_meta(),
        }
    }
}

} // verus!
