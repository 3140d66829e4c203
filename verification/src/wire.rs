//! The wire encoding of a domain message: one JSON object with the
//! message's fields in a fixed order. Encoding and decoding are total
//! functions of the message and the text, and decoding is proved to
//! invert encoding.

use crate::json::{sp_tok, lemma_bytes_round_trip, lemma_starts_with_concat, lemma_string_round_trip,
    lemma_u64_round_trip, pr_byte_elems, pr_bytes, pr_string, sp_bytes, sp_string, sp_u64,
    starts_with, tail, x_bytes, x_lit, x_string, x_u64, xp_bytes, xp_string};
use crate::message::MqttMessage;
use crate::text::{chars_to_string, dec_rep, push_decimal_u64, string_to_chars};
use crate::valid_qos;
use vstd::prelude::*;

verus! {

/// The abstract value of a domain message.
pub struct MsgV {
    pub id: Seq<char>,
    pub topic: Seq<char>,
    pub payload: Seq<u8>,
    pub qos: u8,
    pub retain: bool,
    pub timestamp: u64,
    pub client_id: Option<Seq<char>>,
}

/// The abstract value of an executable message.
pub open spec fn msg_view(m: MqttMessage) -> MsgV {
    MsgV {
        id: m.id@,
        topic: m.topic@,
        payload: m.payload@,
        qos: m.qos,
        retain: m.retain,
        timestamp: m.timestamp,
        client_id: match m.client_id {
            Some(c) => Some(c@),
            None => None,
        },
    }
}

/// A message the wire format can carry: a non-empty topic and one of
/// the three levels.
pub open spec fn msg_wf(m: MsgV) -> bool {
    m.topic.len() > 0 && valid_qos(m.qos)
}

/// The printed wire form of a message.
pub open spec fn pr_msg(m: MsgV) -> Seq<char> {
    "{\"id\":"@ + pr_string(m.id) + ",\"topic\":"@ + pr_string(m.topic) + ",\"payload\":"@
        + pr_bytes(m.payload) + ",\"qos\":"@ + dec_rep(m.qos as nat) + ",\"retain\":"@ + (
    if m.retain {
        "true"@
    } else {
        "false"@
    }) + ",\"timestamp\":"@ + dec_rep(m.timestamp as nat) + ",\"client_id\":"@ + (
    match m.client_id {
        Some(c) => pr_string(c),
        None => "null"@,
    }) + seq!['}']
}

/// Parses the wire form of a message: the fields in their fixed order,
/// the whole input consumed, the topic non-empty and the level one of
/// the three.
pub open spec fn sp_msg(s: Seq<char>) -> Option<MsgV> {
    match sp_tok(s, "{\"id\":"@) {
        None => None,
        Some(r0) => match sp_string(r0) {
            None => None,
            Some((id, r1)) => match sp_tok(r1, ",\"topic\":"@) {
                None => None,
                Some(r2) => match sp_string(r2) {
                    None => None,
                    Some((topic, r3)) => match sp_tok(r3, ",\"payload\":"@) {
                        None => None,
                        Some(r4) => match sp_bytes(r4, r4.len()) {
                            None => None,
                            Some((payload, r5)) => match sp_tok(r5, ",\"qos\":"@) {
                                None => None,
                                Some(r6) => match sp_u64(r6) {
                                    None => None,
                                    Some((qos, r7)) => match sp_tok(r7, ",\"retain\":"@) {
                                        None => None,
                                        Some(r8) => match sp_retain(r8) {
                                            None => None,
                                            Some((retain, r9)) => sp_msg_end(
                                                id,
                                                topic,
                                                payload,
                                                qos,
                                                retain,
                                                r9,
                                            ),
                                        },
                                    },
                                },
                            },
                        },
                    },
                },
            },
        },
    }
}

/// Parses the retain flag.
pub open spec fn sp_retain(s: Seq<char>) -> Option<(bool, Seq<char>)> {
    if starts_with(s, "true"@) {
        Some((true, s.skip("true"@.len() as int)))
    } else if starts_with(s, "false"@) {
        Some((false, s.skip("false"@.len() as int)))
    } else {
        None
    }
}

/// Parses the trailing fields and the closing brace.
pub open spec fn sp_msg_end(id: Seq<char>, topic: Seq<char>, payload: Seq<u8>, qos: u64,
    retain: bool, s: Seq<char>) -> Option<MsgV> {
    match sp_tok(s, ",\"timestamp\":"@) {
        None => None,
        Some(r0) => match sp_u64(r0) {
            None => None,
            Some((timestamp, r1)) => match sp_tok(r1, ",\"client_id\":"@) {
                None => None,
                Some(r2) => match sp_client_id(r2) {
                    None => None,
                    Some((client_id, r3)) => {
                        if r3 =~= seq!['}'] && topic.len() > 0 && qos <= 2 {
                            Some(
                                MsgV {
                                    id,
                                    topic,
                                    payload,
                                    qos: qos as u8,
                                    retain,
                                    timestamp,
                                    client_id,
                                },
                            )
                        } else {
                            None
                        }
                    },
                },
            },
        },
    }
}

/// Parses the optional originating client: null or a string.
pub open spec fn sp_client_id(s: Seq<char>) -> Option<(Option<Seq<char>>, Seq<char>)> {
    if starts_with(s, "null"@) {
        Some((None, s.skip("null"@.len() as int)))
    } else {
        match sp_string(s) {
            Some((c, r)) => Some((Some(c), r)),
            None => None,
        }
    }
}

/// The printed elements of a byte array are at least as many characters
/// as there are bytes.
pub proof fn lemma_pr_byte_elems_len(bs: Seq<u8>)
    ensures
        pr_byte_elems(bs).len() >= bs.len(),
    decreases bs.len(),
{
    if bs.len() <= 1 {
        if bs.len() == 1 {
            crate::text::lemma_dec_rep_digits(bs[0] as nat);
        }
    } else {
        lemma_pr_byte_elems_len(bs.skip(1));
        crate::text::lemma_dec_rep_digits(bs[0] as nat);
    }
}

/// Decoding inverts encoding: the wire form of a well-formed message
/// parses back to exactly that message.
#[verifier::rlimit(100)]
pub proof fn lemma_msg_round_trip(m: MsgV)
    requires
        msg_wf(m),
    ensures
        sp_msg(pr_msg(m)) == Some(m),
{
    reveal_strlit("{\"id\":");
    reveal_strlit(",\"topic\":");
    reveal_strlit(",\"payload\":");
    reveal_strlit(",\"qos\":");
    reveal_strlit(",\"retain\":");
    reveal_strlit(",\"timestamp\":");
    reveal_strlit(",\"client_id\":");
    reveal_strlit("true");
    reveal_strlit("false");
    reveal_strlit("null");
    let w = pr_msg(m);
    let cid = (match m.client_id {
        Some(c) => pr_string(c),
        None => "null"@,
    });
    let retain = (if m.retain {
        "true"@
    } else {
        "false"@
    });
    let t9 = cid + seq!['}'];
    let t8 = ",\"client_id\":"@ + t9;
    let t7 = dec_rep(m.timestamp as nat) + t8;
    let t6 = ",\"timestamp\":"@ + t7;
    let t5 = retain + t6;
    let t4 = ",\"retain\":"@ + t5;
    let t3 = dec_rep(m.qos as nat) + t4;
    let t2 = ",\"qos\":"@ + t3;
    let t1 = pr_bytes(m.payload) + t2;
    let t0 = ",\"payload\":"@ + t1;
    let s2 = pr_string(m.topic) + t0;
    let s1 = ",\"topic\":"@ + s2;
    let s0 = pr_string(m.id) + s1;
    assert(w =~= "{\"id\":"@ + s0);
    lemma_starts_with_concat("{\"id\":"@, s0);
    assert(sp_tok(w, "{\"id\":"@) == Some(s0));
    lemma_string_round_trip(m.id, s1);
    lemma_starts_with_concat(",\"topic\":"@, s2);
    assert(sp_tok(s1, ",\"topic\":"@) == Some(s2));
    lemma_string_round_trip(m.topic, t0);
    lemma_starts_with_concat(",\"payload\":"@, t1);
    assert(sp_tok(t0, ",\"payload\":"@) == Some(t1));
    lemma_pr_byte_elems_len(m.payload);
    lemma_bytes_round_trip(m.payload, t2, t1.len());
    assert(sp_bytes(t1, t1.len()) == Some((m.payload, t2)));
    lemma_starts_with_concat(",\"qos\":"@, t3);
    assert(sp_tok(t2, ",\"qos\":"@) == Some(t3));
    assert(t4[0] == ',');
    assert(!crate::text::is_dec_digit(','));
    lemma_u64_round_trip(m.qos as u64, t4);
    assert(sp_u64(t3) == Some((m.qos as u64, t4)));
    lemma_starts_with_concat(",\"retain\":"@, t5);
    assert(sp_tok(t4, ",\"retain\":"@) == Some(t5));
    if m.retain {
        lemma_starts_with_concat("true"@, t6);
        assert(sp_retain(t5) == Some((true, t6)));
    } else {
        lemma_starts_with_concat("false"@, t6);
        assert(!starts_with(t5, "true"@)) by {
            if starts_with(t5, "true"@) {
                assert(t5.subrange(0, 4)[0] == 't');
                assert(t5[0] == 'f');
            }
        }
        assert(sp_retain(t5) == Some((false, t6)));
    }
    lemma_starts_with_concat(",\"timestamp\":"@, t7);
    assert(sp_tok(t6, ",\"timestamp\":"@) == Some(t7));
    assert(t8[0] == ',');
    lemma_u64_round_trip(m.timestamp, t8);
    assert(sp_u64(t7) == Some((m.timestamp, t8)));
    lemma_starts_with_concat(",\"client_id\":"@, t9);
    assert(sp_tok(t8, ",\"client_id\":"@) == Some(t9));
    match m.client_id {
        Some(c) => {
            lemma_string_round_trip(c, seq!['}']);
            assert(!starts_with(t9, "null"@)) by {
                if starts_with(t9, "null"@) {
                    assert(t9.subrange(0, 4)[0] == 'n');
                    assert(t9[0] == '"');
                }
            }
            assert(sp_client_id(t9) == Some((Some(c), seq!['}'])));
        },
        None => {
            lemma_starts_with_concat("null"@, seq!['}']);
            assert(sp_client_id(t9) == Some((None::<Seq<char>>, seq!['}'])));
        },
    }
    assert(sp_msg(w) == Some(m));
}

/// Appends every character of a vector.
fn push_chars(out: &mut Vec<char>, v: &Vec<char>)
    ensures
        final(out)@ == old(out)@ + v@,
{
    let mut k: usize = 0;
    while k < v.len()
        invariant
            k <= v@.len(),
            out@ == old(out)@ + v@.subrange(0, k as int),
        decreases v@.len() - k,
    {
        out.push(v[k]);
        k = k + 1;
        assert(out@ =~= old(out)@ + v@.subrange(0, k as int));
    }
    assert(final(out)@ =~= old(out)@ + v@);
}

/// The wire form of a message, as text.
pub fn encode_message(m: &MqttMessage) -> (r: String)
    ensures
        r@ == pr_msg(msg_view(*m)),
{
    let mut out: Vec<char> = Vec::new();
    let lit0 = string_to_chars("{\"id\":");
    push_chars(&mut out, &lit0);
    let id_chars = string_to_chars(m.id.as_str());
    xp_string(&id_chars, &mut out);
    let lit1 = string_to_chars(",\"topic\":");
    push_chars(&mut out, &lit1);
    let topic_chars = string_to_chars(m.topic.as_str());
    xp_string(&topic_chars, &mut out);
    let lit2 = string_to_chars(",\"payload\":");
    push_chars(&mut out, &lit2);
    xp_bytes(&m.payload, &mut out);
    let lit3 = string_to_chars(",\"qos\":");
    push_chars(&mut out, &lit3);
    push_decimal_u64(m.qos as u64, &mut out);
    let lit4 = string_to_chars(",\"retain\":");
    push_chars(&mut out, &lit4);
    let flag = string_to_chars(if m.retain {
        "true"
    } else {
        "false"
    });
    push_chars(&mut out, &flag);
    let lit5 = string_to_chars(",\"timestamp\":");
    push_chars(&mut out, &lit5);
    push_decimal_u64(m.timestamp, &mut out);
    let lit6 = string_to_chars(",\"client_id\":");
    push_chars(&mut out, &lit6);
    match &m.client_id {
        Some(c) => {
            let c_chars = string_to_chars(c.as_str());
            xp_string(&c_chars, &mut out);
        },
        None => {
            let null_lit = string_to_chars("null");
            push_chars(&mut out, &null_lit);
        },
    }
    out.push('}');
    proof {
        assert(out@ =~= pr_msg(msg_view(*m)));
    }
    chars_to_string(&out)
}

/// The message a wire text holds, if it is exactly one well-formed
/// message in the wire form.
#[verifier::rlimit(100)]
pub fn decode_message(text: &str) -> (r: Option<MqttMessage>)
    ensures
        r is None ==> sp_msg(text@) is None,
        r matches Some(m) ==> sp_msg(text@) == Some(msg_view(m)) && m.wf(),
{
    let s = string_to_chars(text);
    let ghost w = text@;
    let lit0 = string_to_chars("{\"id\":");
    let p0 = x_lit(&s, 0, &lit0);
    proof {
        assert(tail(s@, 0) =~= w);
    }
    let j0 = match p0 {
        None => {
            return None;
        },
        Some(j) => j,
    };
    proof {
        assert(tail(s@, j0 as int) =~= w.skip("{\"id\":"@.len() as int));
    }
    let (id_chars, j1) = match x_string(&s, j0) {
        None => {
            return None;
        },
        Some(p) => p,
    };
    let lit1 = string_to_chars(",\"topic\":");
    let j2 = match x_lit(&s, j1, &lit1) {
        None => {
            return None;
        },
        Some(j) => j,
    };
    proof {
        assert(tail(s@, j2 as int) =~= tail(s@, j1 as int).skip(",\"topic\":"@.len() as int));
    }
    let (topic_chars, j3) = match x_string(&s, j2) {
        None => {
            return None;
        },
        Some(p) => p,
    };
    let lit2 = string_to_chars(",\"payload\":");
    let j4 = match x_lit(&s, j3, &lit2) {
        None => {
            return None;
        },
        Some(j) => j,
    };
    proof {
        assert(tail(s@, j4 as int) =~= tail(s@, j3 as int).skip(",\"payload\":"@.len() as int));
    }
    let (payload, j5) = match x_bytes(&s, j4) {
        None => {
            return None;
        },
        Some(p) => p,
    };
    let lit3 = string_to_chars(",\"qos\":");
    let j6 = match x_lit(&s, j5, &lit3) {
        None => {
            return None;
        },
        Some(j) => j,
    };
    proof {
        assert(tail(s@, j6 as int) =~= tail(s@, j5 as int).skip(",\"qos\":"@.len() as int));
    }
    let (qos64, j7) = match x_u64(&s, j6) {
        None => {
            return None;
        },
        Some(p) => p,
    };
    let lit4 = string_to_chars(",\"retain\":");
    let j8 = match x_lit(&s, j7, &lit4) {
        None => {
            return None;
        },
        Some(j) => j,
    };
    proof {
        assert(tail(s@, j8 as int) =~= tail(s@, j7 as int).skip(",\"retain\":"@.len() as int));
    }
    let lit_true = string_to_chars("true");
    let lit_false = string_to_chars("false");
    let (retain, j9) = match x_lit(&s, j8, &lit_true) {
        Some(j) => (true, j),
        None => match x_lit(&s, j8, &lit_false) {
            Some(j) => (false, j),
            None => {
                return None;
            },
        },
    };
    proof {
        if retain {
            assert(tail(s@, j9 as int) =~= tail(s@, j8 as int).skip("true"@.len() as int));
        } else {
            assert(tail(s@, j9 as int) =~= tail(s@, j8 as int).skip("false"@.len() as int));
        }
        assert(sp_retain(tail(s@, j8 as int)) == Some((retain, tail(s@, j9 as int))));
    }
    let lit5 = string_to_chars(",\"timestamp\":");
    let j10 = match x_lit(&s, j9, &lit5) {
        None => {
            return None;
        },
        Some(j) => j,
    };
    proof {
        assert(tail(s@, j10 as int) =~= tail(s@, j9 as int).skip(",\"timestamp\":"@.len() as int));
    }
    let (timestamp, j11) = match x_u64(&s, j10) {
        None => {
            return None;
        },
        Some(p) => p,
    };
    let lit6 = string_to_chars(",\"client_id\":");
    let j12 = match x_lit(&s, j11, &lit6) {
        None => {
            return None;
        },
        Some(j) => j,
    };
    proof {
        assert(tail(s@, j12 as int) =~= tail(s@, j11 as int).skip(
            ",\"client_id\":"@.len() as int,
        ));
    }
    let lit_null = string_to_chars("null");
    let (client_id, j13) = match x_lit(&s, j12, &lit_null) {
        Some(j) => {
            proof {
                assert(tail(s@, j as int) =~= tail(s@, j12 as int).skip("null"@.len() as int));
            }
            (None, j)
        },
        None => match x_string(&s, j12) {
            Some((c_chars, j)) => {
                let c = chars_to_string(&c_chars);
                (Some(c), j)
            },
            None => {
                return None;
            },
        },
    };
    proof {
        assert(sp_client_id(tail(s@, j12 as int)) matches Some(p) && p.0 == (match client_id {
            Some(c) => Some(c@),
            None => None::<Seq<char>>,
        }) && p.1 == tail(s@, j13 as int));
    }
    if s.len() - j13 != 1 {
        proof {
            assert(tail(s@, j13 as int).len() != 1);
            assert(!(tail(s@, j13 as int) =~= seq!['}']));
        }
        return None;
    }
    let close = s[j13];
    if close != '}' {
        proof {
            assert(tail(s@, j13 as int)[0] == close);
            assert(!(tail(s@, j13 as int) =~= seq!['}']));
        }
        return None;
    }
    proof {
        assert(tail(s@, j13 as int) =~= seq!['}']);
    }
    if topic_chars.len() == 0 {
        return None;
    }
    if qos64 > 2 {
        return None;
    }
    let id = chars_to_string(&id_chars);
    let topic = chars_to_string(&topic_chars);
    let m = MqttMessage {
        id,
        topic,
        payload,
        qos: qos64 as u8,
        retain,
        timestamp,
        client_id,
    };
    Some(m)
}

} // verus!
