//! The self-describing tagged wire encoding of tasks.
//!
//! Every payload starts with an explicit discriminant character, so a
//! consumer running different code than the producer can reject task kinds
//! it does not recognize instead of failing to parse. String fields carry a
//! fixed-width hex length prefix; the attempt counter is fixed-width hex.
//! Decoding accepts exactly the encodings this module produces: unknown
//! tags, bad digits, short fields and trailing characters are all decode
//! failures, never a crash.
use vstd::prelude::*;

use crate::errors::Error;
use crate::hexnum::{
    hex_seq, lemma_hex_seq_len, lemma_parse_hex_bound, lemma_parse_hex_seq, parse_hex, pow16,
    push_hex, read_hex,
};
use crate::tasks::{
    MessageAttemptTriggerType, MessageTask, MessageTaskBatch, MessageTaskBatchV, MessageTaskV,
    QueueTask, TaskV,
};

verus! {

pub open spec fn trigger_type_char(t: MessageAttemptTriggerType) -> char {
    match t {
        MessageAttemptTriggerType::Scheduled => 'S',
        MessageAttemptTriggerType::Manual => 'M',
    }
}

pub open spec fn char_trigger_type(c: char) -> Option<MessageAttemptTriggerType> {
    if c == 'S' {
        Some(MessageAttemptTriggerType::Scheduled)
    } else if c == 'M' {
        Some(MessageAttemptTriggerType::Manual)
    } else {
        None
    }
}

/// A string field on the wire: sixteen hex digits of length, then the text.
pub open spec fn len_str(s: Seq<char>) -> Seq<char> {
    hex_seq(s.len() as int, 16) + s
}

/// The wire form of a task.
pub open spec fn spec_encode(t: TaskV) -> Seq<char> {
    match t {
        TaskV::HealthCheck => seq!['H'],
        TaskV::MessageV1(m) => seq!['1'] + len_str(m.msg_id) + len_str(m.app_id) + len_str(
            m.endpoint_id,
        ) + seq![trigger_type_char(m.trigger_type)] + hex_seq(m.attempt_count as int, 4),
        TaskV::MessageBatch(b) => seq!['B'] + len_str(b.msg_id) + len_str(b.app_id) + (match b
            .force_endpoint {
            Some(e) => seq!['E'] + len_str(e),
            None => seq!['N'],
        }) + seq![trigger_type_char(b.trigger_type)],
    }
}

/// Splits one length-prefixed string field off the front of `s`.
pub open spec fn parse_str_field(s: Seq<char>) -> Option<(Seq<char>, Seq<char>)> {
    if s.len() < 16 {
        None
    } else {
        match parse_hex(s.take(16)) {
            None => None,
            Some(n) => if s.len() - 16 < n {
                None
            } else {
                Some((s.subrange(16, 16 + n), s.skip(16 + n)))
            },
        }
    }
}

pub open spec fn spec_decode_v1(s: Seq<char>) -> Option<TaskV> {
    match parse_str_field(s) {
        None => None,
        Some((msg_id, s1)) => match parse_str_field(s1) {
            None => None,
            Some((app_id, s2)) => match parse_str_field(s2) {
                None => None,
                Some((endpoint_id, s3)) => if s3.len() != 5 {
                    None
                } else {
                    match char_trigger_type(s3[0]) {
                        None => None,
                        Some(tt) => match parse_hex(s3.subrange(1, 5)) {
                            None => None,
                            Some(n) => Some(
                                TaskV::MessageV1(
                                    MessageTaskV {
                                        msg_id,
                                        app_id,
                                        endpoint_id,
                                        trigger_type: tt,
                                        attempt_count: n as u16,
                                    },
                                ),
                            ),
                        },
                    }
                },
            },
        },
    }
}

pub open spec fn spec_decode_batch(s: Seq<char>) -> Option<TaskV> {
    match parse_str_field(s) {
        None => None,
        Some((msg_id, s1)) => match parse_str_field(s1) {
            None => None,
            Some((app_id, s2)) => if s2.len() < 1 {
                None
            } else if s2[0] == 'E' {
                match parse_str_field(s2.skip(1)) {
                    None => None,
                    Some((endpoint_id, s3)) => if s3.len() != 1 {
                        None
                    } else {
                        match char_trigger_type(s3[0]) {
                            None => None,
                            Some(tt) => Some(
                                TaskV::MessageBatch(
                                    MessageTaskBatchV {
                                        msg_id,
                                        app_id,
                                        force_endpoint: Some(endpoint_id),
                                        trigger_type: tt,
                                    },
                                ),
                            ),
                        }
                    },
                }
            } else if s2[0] == 'N' {
                if s2.len() != 2 {
                    None
                } else {
                    match char_trigger_type(s2[1]) {
                        None => None,
                        Some(tt) => Some(
                            TaskV::MessageBatch(
                                MessageTaskBatchV {
                                    msg_id,
                                    app_id,
                                    force_endpoint: None,
                                    trigger_type: tt,
                                },
                            ),
                        ),
                    }
                }
            } else {
                None
            },
        },
    }
}

/// What any wire string means: a task, or nothing.
pub open spec fn spec_decode(s: Seq<char>) -> Option<TaskV> {
    if s.len() == 0 {
        None
    } else if s[0] == 'H' {
        if s.len() == 1 {
            Some(TaskV::HealthCheck)
        } else {
            None
        }
    } else if s[0] == '1' {
        spec_decode_v1(s.skip(1))
    } else if s[0] == 'B' {
        spec_decode_batch(s.skip(1))
    } else {
        None
    }
}

/// A payload whose discriminant is not a known tag never decodes; it is
/// surfaced as a decode failure, not a crash.
pub proof fn lemma_unknown_tag_rejected(s: Seq<char>)
    requires
        s.len() > 0,
        s[0] != 'H',
        s[0] != '1',
        s[0] != 'B',
    ensures
        spec_decode(s) is None,
{
}

pub proof fn lemma_parse_str_field(x: Seq<char>, rest: Seq<char>)
    requires
        x.len() < pow16(16),
    ensures
        parse_str_field(len_str(x) + rest) == Some((x, rest)),
{
    let s = len_str(x) + rest;
    lemma_hex_seq_len(x.len() as int, 16);
    assert(s.take(16) =~= hex_seq(x.len() as int, 16));
    lemma_parse_hex_seq(x.len() as int, 16);
    assert(s.subrange(16, 16 + x.len() as int) =~= x);
    assert(s.skip(16 + x.len() as int) =~= rest);
}

/// Round-trip: encoding any task and decoding the result yields the task
/// back, equal in every field.
pub proof fn lemma_round_trip(t: TaskV)
    requires
        t.wf(),
    ensures
        spec_decode(spec_encode(t)) == Some(t),
{
    match t {
        TaskV::HealthCheck => {
            assert(spec_encode(t)[0] == 'H');
        },
        TaskV::MessageV1(m) => {
            lemma_round_trip_v1(t);
        },
        TaskV::MessageBatch(b) => {
            lemma_round_trip_batch(t);
        },
    }
}

#[verifier::rlimit(100)]
proof fn lemma_round_trip_v1(t: TaskV)
    requires
        t.wf(),
        t is MessageV1,
    ensures
        spec_decode(spec_encode(t)) == Some(t),
{
    let s = spec_encode(t);
    match t {
        TaskV::HealthCheck => {
            assert(false);
        },
        TaskV::MessageV1(m) => {
            let tail = len_str(m.msg_id) + len_str(m.app_id) + len_str(m.endpoint_id) + seq![
                trigger_type_char(m.trigger_type),
            ] + hex_seq(m.attempt_count as int, 4);
            assert(s[0] == '1');
            assert(s.skip(1) =~= tail);
            let r1 = len_str(m.app_id) + len_str(m.endpoint_id) + seq![
                trigger_type_char(m.trigger_type),
            ] + hex_seq(m.attempt_count as int, 4);
            assert(tail =~= len_str(m.msg_id) + r1);
            lemma_parse_str_field(m.msg_id, r1);
            let r2 = len_str(m.endpoint_id) + seq![trigger_type_char(m.trigger_type)] + hex_seq(
                m.attempt_count as int,
                4,
            );
            assert(r1 =~= len_str(m.app_id) + r2);
            lemma_parse_str_field(m.app_id, r2);
            let r3 = seq![trigger_type_char(m.trigger_type)] + hex_seq(m.attempt_count as int, 4);
            assert(r2 =~= len_str(m.endpoint_id) + r3);
            lemma_parse_str_field(m.endpoint_id, r3);
            lemma_hex_seq_len(m.attempt_count as int, 4);
            assert(r3.len() == 5);
            assert(r3[0] == trigger_type_char(m.trigger_type));
            assert(pow16(4) == 65536) by {
                reveal_with_fuel(pow16, 5);
            }
            lemma_parse_hex_seq(m.attempt_count as int, 4);
            assert(r3.subrange(1, 5) =~= hex_seq(m.attempt_count as int, 4));
            assert(spec_decode_v1(tail) == Some(t));
        },
        TaskV::MessageBatch(_) => {
            assert(false);
        },
    }
}

#[verifier::rlimit(100)]
proof fn lemma_round_trip_batch(t: TaskV)
    requires
        t.wf(),
        t is MessageBatch,
    ensures
        spec_decode(spec_encode(t)) == Some(t),
{
    let s = spec_encode(t);
    match t {
        TaskV::HealthCheck => {
            assert(false);
        },
        TaskV::MessageV1(_) => {
            assert(false);
        },
        TaskV::MessageBatch(b) => {
            let fe = match b.force_endpoint {
                Some(e) => seq!['E'] + len_str(e),
                None => seq!['N'],
            };
            let tail = len_str(b.msg_id) + len_str(b.app_id) + fe + seq![
                trigger_type_char(b.trigger_type),
            ];
            assert(s[0] == 'B');
            assert(s.skip(1) =~= tail);
            let r1 = len_str(b.app_id) + fe + seq![trigger_type_char(b.trigger_type)];
            assert(tail =~= len_str(b.msg_id) + r1);
            lemma_parse_str_field(b.msg_id, r1);
            let r2 = fe + seq![trigger_type_char(b.trigger_type)];
            assert(r1 =~= len_str(b.app_id) + r2);
            lemma_parse_str_field(b.app_id, r2);
            match b.force_endpoint {
                Some(e) => {
                    assert(r2[0] == 'E');
                    let r3 = seq![trigger_type_char(b.trigger_type)];
                    assert(r2.skip(1) =~= len_str(e) + r3);
                    lemma_parse_str_field(e, r3);
                    assert(r3.len() == 1);
                    assert(r3[0] == trigger_type_char(b.trigger_type));
                },
                None => {
                    assert(r2[0] == 'N');
                    assert(r2.len() == 2);
                    assert(r2[1] == trigger_type_char(b.trigger_type));
                },
            }
            assert(spec_decode_batch(tail) == Some(t));
        },
    }
}

fn trigger_type_str(t: MessageAttemptTriggerType) -> (r: &'static str)
    ensures
        r@ =~= seq![trigger_type_char(t)],
{
    proof {
        reveal_strlit("S");
        reveal_strlit("M");
    }
    match t {
        MessageAttemptTriggerType::Scheduled => "S",
        MessageAttemptTriggerType::Manual => "M",
    }
}

/// Appends one length-prefixed string field to the wire string.
fn push_field(out: &mut String, field: &String)
    ensures
        final(out)@ == old(out)@ + len_str(field@),
{
    let l: usize = field.as_str().unicode_len();
    push_hex(out, l as u64, 16);
    out.append(field.as_str());
    proof {
        assert(out@ =~= old(out)@ + len_str(field@));
    }
}

/// Encodes a task for any backend's payload transport.
pub fn encode_task(t: &QueueTask) -> (r: String)
    ensures
        r@ == spec_encode(t@),
{
    proof {
        reveal_strlit("H");
        reveal_strlit("1");
        reveal_strlit("B");
        reveal_strlit("E");
        reveal_strlit("N");
    }
    match t {
        QueueTask::HealthCheck => {
            let r = String::from_str("H");
            proof {
                assert(r@ =~= spec_encode(t@));
            }
            r
        },
        QueueTask::MessageV1(m) => {
            let mut r = String::from_str("1");
            push_field(&mut r, &m.msg_id);
            push_field(&mut r, &m.app_id);
            push_field(&mut r, &m.endpoint_id);
            r.append(trigger_type_str(m.trigger_type));
            push_hex(&mut r, m.attempt_count as u64, 4);
            proof {
                assert(r@ =~= spec_encode(t@));
            }
            r
        },
        QueueTask::MessageBatch(b) => {
            let mut r = String::from_str("B");
            push_field(&mut r, &b.msg_id);
            push_field(&mut r, &b.app_id);
            match &b.force_endpoint {
                Some(e) => {
                    r.append("E");
                    push_field(&mut r, e);
                },
                None => {
                    r.append("N");
                },
            }
            r.append(trigger_type_str(b.trigger_type));
            proof {
                assert(r@ =~= spec_encode(t@));
            }
            r
        },
    }
}

/// Reads one length-prefixed string field starting at `pos`; on success the
/// returned position is where the rest of the payload continues.
fn read_field(s: &str, pos: usize) -> (r: Option<(String, usize)>)
    requires
        pos <= s@.len(),
    ensures
        match parse_str_field(s@.skip(pos as int)) {
            None => r is None,
            Some((f, rest)) => r matches Some(p) && p.0@ == f && p.1 <= s@.len() && s@.skip(
                p.1 as int,
            ) == rest,
        },
{
    let slen: usize = s.unicode_len();
    let ghost tail = s@.skip(pos as int);
    if slen - pos < 16 {
        return None;
    }
    proof {
        assert(tail.take(16) =~= s@.subrange(pos as int, pos as int + 16));
    }
    let n = match read_hex(s, pos, 16) {
        None => {
            return None;
        },
        Some(n) => n,
    };
    let avail: usize = slen - pos - 16;
    if n > avail as u64 {
        proof {
            assert(tail.len() - 16 < n);
        }
        return None;
    }
    let n_us: usize = n as usize;
    let start: usize = pos + 16;
    let field: String = s.substring_char(start, start + n_us).to_owned();
    proof {
        assert(field@ =~= tail.subrange(16, 16 + n as int));
        assert(s@.skip((start + n_us) as int) =~= tail.skip(16 + n as int));
    }
    Some((field, start + n_us))
}

fn read_trigger_type(s: &str, pos: usize) -> (r: Option<MessageAttemptTriggerType>)
    requires
        pos < s@.len(),
    ensures
        r == char_trigger_type(s@[pos as int]),
{
    let c: char = s.get_char(pos);
    match c {
        'S' => Some(MessageAttemptTriggerType::Scheduled),
        'M' => Some(MessageAttemptTriggerType::Manual),
        _ => None,
    }
}

/// Decodes a payload; anything but a well-formed tagged task encoding is a
/// `Decode` error.
pub fn decode_task(s: &str) -> (r: Result<QueueTask, Error>)
    ensures
        match spec_decode(s@) {
            Some(v) => r matches Ok(t) && t@ == v,
            None => r matches Err(e) && e is Decode,
        },
{
    let slen: usize = s.unicode_len();
    if slen == 0 {
        return Err(Error::Decode);
    }
    let tag: char = s.get_char(0);
    match tag {
        'H' => {
            if slen == 1 {
                Ok(QueueTask::HealthCheck)
            } else {
                Err(Error::Decode)
            }
        },
        '1' => decode_v1(s),
        'B' => decode_batch(s),
        _ => Err(Error::Decode),
    }
}

fn decode_v1(s: &str) -> (r: Result<QueueTask, Error>)
    requires
        s@.len() >= 1,
        s@[0] == '1',
    ensures
        match spec_decode_v1(s@.skip(1)) {
            Some(v) => r matches Ok(t) && t@ == v,
            None => r matches Err(e) && e is Decode,
        },
{
    let slen: usize = s.unicode_len();
    let (msg_id, p1) = match read_field(s, 1) {
        None => {
            return Err(Error::Decode);
        },
        Some(p) => p,
    };
    let (app_id, p2) = match read_field(s, p1) {
        None => {
            return Err(Error::Decode);
        },
        Some(p) => p,
    };
    let (endpoint_id, p3) = match read_field(s, p2) {
        None => {
            return Err(Error::Decode);
        },
        Some(p) => p,
    };
    let ghost s3 = s@.skip(p3 as int);
    if slen - p3 != 5 {
        return Err(Error::Decode);
    }
    let tt = match read_trigger_type(s, p3) {
        None => {
            proof {
                assert(s3[0] == s@[p3 as int]);
            }
            return Err(Error::Decode);
        },
        Some(tt) => tt,
    };
    proof {
        assert(s3[0] == s@[p3 as int]);
        assert(s3.subrange(1, 5) =~= s@.subrange(p3 as int + 1, p3 as int + 5));
    }
    let n = match read_hex(s, p3 + 1, 4) {
        None => {
            return Err(Error::Decode);
        },
        Some(n) => n,
    };
    proof {
        lemma_parse_hex_bound(s3.subrange(1, 5));
        assert(pow16(4) == 65536) by {
            reveal_with_fuel(pow16, 5);
        }
    }
    Ok(
        QueueTask::MessageV1(
            MessageTask {
                msg_id,
                app_id,
                endpoint_id,
                trigger_type: tt,
                attempt_count: n as u16,
            },
        ),
    )
}

fn decode_batch(s: &str) -> (r: Result<QueueTask, Error>)
    requires
        s@.len() >= 1,
        s@[0] == 'B',
    ensures
        match spec_decode_batch(s@.skip(1)) {
            Some(v) => r matches Ok(t) && t@ == v,
            None => r matches Err(e) && e is Decode,
        },
{
    let slen: usize = s.unicode_len();
    let (msg_id, p1) = match read_field(s, 1) {
        None => {
            return Err(Error::Decode);
        },
        Some(p) => p,
    };
    let (app_id, p2) = match read_field(s, p1) {
        None => {
            return Err(Error::Decode);
        },
        Some(p) => p,
    };
    let ghost s2 = s@.skip(p2 as int);
    if slen - p2 < 1 {
        return Err(Error::Decode);
    }
    let marker: char = s.get_char(p2);
    proof {
        assert(s2[0] == s@[p2 as int]);
    }
    if marker == 'E' {
        let (endpoint_id, p3) = match read_field(s, p2 + 1) {
            None => {
                proof {
                    assert(s2.skip(1) =~= s@.skip(p2 as int + 1));
                }
                return Err(Error::Decode);
            },
            Some(p) => p,
        };
        proof {
            assert(s2.skip(1) =~= s@.skip(p2 as int + 1));
        }
        let ghost s3 = s@.skip(p3 as int);
        if slen - p3 != 1 {
            return Err(Error::Decode);
        }
        let tt = match read_trigger_type(s, p3) {
            None => {
                proof {
                    assert(s3[0] == s@[p3 as int]);
                }
                return Err(Error::Decode);
            },
            Some(tt) => tt,
        };
        proof {
            assert(s3[0] == s@[p3 as int]);
        }
        Ok(
            QueueTask::MessageBatch(
                MessageTaskBatch {
                    msg_id,
                    app_id,
                    force_endpoint: Some(endpoint_id),
                    trigger_type: tt,
                },
            ),
        )
    } else if marker == 'N' {
        if slen - p2 != 2 {
            return Err(Error::Decode);
        }
        let tt = match read_trigger_type(s, p2 + 1) {
            None => {
                proof {
                    assert(s2[1] == s@[p2 as int + 1]);
                }
                return Err(Error::Decode);
            },
            Some(tt) => tt,
        };
        proof {
            assert(s2[1] == s@[p2 as int + 1]);
        }
        Ok(
            QueueTask::MessageBatch(
                MessageTaskBatch { msg_id, app_id, force_endpoint: None, trigger_type: tt },
            ),
        )
    } else {
        Err(Error::Decode)
    }
}

} // verus!
