//! The decisions the server loop makes for one decoded query: answer from
//! the cache, or forward upstream; and, once upstream has answered or
//! failed, what to store and what to send back. Receiving, sending and
//! waiting are done by the caller.
use vstd::prelude::*;
use crate::protocol::{
    Flags, Message, MessageModel, Question, RecordModel, ResourceRecord, qr_of, rcode_of,
    same_flags_except, records_model, copy_records,
};
use crate::cache::{DnsCache, after_set, served};

verus! {

/// The RCODE of a server failure.
pub const RCODE_SERVER_FAILURE: u8 = 2;

/// Why upstream gave no answer.
#[derive(Clone, Copy, Debug, PartialEq, Eq, Structural)]
pub enum UpstreamError {
    /// No reply came in time.
    Timeout,
    /// The datagram could not be sent.
    Io,
    /// Every upstream transaction id is in flight.
    OutOfSlots,
}

/// `r` is `f` with QR set to 1 and nothing else changed.
pub open spec fn response_flags(f: Flags, r: Flags) -> bool {
    qr_of(r) == 1 && same_flags_except(f, r, 0)
}

/// The reply built from a query and cached answers: the query with QR set,
/// the answers in place of its answer section and the answer count
/// matching them.
pub open spec fn is_cache_response(query: MessageModel, answers: Seq<RecordModel>, r: MessageModel) -> bool {
    &&& response_flags(query.header.flags, r.header.flags)
    &&& r.header.id == query.header.id
    &&& r.header.qdcount == query.header.qdcount
    &&& r.header.ancount == answers.len()
    &&& r.header.nscount == query.header.nscount
    &&& r.header.arcount == query.header.arcount
    &&& r.questions == query.questions
    &&& r.answers == answers
    &&& r.authorities == query.authorities
    &&& r.additionals == query.additionals
}

/// The reply that reports a server failure: the query with QR set to 1 and
/// RCODE set to 2, and nothing else changed.
pub open spec fn is_failure_response(query: MessageModel, r: MessageModel) -> bool {
    &&& qr_of(r.header.flags) == 1
    &&& rcode_of(r.header.flags) == RCODE_SERVER_FAILURE
    &&& crate::protocol::opcode_of(r.header.flags) == crate::protocol::opcode_of(query.header.flags)
    &&& crate::protocol::aa_of(r.header.flags) == crate::protocol::aa_of(query.header.flags)
    &&& crate::protocol::tc_of(r.header.flags) == crate::protocol::tc_of(query.header.flags)
    &&& crate::protocol::rd_of(r.header.flags) == crate::protocol::rd_of(query.header.flags)
    &&& crate::protocol::ra_of(r.header.flags) == crate::protocol::ra_of(query.header.flags)
    &&& crate::protocol::z_of(r.header.flags) == crate::protocol::z_of(query.header.flags)
    &&& crate::protocol::ad_of(r.header.flags) == crate::protocol::ad_of(query.header.flags)
    &&& crate::protocol::cd_of(r.header.flags) == crate::protocol::cd_of(query.header.flags)
    &&& r.header.id == query.header.id
    &&& r.header.qdcount == query.header.qdcount
    &&& r.header.ancount == query.header.ancount
    &&& r.header.nscount == query.header.nscount
    &&& r.header.arcount == query.header.arcount
    &&& r.questions == query.questions
    &&& r.answers == query.answers
    &&& r.authorities == query.authorities
    &&& r.additionals == query.additionals
}

/// Builds the reply to `query` from cached answers.
pub fn respond_from_cache(query: &Message, answers: Vec<ResourceRecord>) -> (r: Message)
    requires
        answers@.len() <= u16::MAX,
    ensures
        is_cache_response(query@, records_model(answers@), r@),
{
    let mut response = query.duplicate();
    response.header.flags.set_qr(1);
    response.header.ancount = answers.len() as u16;
    response.answers = answers;
    response
}

/// Builds the server-failure reply to `query`.
pub fn server_failure(query: &Message) -> (r: Message)
    ensures
        is_failure_response(query@, r@),
{
    let mut response = query.duplicate();
    response.header.flags.set_qr(1);
    response.header.flags.set_rcode(RCODE_SERVER_FAILURE);
    response
}

/// What to do with a decoded query.
pub enum Plan {
    /// Send this reply; upstream is not asked.
    Reply(Message),
    /// Forward the query upstream. When there is a key, the answers that
    /// come back are stored under it.
    Forward(Option<Question>),
}

/// Decides how to handle `query` at time `now`. A query with exactly one
/// question is answered from the cache when its entry is live, and is
/// otherwise forwarded with that question as the key to store under (also
/// when the entry holds more answers than a header can count). Any
/// other query is forwarded and its reply never stored.
pub fn plan_query(query: &Message, cache: &DnsCache, now: u64) -> (r: Plan)
    ensures
        query@.questions.len() == 1 ==> match served(cache.entry(query@.questions[0]), now) {
            Some(rs) => if rs.len() <= u16::MAX {
                r matches Plan::Reply(m) && is_cache_response(query@, rs, m@)
            } else {
                r matches Plan::Forward(Some(q)) && q@ == query@.questions[0]
            },
            None => r matches Plan::Forward(Some(q)) && q@ == query@.questions[0],
        },
        query@.questions.len() != 1 ==> r matches Plan::Forward(None),
{
    if query.questions.len() != 1 {
        return Plan::Forward(None);
    }
    let q = &query.questions[0];
    match cache.get(q, now) {
        Some(answers) => {
            if answers.len() > 65535 {
                return Plan::Forward(Some(q.duplicate()));
            }
            Plan::Reply(respond_from_cache(query, answers))
        },
        None => Plan::Forward(Some(q.duplicate())),
    }
}


/// Builds the reply once upstream has answered or failed. An answer is
/// relayed as it came, and stored under `key` when there is one; a failure
/// becomes a server-failure reply and the cache is left alone.
pub fn finish_query(
    query: &Message,
    key: Option<Question>,
    outcome: Result<Message, UpstreamError>,
    cache: &mut DnsCache,
    now: u64,
) -> (r: Message)
    ensures
        match outcome {
            Ok(reply) => {
                &&& r@ == reply@
                &&& match key {
                    Some(q) => after_set(*old(cache), *final(cache), q@, reply@.answers, now),
                    None => forall|k| #[trigger] final(cache).entry(k) == old(cache).entry(k),
                }
            },
            Err(_) => {
                &&& is_failure_response(query@, r@)
                &&& forall|k| #[trigger] final(cache).entry(k) == old(cache).entry(k)
            },
        },
{
    match outcome {
        Ok(reply) => {
            if let Some(q) = key {
                cache.set(&q, copy_records(&reply.answers), now);
            }
            reply
        },
        Err(_) => server_failure(query),
    }
}

} // verus!
