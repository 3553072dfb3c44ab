use dns_forwarder::cache::DnsCache;
use dns_forwarder::protocol::{Message, ResourceRecord};
use dns_forwarder::server::{finish_query, plan_query, respond_from_cache, server_failure, Plan, UpstreamError};

fn a_query() -> Message {
    let bytes = [
        15, 245, 1, 32, 0, 1, 0, 0, 0, 0, 0, 1, 3, 119, 119, 119, 6, 103, 111, 111, 103, 108, 101,
        3, 99, 111, 109, 0, 0, 1, 0, 1, 0, 0, 41, 16, 0, 0, 0, 0, 0, 0, 0,
    ];
    Message::from_bytes(&bytes).unwrap()
}

fn a_response() -> Message {
    let bytes = [
        15, 245, 129, 128, 0, 1, 0, 1, 0, 0, 0, 1, 3, 119, 119, 119, 6, 103, 111, 111, 103, 108,
        101, 3, 99, 111, 109, 0, 0, 1, 0, 1, 192, 12, 0, 1, 0, 1, 0, 0, 0, 18, 0, 4, 142, 250, 179,
        228, 0, 0, 41, 2, 0, 0, 0, 0, 0, 0, 0,
    ];
    Message::from_bytes(&bytes).unwrap()
}

#[test]
fn miss_then_hit_serves_from_cache() {
    let mut cache = DnsCache::new();
    let query = a_query();
    let key = match plan_query(&query, &cache, 100) {
        Plan::Forward(Some(q)) => q,
        _ => panic!("first query must be forwarded with a key"),
    };
    assert_eq!(key.qname, "www.google.com");
    let reply = finish_query(&query, Some(key), Ok(a_response()), &mut cache, 100);
    assert_eq!(reply.answers.len(), 1);
    match plan_query(&query, &cache, 100) {
        Plan::Reply(m) => {
            assert_eq!(m.header.flags.qr(), 1);
            assert_eq!(m.header.id, query.header.id);
            assert_eq!(m.header.ancount, 1);
            assert_eq!(m.answers[0].ttl, 18);
            assert_eq!(m.answers[0].rdata, vec![142, 250, 179, 228]);
        }
        _ => panic!("second query must be answered from the cache"),
    }
    match plan_query(&query, &cache, 105) {
        Plan::Reply(m) => assert_eq!(m.answers[0].ttl, 13),
        _ => panic!("still cached"),
    }
}

#[test]
fn two_question_query_is_forwarded_and_never_cached() {
    let mut cache = DnsCache::new();
    let single = a_query();
    cache.set(&single.questions[0], a_response().answers, 0);
    let mut query = a_query();
    let q2 = query.questions[0].clone();
    query.questions.push(q2);
    query.header.qdcount = 2;
    match plan_query(&query, &cache, 0) {
        Plan::Forward(None) => {}
        _ => panic!("two questions are always forwarded without a key"),
    }
    let mut other = a_response();
    other.answers[0].ttl = 999;
    let reply = finish_query(&query, None, Ok(other), &mut cache, 0);
    assert_eq!(reply.answers[0].ttl, 999);
    assert_eq!(cache.get(&single.questions[0], 0).unwrap()[0].ttl, 18);
}

#[test]
fn upstream_timeout_gives_server_failure() {
    let mut cache = DnsCache::new();
    let query = a_query();
    let key = query.questions[0].clone();
    let reply = finish_query(&query, Some(key), Err(UpstreamError::Timeout), &mut cache, 0);
    assert_eq!(reply.header.flags.qr(), 1);
    assert_eq!(reply.header.flags.rcode(), 2);
    assert_eq!(reply.header.flags.rd(), 1);
    assert_eq!(reply.header.id, query.header.id);
    assert!(cache.get(&query.questions[0], 0).is_none());
    let bytes = reply.to_udp_packet().unwrap();
    assert_eq!(bytes[2], 0x81);
    assert_eq!(bytes[3], 0x22);
}

#[test]
fn failure_and_cache_replies_keep_the_query() {
    let query = a_query();
    let failed = server_failure(&query);
    assert_eq!(failed.questions[0].qname, "www.google.com");
    assert_eq!(failed.header.flags.ad(), 1);
    let answers: Vec<ResourceRecord> = a_response().answers;
    let cached = respond_from_cache(&query, answers);
    assert_eq!(cached.header.ancount, 1);
    assert_eq!(cached.header.flags.rcode(), 0);
    assert_eq!(cached.additionals.len(), 1);
}
