use dns_forwarder::cache::{min_ttl, normalise_ttl, DnsCache, MAX_TTL_SECONDS};
use dns_forwarder::protocol::{Question, ResourceRecord};

fn question(name: &str) -> Question {
    Question { qname: name.to_string(), qtype: 1, qclass: 1 }
}

fn record(ttl: u32) -> ResourceRecord {
    ResourceRecord {
        name: "www.google.com".to_string(),
        rtype: 1,
        rclass: 1,
        ttl,
        rdlength: 4,
        rdata: vec![142, 250, 179, 228],
    }
}

#[test]
fn ttl_decays_with_elapsed_time() {
    let mut cache = DnsCache::new();
    let q = question("www.google.com");
    cache.set(&q, vec![record(60)], 1000);
    let got = cache.get(&q, 1010).unwrap();
    assert_eq!(got.len(), 1);
    assert_eq!(got[0].ttl, 50);
    assert_eq!(got[0].rdata, vec![142, 250, 179, 228]);
    assert!(cache.get(&q, 1060).is_none());
    assert!(cache.get(&q, 5000).is_none());
}

#[test]
fn read_does_not_change_stored_ttl() {
    let mut cache = DnsCache::new();
    let q = question("a.example");
    cache.set(&q, vec![record(100)], 0);
    assert_eq!(cache.get(&q, 30).unwrap()[0].ttl, 70);
    assert_eq!(cache.get(&q, 10).unwrap()[0].ttl, 90);
}

#[test]
fn ttl_is_capped_at_ceiling() {
    let mut cache = DnsCache::new();
    let q = question("www.google.com");
    cache.set(&q, vec![record(999999)], 0);
    assert_eq!(cache.get(&q, 0).unwrap()[0].ttl, 1800);
    assert_eq!(MAX_TTL_SECONDS, 1800);
    assert!(cache.get(&q, 1800).is_none());
}

#[test]
fn entry_expires_after_smallest_ttl() {
    let mut cache = DnsCache::new();
    let q = question("x.example");
    cache.set(&q, vec![record(300), record(20)], 0);
    let got = cache.get(&q, 5).unwrap();
    assert_eq!(got[0].ttl, 295);
    assert_eq!(got[1].ttl, 15);
    assert!(cache.get(&q, 20).is_none());
}

#[test]
fn empty_answers_are_not_stored() {
    let mut cache = DnsCache::new();
    let q = question("x.example");
    cache.set(&q, vec![], 0);
    assert!(cache.get(&q, 0).is_none());
    cache.set(&q, vec![record(10)], 0);
    cache.set(&q, vec![], 1);
    assert_eq!(cache.get(&q, 1).unwrap()[0].ttl, 9);
}

#[test]
fn set_replaces_entry_and_keeps_others() {
    let mut cache = DnsCache::new();
    let a = question("a.example");
    let b = question("b.example");
    cache.set(&a, vec![record(10)], 0);
    cache.set(&b, vec![record(40)], 0);
    cache.set(&a, vec![record(500)], 100);
    assert_eq!(cache.get(&a, 100).unwrap()[0].ttl, 500);
    assert_eq!(cache.get(&b, 30).unwrap()[0].ttl, 10);
    let other_type = Question { qname: "a.example".to_string(), qtype: 28, qclass: 1 };
    assert!(cache.get(&other_type, 100).is_none());
}

#[test]
fn zero_ttl_is_a_miss() {
    let mut cache = DnsCache::new();
    let q = question("z.example");
    cache.set(&q, vec![record(0)], 50);
    assert!(cache.get(&q, 50).is_none());
}

#[test]
fn min_ttl_takes_capped_minimum() {
    assert_eq!(min_ttl(&[]), None);
    assert_eq!(min_ttl(&[record(30), record(7), record(90)]), Some(7));
    assert_eq!(min_ttl(&[record(5000), record(4000)]), Some(1800));
}

#[test]
fn normalise_caps_each_record() {
    let mut v = vec![record(10), record(999999)];
    normalise_ttl(&mut v);
    assert_eq!(v[0].ttl, 10);
    assert_eq!(v[1].ttl, 1800);
}
