use dns_forwarder::cache::{CacheEntry, CacheKey, CacheStore};
use dns_forwarder::forwarding::{cached_records, is_fresh, store_upstream_answer, LookupError};
use dns_forwarder::record::{
    build_records, IpAddress, RecordData, ResourceRecord, RECORD_TTL, RECORD_TYPE_A,
    RECORD_TYPE_AAAA,
};

fn key(name: &str, record_type: u16) -> CacheKey {
    CacheKey { name: name.to_string(), record_type }
}

fn v4(a: u8, b: u8, c: u8, d: u8) -> IpAddress {
    IpAddress::V4(u32::from_be_bytes([a, b, c, d]))
}

#[test]
fn example_com_a_record_from_empty_cache() {
    let mut cache = CacheStore::new();
    let now: u64 = 1_700_000_000;
    assert!(cached_records(&cache, &key("example.com.", RECORD_TYPE_A), now).is_none());
    let records = store_upstream_answer(
        &mut cache,
        key("example.com.", RECORD_TYPE_A),
        now,
        Some(vec![v4(93, 184, 216, 34)]),
    )
    .unwrap();
    assert_eq!(records.len(), 1);
    assert_eq!(records[0].owner, "example.com.");
    assert_eq!(records[0].ttl, 3600);
    assert_eq!(records[0].data, RecordData::A(0x5DB8_D822));
    assert_eq!(records[0].record_type(), RECORD_TYPE_A);

    let entry = cache.get(&key("example.com.", RECORD_TYPE_A)).unwrap();
    assert_eq!(entry.valid_until, now + 3600);
    assert_eq!(entry.records, records);
    assert_eq!(cache.len(), 1);
}

#[test]
fn served_before_expiry_and_refreshed_at_it() {
    let mut cache = CacheStore::new();
    let now: u64 = 1000;
    let stored = store_upstream_answer(
        &mut cache,
        key("a.test.", RECORD_TYPE_A),
        now,
        Some(vec![v4(10, 0, 0, 1), v4(10, 0, 0, 2)]),
    )
    .unwrap();
    let hit = cached_records(&cache, &key("a.test.", RECORD_TYPE_A), now + 3599).unwrap();
    assert_eq!(hit, stored);
    assert!(cached_records(&cache, &key("a.test.", RECORD_TYPE_A), now + 3600).is_none());
    assert!(cached_records(&cache, &key("a.test.", RECORD_TYPE_A), now + 7200).is_none());
}

#[test]
fn entry_is_stale_exactly_at_valid_until() {
    let entry = CacheEntry { valid_until: 500, records: Vec::new() };
    assert!(is_fresh(&entry, 499));
    assert!(!is_fresh(&entry, 500));
    assert!(!is_fresh(&entry, 501));
}

#[test]
fn second_lookup_within_ttl_is_identical_and_skips_upstream() {
    let mut cache = CacheStore::new();
    let mut upstream_calls = 0;
    let mut lookup = |cache: &mut CacheStore, now: u64| -> Vec<ResourceRecord> {
        match cached_records(cache, &key("b.test.", RECORD_TYPE_A), now) {
            Some(records) => records,
            None => {
                upstream_calls += 1;
                store_upstream_answer(cache, key("b.test.", RECORD_TYPE_A), now, Some(vec![v4(1, 2, 3, 4)]))
                    .unwrap()
            }
        }
    };
    let first = lookup(&mut cache, 100);
    let second = lookup(&mut cache, 200);
    assert_eq!(first, second);
    assert_eq!(upstream_calls, 1);
}

#[test]
fn dual_stack_answer_gives_one_a_and_one_aaaa() {
    let name = "dual.test.".to_string();
    let six: u128 = 0x2001_0db8_0000_0000_0000_0000_0000_0001;
    let records = build_records(&name, &vec![v4(192, 0, 2, 1), IpAddress::V6(six)]);
    assert_eq!(records.len(), 2);
    assert_eq!(records.iter().filter(|r| r.record_type() == RECORD_TYPE_A).count(), 1);
    assert_eq!(records.iter().filter(|r| r.record_type() == RECORD_TYPE_AAAA).count(), 1);
    assert_eq!(records[0].data, RecordData::A(0xC000_0201));
    assert_eq!(records[1].data, RecordData::Aaaa(six));
    for r in &records {
        assert_eq!(r.owner, name);
        assert_eq!(r.ttl, RECORD_TTL);
    }
}

#[test]
fn serialized_lookups_of_one_key_leave_one_entry() {
    let mut cache = CacheStore::new();
    let mut upstream_calls = 0;
    for i in 0..8u64 {
        let now = 50 + i;
        if cached_records(&cache, &key("c.test.", RECORD_TYPE_A), now).is_none() {
            upstream_calls += 1;
            store_upstream_answer(&mut cache, key("c.test.", RECORD_TYPE_A), now, Some(vec![v4(9, 9, 9, i as u8)]))
                .unwrap();
        }
    }
    assert_eq!(upstream_calls, 1);
    assert_eq!(cache.len(), 1);
    let entry = cache.get(&key("c.test.", RECORD_TYPE_A)).unwrap();
    assert_eq!(entry.valid_until, 3650);
    assert_eq!(entry.records[0].data, RecordData::A(u32::from_be_bytes([9, 9, 9, 0])));
}

#[test]
fn upstream_failure_keeps_prior_entry() {
    let mut cache = CacheStore::new();
    store_upstream_answer(&mut cache, key("d.test.", RECORD_TYPE_A), 0, Some(vec![v4(8, 8, 8, 8)])).unwrap();
    let r = store_upstream_answer(&mut cache, key("d.test.", RECORD_TYPE_A), 4000, None);
    assert_eq!(r, Err(LookupError::UpstreamFailed));
    let entry = cache.get(&key("d.test.", RECORD_TYPE_A)).unwrap();
    assert_eq!(entry.valid_until, 3600);
    assert_eq!(entry.records[0].data, RecordData::A(0x0808_0808));
}

#[test]
fn upstream_failure_on_empty_cache_stores_nothing() {
    let mut cache = CacheStore::new();
    let r = store_upstream_answer(&mut cache, key("e.test.", RECORD_TYPE_A), 0, None);
    assert_eq!(r, Err(LookupError::UpstreamFailed));
    assert_eq!(cache.len(), 0);
    assert!(cache.get(&key("e.test.", RECORD_TYPE_A)).is_none());
}

#[test]
fn refresh_replaces_stale_entry() {
    let mut cache = CacheStore::new();
    store_upstream_answer(&mut cache, key("f.test.", RECORD_TYPE_A), 0, Some(vec![v4(1, 1, 1, 1), v4(2, 2, 2, 2)]))
        .unwrap();
    assert!(cached_records(&cache, &key("f.test.", RECORD_TYPE_A), 3600).is_none());
    store_upstream_answer(&mut cache, key("f.test.", RECORD_TYPE_A), 3600, Some(vec![v4(3, 3, 3, 3)])).unwrap();
    assert_eq!(cache.len(), 1);
    let hit = cached_records(&cache, &key("f.test.", RECORD_TYPE_A), 3601).unwrap();
    assert_eq!(hit.len(), 1);
    assert_eq!(hit[0].data, RecordData::A(0x0303_0303));
}

#[test]
fn record_type_is_part_of_the_key() {
    let mut cache = CacheStore::new();
    store_upstream_answer(&mut cache, key("g.test.", RECORD_TYPE_A), 0, Some(vec![v4(4, 4, 4, 4)])).unwrap();
    assert!(cached_records(&cache, &key("g.test.", RECORD_TYPE_AAAA), 1).is_none());
    assert!(cached_records(&cache, &key("h.test.", RECORD_TYPE_A), 1).is_none());
    store_upstream_answer(&mut cache, key("g.test.", RECORD_TYPE_AAAA), 1, Some(vec![v4(4, 4, 4, 4)])).unwrap();
    assert_eq!(cache.len(), 2);
}

#[test]
fn empty_upstream_answer_is_cached_as_no_records() {
    let mut cache = CacheStore::new();
    let r = store_upstream_answer(&mut cache, key("i.test.", RECORD_TYPE_A), 0, Some(Vec::new())).unwrap();
    assert!(r.is_empty());
    let hit = cached_records(&cache, &key("i.test.", RECORD_TYPE_A), 10).unwrap();
    assert!(hit.is_empty());
}

#[test]
fn record_from_ipv6_address() {
    let r = ResourceRecord::from_address(&"v6.test.".to_string(), IpAddress::V6(1));
    assert_eq!(r.data, RecordData::Aaaa(1));
    assert_eq!(r.record_type(), RECORD_TYPE_AAAA);
    assert_eq!(r.ttl, 3600);
    assert_eq!(r.duplicate(), r);
}

#[test]
fn dual_stack_answer_keeps_upstream_order() {
    let name = "order.test.".to_string();
    let records = build_records(&name, &vec![IpAddress::V6(7), v4(127, 0, 0, 1)]);
    assert_eq!(records.len(), 2);
    assert_eq!(records[0].data, RecordData::Aaaa(7));
    assert_eq!(records[1].data, RecordData::A(0x7F00_0001));
    assert!(records.iter().all(|r| r.owner == name && r.ttl == 3600));
}
