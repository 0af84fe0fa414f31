use vstd::prelude::*;
use crate::cache::{CacheEntry, CacheKey, CacheStore, EntryView};
use crate::record::{
    IpAddress, RecordData, RecordView, ResourceRecord, build_records, copy_records, record_for,
    records_for, records_view, RECORD_TTL,
};

verus! {

/// Why a lookup produced no records. The server answers it with a server
/// failure response code. A failure is not cached: the store keeps whatever it
/// held for the key.
#[derive(Clone, Copy, Debug, PartialEq, Eq, Structural)]
pub enum LookupError {
    UpstreamFailed,
}

/// An entry serves queries strictly before its `valid_until` instant.
pub open spec fn is_fresh_at(entry: EntryView, now: int) -> bool {
    now < entry.valid_until
}

/// The records that the store answers for `key` at `now`, if it holds a fresh
/// entry for it.
pub open spec fn cached_answer(
    store: Map<(Seq<char>, u16), EntryView>,
    key: (Seq<char>, u16),
    now: int,
) -> Option<Seq<RecordView>> {
    if store.contains_key(key) && is_fresh_at(store[key], now) {
        Some(store[key].records)
    } else {
        None
    }
}

/// Whether a lookup of `key` at `now` has to ask the upstream resolver.
pub open spec fn needs_upstream(
    store: Map<(Seq<char>, u16), EntryView>,
    key: (Seq<char>, u16),
    now: int,
) -> bool {
    cached_answer(store, key, now) is None
}

/// The entry stored for `name` after the upstream resolver answered `addrs`
/// at `now`.
pub open spec fn entry_for(name: Seq<char>, now: int, addrs: Seq<IpAddress>) -> EntryView {
    EntryView { valid_until: now + RECORD_TTL, records: records_for(name, addrs) }
}

/// The store after the upstream answer `addrs` for `key` was stored at `now`.
pub open spec fn commit(
    store: Map<(Seq<char>, u16), EntryView>,
    key: (Seq<char>, u16),
    now: int,
    addrs: Seq<IpAddress>,
) -> Map<(Seq<char>, u16), EntryView> {
    store.insert(key, entry_for(key.0, now, addrs))
}

/// One whole lookup of `key` at `now` against `store`, where `upstream` is what
/// the upstream resolver answers if it is asked: the store afterwards and the
/// records returned.
pub open spec fn lookup_outcome(
    store: Map<(Seq<char>, u16), EntryView>,
    key: (Seq<char>, u16),
    now: int,
    upstream: Seq<IpAddress>,
) -> (Map<(Seq<char>, u16), EntryView>, Seq<RecordView>) {
    match cached_answer(store, key, now) {
        Some(records) => (store, records),
        None => (commit(store, key, now, upstream), records_for(key.0, upstream)),
    }
}

/// Lookups of `key` run one after another at `times`, the i-th one getting
/// `answers[i]` if it asks upstream: the store afterwards and how many asked.
pub open spec fn run_lookups(
    store: Map<(Seq<char>, u16), EntryView>,
    key: (Seq<char>, u16),
    times: Seq<int>,
    answers: Seq<Seq<IpAddress>>,
) -> (Map<(Seq<char>, u16), EntryView>, nat)
    decreases times.len(),
{
    if times.len() == 0 {
        (store, 0)
    } else {
        let asked: nat = if needs_upstream(store, key, times[0]) { 1 } else { 0 };
        let after = lookup_outcome(store, key, times[0], answers[0]).0;
        let rest = run_lookups(after, key, times.drop_first(), answers.drop_first());
        (rest.0, asked + rest.1)
    }
}

/// Whether `entry` is still fresh at `now` (seconds).
pub fn is_fresh(entry: &CacheEntry, now: u64) -> (r: bool)
    ensures
        r == is_fresh_at(entry@, now as int),
{
    now < entry.valid_until
}

/// First step of a lookup: the cached records for `key` if the store holds a
/// fresh entry for it at `now`, else `None`, in which case the caller asks the
/// upstream resolver and hands its result to `store_upstream_answer`.
pub fn cached_records(cache: &CacheStore, key: &CacheKey, now: u64) -> (r: Option<
    Vec<ResourceRecord>,
>)
    requires
        cache.wf(),
    ensures
        match r {
            Some(records) => cached_answer(cache@, key@, now as int) == Some(records_view(records@)),
            None => cached_answer(cache@, key@, now as int) is None,
        },
{
    match cache.get(key) {
        Some(entry) => {
            if is_fresh(entry, now) {
                Some(copy_records(&entry.records))
            } else {
                None
            }
        },
        None => None,
    }
}

/// Second step of a lookup that missed the cache. With the addresses that the
/// upstream resolver returned for the name, builds one record per address,
/// stores them under `key` until `now + RECORD_TTL`, replacing any earlier
/// entry, and returns them. With `None`, the resolver failed: the store is
/// left as it was and the lookup fails.
pub fn store_upstream_answer(
    cache: &mut CacheStore,
    key: CacheKey,
    now: u64,
    upstream: Option<Vec<IpAddress>>,
) -> (r: Result<Vec<ResourceRecord>, LookupError>)
    requires
        old(cache).wf(),
        now + RECORD_TTL <= u64::MAX,
    ensures
        final(cache).wf(),
        match (upstream, r) {
            (Some(addrs), Ok(records)) => {
                &&& records_view(records@) == records_for(key@.0, addrs@)
                &&& final(cache)@ == commit(old(cache)@, key@, now as int, addrs@)
            },
            (None, Err(e)) => {
                &&& e == LookupError::UpstreamFailed
                &&& final(cache)@ == old(cache)@
            },
            _ => false,
        },
{
    match upstream {
        Some(addrs) => {
            let records = build_records(&key.name, &addrs);
            let stored = copy_records(&records);
            let entry = CacheEntry { valid_until: now + RECORD_TTL as u64, records: stored };
            cache.put(key, entry);
            Ok(records)
        },
        None => Err(LookupError::UpstreamFailed),
    }
}

/// Once an upstream answer for `key` is stored at `now`, a lookup at `t`
/// returns exactly the stored records while `t < now + RECORD_TTL`, and from
/// that instant on asks the upstream resolver again.
pub proof fn lemma_served_until_expiry(
    store: Map<(Seq<char>, u16), EntryView>,
    key: (Seq<char>, u16),
    now: int,
    addrs: Seq<IpAddress>,
    t: int,
)
    ensures
        t < now + RECORD_TTL ==> cached_answer(commit(store, key, now, addrs), key, t) == Some(
            records_for(key.0, addrs),
        ),
        now + RECORD_TTL <= t ==> needs_upstream(commit(store, key, now, addrs), key, t),
{
}

/// An entry whose `valid_until` is exactly now is stale: it is not served.
pub proof fn lemma_stale_at_valid_until(
    store: Map<(Seq<char>, u16), EntryView>,
    key: (Seq<char>, u16),
)
    requires
        store.contains_key(key),
    ensures
        needs_upstream(store, key, store[key].valid_until),
{
}

/// Two consecutive lookups of a key, the first of which asks upstream, the
/// second made within the time to live of the first: the second returns the
/// same records, leaves the store as the first left it, and does not ask
/// upstream, so one upstream resolution is made in all.
pub proof fn lemma_repeat_lookup_is_cached(
    store: Map<(Seq<char>, u16), EntryView>,
    key: (Seq<char>, u16),
    t1: int,
    first: Seq<IpAddress>,
    t2: int,
    second: Seq<IpAddress>,
)
    requires
        needs_upstream(store, key, t1),
        t1 <= t2 < t1 + RECORD_TTL,
    ensures
        ({
            let (s1, r1) = lookup_outcome(store, key, t1, first);
            let (s2, r2) = lookup_outcome(s1, key, t2, second);
            &&& !needs_upstream(s1, key, t2)
            &&& r2 == r1
            &&& s2 == s1
        }),
{
}

/// An upstream answer of one IPv4 and one IPv6 address, in either order, gives
/// exactly one A record and one AAAA record, both owned by the queried name and
/// with the fixed time to live.
pub proof fn lemma_dual_stack_records(
    name: Seq<char>,
    v4: u32,
    v6: u128,
    addrs: Seq<IpAddress>,
)
    requires
        addrs == seq![IpAddress::V4(v4), IpAddress::V6(v6)] || addrs == seq![
            IpAddress::V6(v6),
            IpAddress::V4(v4),
        ],
    ensures
        ({
            let rs = records_for(name, addrs);
            let a = RecordView { owner: name, ttl: RECORD_TTL, data: RecordData::A(v4) };
            let aaaa = RecordView { owner: name, ttl: RECORD_TTL, data: RecordData::Aaaa(v6) };
            &&& rs.len() == 2
            &&& rs == seq![a, aaaa] || rs == seq![aaaa, a]
            &&& forall|i: int| 0 <= i < rs.len() ==> (#[trigger] rs[i]).owner == name && rs[i].ttl == 3600
        }),
{
    let rs = records_for(name, addrs);
    let a = RecordView { owner: name, ttl: RECORD_TTL, data: RecordData::A(v4) };
    let aaaa = RecordView { owner: name, ttl: RECORD_TTL, data: RecordData::Aaaa(v6) };
    if addrs == seq![IpAddress::V4(v4), IpAddress::V6(v6)] {
        assert(rs =~= seq![a, aaaa]);
    } else {
        assert(rs =~= seq![aaaa, a]);
    }
}

/// Lookups of one key that all arrive while the store has no fresh entry for
/// it, and are served one at a time within the time to live of the first:
/// only the first asks upstream, and the store ends with the one entry that
/// the first stored.
pub proof fn lemma_serialized_lookups_ask_once(
    store: Map<(Seq<char>, u16), EntryView>,
    key: (Seq<char>, u16),
    times: Seq<int>,
    answers: Seq<Seq<IpAddress>>,
)
    requires
        times.len() >= 1,
        answers.len() == times.len(),
        needs_upstream(store, key, times[0]),
        forall|i: int| 0 <= i < times.len() ==> times[0] <= #[trigger] times[i] < times[0] + RECORD_TTL,
    ensures
        run_lookups(store, key, times, answers) == (commit(store, key, times[0], answers[0]), 1nat),
{
    let first = commit(store, key, times[0], answers[0]);
    lemma_fresh_entry_stays(first, key, times.drop_first(), answers.drop_first());
}

proof fn lemma_fresh_entry_stays(
    store: Map<(Seq<char>, u16), EntryView>,
    key: (Seq<char>, u16),
    times: Seq<int>,
    answers: Seq<Seq<IpAddress>>,
)
    requires
        forall|i: int| 0 <= i < times.len() ==> !needs_upstream(store, key, #[trigger] times[i]),
    ensures
        run_lookups(store, key, times, answers) == (store, 0nat),
    decreases times.len(),
{
    if times.len() > 0 {
        let rest = times.drop_first();
        assert forall|i: int| 0 <= i < rest.len() implies !needs_upstream(store, key, #[trigger] rest[i]) by {
            assert(rest[i] == times[i + 1]);
        }
        lemma_fresh_entry_stays(store, key, rest, answers.drop_first());
    }
}

} // verus!
