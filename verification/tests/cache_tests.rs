use media_proxy_core::cache::MetadataCache;
use media_proxy_core::json::JsonVal;
use media_proxy_core::resolve::stream_url_from_info;
use media_proxy_core::ProxyError;

const TTL: u64 = 600;

fn s(text: &str) -> String {
    text.to_string()
}

fn record(original_url: &str, stream: &str) -> JsonVal {
    JsonVal::Obj(vec![
        (s("original_url"), JsonVal::Str(s(original_url))),
        (s("url"), JsonVal::Str(s(stream))),
    ])
}

#[test]
fn fresh_cache_misses() {
    let cache = MetadataCache::new(TTL);
    assert!(cache.get(&s("anything"), 0).is_none());
}

#[test]
fn one_batch_populates_every_record() {
    let mut cache = MetadataCache::new(TTL);
    let records = vec![record("A", "stream-a"), record("B", "stream-b"), record("C", "stream-c")];
    let reference = s("A");
    assert!(cache.populate(&reference, records, 1000).is_ok());

    // Every sibling of the batch is now a hit, with no further extraction.
    let a = cache.get(&s("A"), 1001).expect("A to be cached");
    assert_eq!(stream_url_from_info(a).unwrap(), "stream-a");
    let b = cache.get(&s("B"), 1001).expect("B to be cached");
    assert_eq!(stream_url_from_info(b).unwrap(), "stream-b");
    let c = cache.get(&s("C"), 1001).expect("C to be cached");
    assert_eq!(stream_url_from_info(c).unwrap(), "stream-c");
}

#[test]
fn batch_not_naming_the_reference_is_no_matching_record() {
    let mut cache = MetadataCache::new(TTL);
    let records = vec![record("B", "stream-b"), record("C", "stream-c")];
    let reference = s("A");
    assert!(matches!(
        cache.populate(&reference, records, 1000),
        Err(ProxyError::NoMatchingRecord)
    ));
    // The batch was still absorbed under its own keys.
    assert!(cache.get(&s("B"), 1001).is_some());
}

#[test]
fn record_without_identity_stops_the_batch() {
    let mut cache = MetadataCache::new(TTL);
    let keyless = JsonVal::Obj(vec![(s("url"), JsonVal::Str(s("stream-x")))]);
    let records = vec![record("A", "stream-a"), keyless, record("B", "stream-b")];
    let reference = s("A");
    match cache.populate(&reference, records, 1000) {
        Err(ProxyError::FieldMissing(f)) => assert_eq!(f, "original_url"),
        other => panic!("unexpected result: {other:?}"),
    }
    // The records before the bad one are in; the ones after are not.
    assert!(cache.get(&s("A"), 1001).is_some());
    assert!(cache.get(&s("B"), 1001).is_none());
}

#[test]
fn entries_expire_after_the_ttl() {
    let mut cache = MetadataCache::new(TTL);
    cache.insert(s("A"), record("A", "stream-a"), 1000);
    // A hit just before the TTL runs out...
    assert!(cache.get(&s("A"), 1000 + TTL - 1).is_some());
    // ...and a miss from the TTL on.
    assert!(cache.get(&s("A"), 1000 + TTL).is_none());
    assert!(cache.get(&s("A"), 1000 + TTL + 1).is_none());
}

#[test]
fn entries_are_not_live_before_their_insertion_time() {
    let mut cache = MetadataCache::new(TTL);
    cache.insert(s("A"), record("A", "stream-a"), 1000);
    assert!(cache.get(&s("A"), 999).is_none());
    assert!(cache.get(&s("A"), 1000).is_some());
}

#[test]
fn a_later_insert_overwrites_the_key() {
    let mut cache = MetadataCache::new(TTL);
    cache.insert(s("A"), record("A", "old-stream"), 1000);
    cache.insert(s("A"), record("A", "new-stream"), 1010);
    let a = cache.get(&s("A"), 1011).expect("A to be cached");
    assert_eq!(stream_url_from_info(a).unwrap(), "new-stream");
    // The fresh insert also renews the clock.
    assert!(cache.get(&s("A"), 1000 + TTL).is_some());
    assert!(cache.get(&s("A"), 1010 + TTL).is_none());
}

#[test]
fn within_one_batch_the_later_record_wins() {
    let mut cache = MetadataCache::new(TTL);
    let records = vec![record("A", "first"), record("A", "second")];
    let reference = s("A");
    assert!(cache.populate(&reference, records, 1000).is_ok());
    let a = cache.get(&s("A"), 1001).expect("A to be cached");
    assert_eq!(stream_url_from_info(a).unwrap(), "second");
}

#[test]
fn an_expired_entry_is_refreshed_by_a_new_batch() {
    let mut cache = MetadataCache::new(TTL);
    let reference = s("A");
    assert!(cache.populate(&reference, vec![record("A", "stream-a")], 1000).is_ok());
    let later = 1000 + TTL + 5;
    assert!(cache.get(&reference, later).is_none());
    assert!(cache.populate(&reference, vec![record("A", "stream-a2")], later).is_ok());
    let a = cache.get(&reference, later + 1).expect("A to be cached again");
    assert_eq!(stream_url_from_info(a).unwrap(), "stream-a2");
}

#[test]
fn empty_batch_is_no_matching_record() {
    let mut cache = MetadataCache::new(TTL);
    let reference = s("A");
    assert!(matches!(
        cache.populate(&reference, vec![], 1000),
        Err(ProxyError::NoMatchingRecord)
    ));
}
