//! A time-bounded store of metadata records.
//!
//! Records are keyed by their own canonical identity (`original_url`), never
//! by the raw user-supplied reference. An entry expires a fixed time-to-live
//! after its insertion, independent of access; expiry is lazy, an expired
//! entry is simply passed over on lookup. A new insert under an existing key
//! supersedes the earlier entry (the store keeps the superseded one around,
//! but no lookup can reach it).

use vstd::prelude::*;

use crate::json::{str_eq, JsonVal};
use crate::resolve::record_key;
use crate::ProxyError;

verus! {

/// One cached record and the time it was inserted.
pub struct CacheEntry {
    pub key: String,
    pub record: JsonVal,
    pub inserted_at: u64,
}

/// The entry that decides lookups for `key`: the latest one inserted.
pub open spec fn entries_lookup_last(s: Seq<CacheEntry>, key: Seq<char>) -> Option<CacheEntry>
    decreases s.len(),
{
    if s.len() == 0 {
        None
    } else if s.last().key@ == key {
        Some(s.last())
    } else {
        entries_lookup_last(s.drop_last(), key)
    }
}

/// The last record in `records` whose own key is `k`, if any: the one a
/// batch insertion leaves in the store under `k`.
pub open spec fn populate_key(records: Seq<JsonVal>, k: Seq<char>) -> Option<JsonVal>
    decreases records.len(),
{
    if records.len() == 0 {
        None
    } else if record_key(records.last()) == Some(k) {
        Some(records.last())
    } else {
        populate_key(records.drop_last(), k)
    }
}

/// How many leading records carry a key of their own: population stops at the
/// first record without one.
pub open spec fn good_prefix(records: Seq<JsonVal>) -> int
    decreases records.len(),
{
    if records.len() == 0 {
        0
    } else if record_key(records[0]) is None {
        0
    } else {
        1 + good_prefix(records.drop_first())
    }
}

/// If the first `j` records have keys and the one at `j` (if any) has none,
/// the good prefix is exactly `j`.
proof fn lemma_good_prefix_at(records: Seq<JsonVal>, j: int)
    requires
        0 <= j <= records.len(),
        forall|i: int| 0 <= i < j ==> record_key(records[i]) is Some,
        j < records.len() ==> record_key(records[j]) is None,
    ensures
        good_prefix(records) == j,
    decreases j,
{
    if j == 0 {
    } else {
        lemma_good_prefix_at(records.drop_first(), j - 1);
    }
}

/// A TTL-bounded store mapping canonical reference to metadata record,
/// populated lazily out of extractor batches.
pub struct MetadataCache {
    entries: Vec<CacheEntry>,
    ttl: u64,
}

impl MetadataCache {
    /// The fixed time-to-live of every entry.
    pub closed spec fn spec_ttl(self) -> u64 {
        self.ttl
    }

    /// The record stored under `key` and its insertion time, expired or not.
    pub closed spec fn lookup(self, key: Seq<char>) -> Option<(JsonVal, u64)> {
        match entries_lookup_last(self.entries@, key) {
            Some(e) => Some((e.record, e.inserted_at)),
            None => None,
        }
    }

    /// Whether `key` holds a live (unexpired) record at time `now`.
    pub open spec fn live(self, key: Seq<char>, now: u64) -> bool {
        match self.lookup(key) {
            Some(p) => p.1 <= now && now - p.1 < self.spec_ttl(),
            None => false,
        }
    }

    /// An empty store whose entries will live for `ttl` time units.
    pub fn new(ttl: u64) -> (c: Self)
        ensures
            c.spec_ttl() == ttl,
            forall|k: Seq<char>| c.lookup(k) is None,
    {
        let c = MetadataCache { entries: Vec::new(), ttl };
        proof {
            assert(forall|k: Seq<char>| c.lookup(k) is None);
        }
        c
    }

    /// The live record under `key` at time `now`, if there is one.
    pub fn get<'a>(&'a self, key: &String, now: u64) -> (r: Option<&'a JsonVal>)
        ensures
            match r {
                Some(v) => self.live(key@, now) && (self.lookup(key@) matches Some(p) && p.0
                    == *v),
                None => !self.live(key@, now),
            },
    {
        let n = self.entries.len();
        proof {
            assert(self.entries@.take(n as int) =~= self.entries@);
        }
        let mut i: usize = n;
        while i > 0
            invariant
                i <= n,
                n == self.entries@.len(),
                entries_lookup_last(self.entries@, key@) == entries_lookup_last(
                    self.entries@.take(i as int),
                    key@,
                ),
            decreases i,
        {
            i -= 1;
            proof {
                assert(self.entries@.take(i + 1).drop_last() =~= self.entries@.take(i as int));
                assert(self.entries@.take(i + 1).last() == self.entries@[i as int]);
            }
            let e = &self.entries[i];
            if str_eq(e.key.as_str(), key.as_str()) {
                if e.inserted_at <= now && now - e.inserted_at < self.ttl {
                    return Some(&e.record);
                } else {
                    return None;
                }
            }
        }
        proof {
            assert(self.entries@.take(0) =~= Seq::<CacheEntry>::empty());
        }
        None
    }

    /// Stores `record` under `key` as of time `now`, superseding whatever the
    /// key held before. Lookups under every other key are untouched.
    pub fn insert(&mut self, key: String, record: JsonVal, now: u64)
        ensures
            final(self).spec_ttl() == old(self).spec_ttl(),
            final(self).lookup(key@) == Some((record, now)),
            forall|k: Seq<char>| k != key@ ==> final(self).lookup(k) == old(self).lookup(k),
    {
        let ghost pre = self.entries@;
        self.entries.push(CacheEntry { key, record, inserted_at: now });
        proof {
            assert(self.entries@.drop_last() =~= pre);
            assert(self.entries@.last().key@ == key@);
        }
    }

    /// Absorbs one extractor batch, then answers for `reference`.
    ///
    /// Every record is inserted under its own key, in order, later records
    /// superseding earlier ones; a record without a usable `original_url`
    /// stops the batch with `FieldMissing`, leaving the records before it
    /// inserted. When the whole batch is in, the reference must be live —
    /// the extractor is expected to have reported it as some record's
    /// identity — and a reference still unknown is `NoMatchingRecord`.
    #[verifier::loop_isolation(false)]
    pub fn populate(
        &mut self,
        reference: &String,
        records: Vec<JsonVal>,
        now: u64,
    ) -> (r: Result<(), ProxyError>)
        ensures
            final(self).spec_ttl() == old(self).spec_ttl(),
            forall|k: Seq<char>|
                final(self).lookup(k) == (match populate_key(
                    records@.take(good_prefix(records@)),
                    k,
                ) {
                    Some(rec) => Some((rec, now)),
                    None => old(self).lookup(k),
                }),
            r is Ok <==> good_prefix(records@) == records@.len() && final(self).live(
                reference@,
                now,
            ),
            r matches Err(e) ==> (if good_prefix(records@) < records@.len() {
                e matches ProxyError::FieldMissing(f) && f@ == "original_url"@
            } else {
                e == ProxyError::NoMatchingRecord
            }),
    {
        let ghost all = records@;
        let mut records = records;
        let total = records.len();
        let mut j: usize = 0;
        while j < total
            invariant
                j <= total,
                total == all.len(),
                records@ == all.skip(j as int),
                self.spec_ttl() == old(self).spec_ttl(),
                forall|i: int| 0 <= i < j ==> record_key(all[i]) is Some,
                forall|k: Seq<char>|
                    self.lookup(k) == (match populate_key(all.take(j as int), k) {
                        Some(rec) => Some((rec, now)),
                        None => old(self).lookup(k),
                    }),
            decreases total - j,
        {
            let rec = records.remove(0);
            proof {
                assert(rec == all[j as int]);
                assert(all.skip(j as int).remove(0) =~= all.skip(j + 1));
            }
            match crate::resolve::key_from_info(&rec) {
                Ok(key) => {
                    let ghost mid = *self;
                    self.insert(key, rec, now);
                    proof {
                        assert(all.take(j + 1).drop_last() =~= all.take(j as int));
                        assert(all.take(j + 1).last() == all[j as int]);
                        assert forall|k: Seq<char>|
                            self.lookup(k) == (match populate_key(all.take(j + 1), k) {
                                Some(r2) => Some((r2, now)),
                                None => old(self).lookup(k),
                            }) by {
                            if k == key@ {
                                assert(record_key(all[j as int]) == Some(k));
                            } else {
                                assert(self.lookup(k) == mid.lookup(k));
                            }
                        }
                    }
                },
                Err(e) => {
                    proof {
                        lemma_good_prefix_at(all, j as int);
                    }
                    return Err(e);
                },
            }
            j += 1;
        }
        proof {
            lemma_good_prefix_at(all, total as int);
            assert(all.take(total as int) =~= all);
        }
        match self.get(reference, now) {
            Some(_) => Ok(()),
            None => Err(ProxyError::NoMatchingRecord),
        }
    }
}

/// A record that carries a key is found under that key: some record of the
/// batch decides the lookup for it.
proof fn lemma_populate_key_present(records: Seq<JsonVal>, i: int)
    requires
        0 <= i < records.len(),
        record_key(records[i]) is Some,
    ensures
        populate_key(records, record_key(records[i])->0) is Some,
    decreases records.len(),
{
    if i < records.len() - 1 && record_key(records.last()) != Some(record_key(records[i])->0) {
        lemma_populate_key_present(records.drop_last(), i);
        assert(records.drop_last()[i] == records[i]);
    }
}

/// Law: one absorbed batch serves every sibling item it carried — right
/// after a population at time `now`, each record that names a key is a live
/// hit under that key (the time-to-live permitting), with no further
/// extraction needed.
pub proof fn lemma_population_serves_siblings(
    c: MetadataCache,
    records: Seq<JsonVal>,
    i: int,
    now: u64,
)
    requires
        0 < c.spec_ttl(),
        0 <= i < records.len(),
        record_key(records[i]) is Some,
        forall|k: Seq<char>|
            #[trigger] populate_key(records, k) matches Some(rec) ==> c.lookup(k) == Some(
                (rec, now),
            ),
    ensures
        c.live(record_key(records[i])->0, now),
{
    lemma_populate_key_present(records, i);
}

/// Law: an entry inserted at time `t` is a cache hit at any time from `t` to
/// strictly before `t + ttl`, and a miss from `t + ttl` on.
pub proof fn lemma_ttl_expiry(
    c: MetadataCache,
    key: Seq<char>,
    record: JsonVal,
    t: u64,
    hit_time: u64,
    miss_time: u64,
)
    requires
        c.lookup(key) == Some((record, t)),
        t <= hit_time,
        hit_time - t < c.spec_ttl(),
        t + c.spec_ttl() <= miss_time,
    ensures
        c.live(key, hit_time),
        !c.live(key, miss_time),
{
}

} // verus!
