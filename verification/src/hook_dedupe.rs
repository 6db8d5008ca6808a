//! The short-lived cache that lets a repeated hook event reuse the decision made for it.
//!
//! Entries are keyed by the digest of the event; an entry lives for 30 seconds, a key has
//! at most one entry, and the newest 256 entries are kept. Reading and writing the state
//! file, and the clock, belong to the caller; the state's transitions are here.

use vstd::prelude::*;

use crate::error::JevxError;
use crate::types::CandidateDecision;

verus! {

pub const DEDUPE_FILE_NAME: &'static str = "hook-dedupe.json";

pub const DEDUPE_SCHEMA_VERSION: u8 = 1;

pub const DEDUPE_TTL_MS: u64 = 30_000;

pub const DEDUPE_CAPACITY: usize = 256;

/// A decision remembered for a hook event.
#[derive(Debug, PartialEq, Eq)]
pub struct CachedHookDecision {
    pub key_sha256: String,
    pub created_at_ms: u64,
    pub decision: CandidateDecision,
    pub selected_skill: Option<String>,
    pub discovery_ms: Option<u64>,
    pub jev_response_ms: Option<u64>,
    pub total_ms: Option<u64>,
    pub input_tokens: Option<u64>,
    pub output_tokens: Option<u64>,
}

impl CachedHookDecision {
    /// A copy of the entry.
    pub fn duplicate(&self) -> (res: CachedHookDecision)
        ensures
            res == *self,
    {
        CachedHookDecision {
            key_sha256: self.key_sha256.clone(),
            created_at_ms: self.created_at_ms,
            decision: self.decision,
            selected_skill: match &self.selected_skill {
                Some(s) => Some(s.clone()),
                None => None,
            },
            discovery_ms: self.discovery_ms,
            jev_response_ms: self.jev_response_ms,
            total_ms: self.total_ms,
            input_tokens: self.input_tokens,
            output_tokens: self.output_tokens,
        }
    }
}

/// The stored state: its schema version and its entries, oldest first.
#[derive(Debug)]
pub struct DedupeState {
    pub schema_version: u8,
    pub entries: Vec<CachedHookDecision>,
}

/// An entry is still fresh when at most the time to live has passed since it was made (a
/// clock that went backwards counts as no time passed).
pub open spec fn is_fresh(e: CachedHookDecision, now: u64) -> bool {
    (if now >= e.created_at_ms { now - e.created_at_ms } else { 0 }) <= DEDUPE_TTL_MS
}

/// The fresh entries, in order.
pub open spec fn keep_fresh(es: Seq<CachedHookDecision>, now: u64) -> Seq<CachedHookDecision>
    decreases es.len(),
{
    if es.len() == 0 {
        seq![]
    } else {
        let rest = keep_fresh(es.drop_last(), now);
        if is_fresh(es.last(), now) {
            rest.push(es.last())
        } else {
            rest
        }
    }
}

/// The entries whose key is not `key`, in order.
pub open spec fn without_key(es: Seq<CachedHookDecision>, key: Seq<char>) -> Seq<CachedHookDecision>
    decreases es.len(),
{
    if es.len() == 0 {
        seq![]
    } else {
        let rest = without_key(es.drop_last(), key);
        if es.last().key_sha256@ != key {
            rest.push(es.last())
        } else {
            rest
        }
    }
}

/// The first entry with the key.
pub open spec fn first_with_key(es: Seq<CachedHookDecision>, key: Seq<char>) -> Option<CachedHookDecision>
    decreases es.len(),
{
    if es.len() == 0 {
        None
    } else if es[0].key_sha256@ == key {
        Some(es[0])
    } else {
        first_with_key(es.drop_first(), key)
    }
}

/// The newest `DEDUPE_CAPACITY` entries.
pub open spec fn capped(es: Seq<CachedHookDecision>) -> Seq<CachedHookDecision> {
    if es.len() > DEDUPE_CAPACITY {
        es.skip(es.len() - DEDUPE_CAPACITY)
    } else {
        es
    }
}

/// The entry as stored at time `now`.
pub open spec fn stamped(e: CachedHookDecision, now: u64) -> CachedHookDecision {
    CachedHookDecision { created_at_ms: now, ..e }
}

/// The entries after storing `e` at time `now`: expired entries and any entry with the same
/// key are dropped, `e` is appended with its time set to `now`, and the oldest entries
/// beyond the capacity are dropped.
pub open spec fn spec_insert(es: Seq<CachedHookDecision>, e: CachedHookDecision, now: u64) -> Seq<CachedHookDecision> {
    capped(without_key(keep_fresh(es, now), e.key_sha256@).push(stamped(e, now)))
}

/// What a lookup at time `now` finds: the first fresh entry with the key.
pub open spec fn spec_lookup(es: Seq<CachedHookDecision>, key: Seq<char>, now: u64) -> Option<CachedHookDecision> {
    first_with_key(keep_fresh(es, now), key)
}

/// The state must be of the schema this version writes.
pub fn check_schema(state: &DedupeState) -> (res: Result<(), JevxError>)
    ensures
        res is Ok <==> state.schema_version == DEDUPE_SCHEMA_VERSION,
        res matches Err(e) ==> e matches JevxError::InvalidInput(m) && m@ == "unsupported hook dedupe state schema"@,
{
    if state.schema_version != DEDUPE_SCHEMA_VERSION {
        Err(JevxError::invalid_input("unsupported hook dedupe state schema"))
    } else {
        Ok(())
    }
}

/// An empty state file (only ASCII whitespace) stands for an empty state.
pub fn is_blank_state(bytes: &[u8]) -> (res: bool)
    ensures
        res == forall|i: int| 0 <= i < bytes@.len() ==> {
            let b = #[trigger] bytes@[i];
            b == 0x20 || b == 0x09 || b == 0x0a || b == 0x0c || b == 0x0d
        },
{
    let mut i: usize = 0;
    while i < bytes.len()
        invariant
            i <= bytes.len(),
            forall|k: int| 0 <= k < i ==> {
                let b = #[trigger] bytes@[k];
                b == 0x20 || b == 0x09 || b == 0x0a || b == 0x0c || b == 0x0d
            },
        decreases bytes.len() - i,
    {
        let b = bytes[i];
        if !(b == 0x20 || b == 0x09 || b == 0x0a || b == 0x0c || b == 0x0d) {
            return false;
        }
        i = i + 1;
    }
    true
}

fn fresh(e: &CachedHookDecision, now: u64) -> (res: bool)
    ensures
        res == is_fresh(*e, now),
{
    let age = if now >= e.created_at_ms { now - e.created_at_ms } else { 0 };
    age <= DEDUPE_TTL_MS
}

/// Drops expired entries; reports whether any was dropped.
pub fn prune_expired(entries: &mut Vec<CachedHookDecision>, now: u64) -> (changed: bool)
    ensures
        final(entries)@ == keep_fresh(old(entries)@, now),
        changed == (final(entries)@.len() != old(entries)@.len()),
{
    let mut kept: Vec<CachedHookDecision> = Vec::new();
    let mut i: usize = 0;
    let ghost orig = entries@;
    while i < entries.len()
        invariant
            entries@ == orig,
            i <= entries.len(),
            kept@ == keep_fresh(orig.take(i as int), now),
            kept@.len() <= i,
        decreases entries.len() - i,
    {
        proof {
            assert(orig.take(i + 1).drop_last() =~= orig.take(i as int));
        }
        if fresh(&entries[i], now) {
            kept.push(entries[i].duplicate());
        }
        i = i + 1;
    }
    proof {
        assert(orig.take(i as int) =~= orig);
    }
    let changed = kept.len() != entries.len();
    *entries = kept;
    changed
}

fn remove_key(entries: &mut Vec<CachedHookDecision>, key: &String)
    ensures
        final(entries)@ == without_key(old(entries)@, key@),
{
    let mut kept: Vec<CachedHookDecision> = Vec::new();
    let mut i: usize = 0;
    let ghost orig = entries@;
    while i < entries.len()
        invariant
            entries@ == orig,
            i <= entries.len(),
            kept@ == without_key(orig.take(i as int), key@),
        decreases entries.len() - i,
    {
        proof {
            assert(orig.take(i + 1).drop_last() =~= orig.take(i as int));
        }
        if !(entries[i].key_sha256 == *key) {
            kept.push(entries[i].duplicate());
        }
        i = i + 1;
    }
    proof {
        assert(orig.take(i as int) =~= orig);
    }
    *entries = kept;
}

impl DedupeState {
    pub fn empty() -> (res: DedupeState)
        ensures
            res.schema_version == DEDUPE_SCHEMA_VERSION,
            res.entries@.len() == 0,
    {
        DedupeState { schema_version: DEDUPE_SCHEMA_VERSION, entries: Vec::new() }
    }

    /// Looks a key up at time `now`, dropping expired entries. Reports the entry found and
    /// whether the state changed (and so must be written back).
    pub fn lookup(&mut self, key: &str, now: u64) -> (res: (Option<CachedHookDecision>, bool))
        ensures
            final(self).schema_version == old(self).schema_version,
            final(self).entries@ == keep_fresh(old(self).entries@, now),
            res.0 == spec_lookup(old(self).entries@, key@, now),
            res.1 == (keep_fresh(old(self).entries@, now).len() != old(self).entries@.len()),
    {
        let changed = prune_expired(&mut self.entries, now);
        let kc = crate::text::chars_of(key);
        let mut i: usize = 0;
        let ghost es = self.entries@;
        proof {
            assert(es.skip(0) =~= es);
        }
        while i < self.entries.len()
            invariant
                self.entries@ == es,
                es == keep_fresh(old(self).entries@, now),
                self.schema_version == old(self).schema_version,
                changed == (keep_fresh(old(self).entries@, now).len() != old(self).entries@.len()),
                i <= es.len(),
                kc@ == key@,
                first_with_key(es, key@) == first_with_key(es.skip(i as int), key@),
            decreases self.entries.len() - i,
        {
            proof {
                assert(es.skip(i as int)[0] == es[i as int]);
                assert(es.skip(i as int).drop_first() =~= es.skip(i + 1));
            }
            let ec = crate::text::chars_of(self.entries[i].key_sha256.as_str());
            if crate::text::chars_eq(&ec, &kc) {
                let hit = self.entries[i].duplicate();
                return (Some(hit), changed);
            }
            i = i + 1;
        }
        (None, changed)
    }

    /// Stores an entry at time `now`.
    pub fn insert(&mut self, entry: CachedHookDecision, now: u64)
        ensures
            final(self).schema_version == old(self).schema_version,
            final(self).entries@ == spec_insert(old(self).entries@, entry, now),
    {
        prune_expired(&mut self.entries, now);
        let mut entry = entry;
        entry.created_at_ms = now;
        remove_key(&mut self.entries, &entry.key_sha256);
        self.entries.push(entry);
        if self.entries.len() > DEDUPE_CAPACITY {
            let remove_count = self.entries.len() - DEDUPE_CAPACITY;
            let mut kept: Vec<CachedHookDecision> = Vec::new();
            let mut i: usize = remove_count;
            let ghost orig = self.entries@;
            while i < self.entries.len()
                invariant
                    self.entries@ == orig,
                    self.schema_version == old(self).schema_version,
                    orig == without_key(keep_fresh(old(self).entries@, now), entry.key_sha256@).push(stamped(entry, now)),
                    remove_count == orig.len() - DEDUPE_CAPACITY,
                    remove_count <= i <= orig.len(),
                    kept@ == orig.subrange(remove_count as int, i as int),
                decreases self.entries.len() - i,
            {
                kept.push(self.entries[i].duplicate());
                proof {
                    assert(kept@ =~= orig.subrange(remove_count as int, i + 1));
                }
                i = i + 1;
            }
            proof {
                assert(orig.subrange(remove_count as int, orig.len() as int) =~= orig.skip(remove_count as int));
            }
            self.entries = kept;
        }
    }
}


// ---------------------------------------------------------------------------------------
// Laws of the cache
// ---------------------------------------------------------------------------------------

proof fn lemma_keep_fresh_from(es: Seq<CachedHookDecision>, now: u64)
    ensures
        keep_fresh(es, now).len() <= es.len(),
        forall|i: int| 0 <= i < keep_fresh(es, now).len() ==> es.contains(#[trigger] keep_fresh(es, now)[i]),
    decreases es.len(),
{
    if es.len() > 0 {
        lemma_keep_fresh_from(es.drop_last(), now);
        let rest = keep_fresh(es.drop_last(), now);
        assert forall|i: int| 0 <= i < keep_fresh(es, now).len() implies es.contains(#[trigger] keep_fresh(es, now)[i]) by {
            if i < rest.len() {
                assert(keep_fresh(es, now)[i] == rest[i]);
                let j = choose|j: int| 0 <= j < es.drop_last().len() && es.drop_last()[j] == rest[i];
                assert(es[j] == rest[i]);
            } else {
                assert(keep_fresh(es, now)[i] == es.last());
                assert(es[es.len() - 1] == es.last());
            }
        }
    }
}

proof fn lemma_without_key_other(es: Seq<CachedHookDecision>, key: Seq<char>)
    ensures
        without_key(es, key).len() <= es.len(),
        forall|i: int| 0 <= i < without_key(es, key).len() ==> (#[trigger] without_key(es, key)[i]).key_sha256@ != key,
    decreases es.len(),
{
    if es.len() > 0 {
        lemma_without_key_other(es.drop_last(), key);
        let rest = without_key(es.drop_last(), key);
        assert forall|i: int| 0 <= i < without_key(es, key).len() implies (#[trigger] without_key(es, key)[i]).key_sha256@ != key by {
            if i < rest.len() {
                assert(without_key(es, key)[i] == rest[i]);
            }
        }
    }
}

proof fn lemma_keep_fresh_keys(es: Seq<CachedHookDecision>, now: u64, key: Seq<char>)
    requires
        forall|i: int| 0 <= i < es.len() ==> (#[trigger] es[i]).key_sha256@ != key,
    ensures
        forall|i: int| 0 <= i < keep_fresh(es, now).len() ==> (#[trigger] keep_fresh(es, now)[i]).key_sha256@ != key,
{
    lemma_keep_fresh_from(es, now);
    assert forall|i: int| 0 <= i < keep_fresh(es, now).len() implies (#[trigger] keep_fresh(es, now)[i]).key_sha256@ != key by {
        let x = keep_fresh(es, now)[i];
        assert(es.contains(x));
        let j = choose|j: int| 0 <= j < es.len() && es[j] == x;
        assert(es[j].key_sha256@ != key);
    }
}

proof fn lemma_first_is_last(es: Seq<CachedHookDecision>, key: Seq<char>)
    requires
        es.len() > 0,
        es.last().key_sha256@ == key,
        forall|i: int| 0 <= i < es.len() - 1 ==> (#[trigger] es[i]).key_sha256@ != key,
    ensures
        first_with_key(es, key) == Some(es.last()),
    decreases es.len(),
{
    if es.len() > 1 {
        assert(es[0].key_sha256@ != key);
        let t = es.drop_first();
        assert forall|i: int| 0 <= i < t.len() - 1 implies (#[trigger] t[i]).key_sha256@ != key by {
            assert(t[i] == es[i + 1]);
        }
        assert(t.last() == es.last());
        lemma_first_is_last(t, key);
    }
}

/// What the cache promises of a store followed by a look-up: an entry stored at time `now`
/// is found under its key, with its time set to `now`, by any look-up no later than the time
/// to live after it.
pub proof fn lemma_insert_then_lookup(es: Seq<CachedHookDecision>, e: CachedHookDecision, now: u64, later: u64)
    requires
        later <= now + DEDUPE_TTL_MS,
    ensures
        spec_lookup(spec_insert(es, e, now), e.key_sha256@, later) == Some(stamped(e, now)),
{
    let key = e.key_sha256@;
    let w = without_key(keep_fresh(es, now), key);
    let s = stamped(e, now);
    lemma_without_key_other(keep_fresh(es, now), key);
    let full = w.push(s);
    let c = capped(full);
    // the capped list is a tail of `w` followed by the new entry
    let x = if full.len() > DEDUPE_CAPACITY { w.skip(full.len() - DEDUPE_CAPACITY) } else { w };
    assert(c =~= x.push(s));
    assert forall|i: int| 0 <= i < x.len() implies (#[trigger] x[i]).key_sha256@ != key by {
        if full.len() > DEDUPE_CAPACITY {
            assert(x[i] == w[i + (full.len() - DEDUPE_CAPACITY)]);
        }
    }
    assert(is_fresh(s, later));
    assert(c.drop_last() =~= x);
    assert(keep_fresh(c, later) == keep_fresh(x, later).push(s));
    lemma_keep_fresh_keys(x, later, key);
    let k = keep_fresh(c, later);
    assert forall|i: int| 0 <= i < k.len() - 1 implies (#[trigger] k[i]).key_sha256@ != key by {
        assert(k[i] == keep_fresh(x, later)[i]);
    }
    lemma_first_is_last(k, key);
}

/// The cache never holds more than its capacity after a store.
pub proof fn lemma_insert_within_capacity(es: Seq<CachedHookDecision>, e: CachedHookDecision, now: u64)
    ensures
        spec_insert(es, e, now).len() <= DEDUPE_CAPACITY,
{
}

pub open spec fn keys_distinct(es: Seq<CachedHookDecision>) -> bool {
    forall|i: int, j: int| 0 <= i < j < es.len() ==> es[i].key_sha256@ != es[j].key_sha256@
}

proof fn lemma_keep_fresh_distinct(es: Seq<CachedHookDecision>, now: u64)
    requires
        keys_distinct(es),
    ensures
        keys_distinct(keep_fresh(es, now)),
    decreases es.len(),
{
    if es.len() > 0 {
        let d = es.drop_last();
        assert(keys_distinct(d)) by {
            assert forall|i: int, j: int| 0 <= i < j < d.len() implies d[i].key_sha256@ != d[j].key_sha256@ by {
                assert(d[i] == es[i] && d[j] == es[j]);
            }
        }
        lemma_keep_fresh_distinct(d, now);
        let rest = keep_fresh(d, now);
        if is_fresh(es.last(), now) {
            assert forall|i: int| 0 <= i < d.len() implies (#[trigger] d[i]).key_sha256@ != es.last().key_sha256@ by {
                assert(d[i] == es[i]);
            }
            lemma_keep_fresh_keys(d, now, es.last().key_sha256@);
            let r = rest.push(es.last());
            assert forall|i: int, j: int| 0 <= i < j < r.len() implies r[i].key_sha256@ != r[j].key_sha256@ by {
                if j == r.len() - 1 {
                    assert(r[i] == rest[i]);
                } else {
                    assert(r[i] == rest[i] && r[j] == rest[j]);
                }
            }
        }
    }
}

proof fn lemma_without_key_distinct(es: Seq<CachedHookDecision>, key: Seq<char>)
    requires
        keys_distinct(es),
    ensures
        keys_distinct(without_key(es, key)),
    decreases es.len(),
{
    if es.len() > 0 {
        let d = es.drop_last();
        assert(keys_distinct(d)) by {
            assert forall|i: int, j: int| 0 <= i < j < d.len() implies d[i].key_sha256@ != d[j].key_sha256@ by {
                assert(d[i] == es[i] && d[j] == es[j]);
            }
        }
        lemma_without_key_distinct(d, key);
        let rest = without_key(d, key);
        if es.last().key_sha256@ != key {
            lemma_without_key_subset(d, key);
            let r = rest.push(es.last());
            assert forall|i: int, j: int| 0 <= i < j < r.len() implies r[i].key_sha256@ != r[j].key_sha256@ by {
                if j == r.len() - 1 {
                    assert(r[i] == rest[i]);
                    assert(d.contains(rest[i]));
                    let m = choose|m: int| 0 <= m < d.len() && d[m] == rest[i];
                    assert(d[m] == es[m]);
                } else {
                    assert(r[i] == rest[i] && r[j] == rest[j]);
                }
            }
        }
    }
}

proof fn lemma_without_key_subset(es: Seq<CachedHookDecision>, key: Seq<char>)
    ensures
        forall|i: int| 0 <= i < without_key(es, key).len() ==> es.contains(#[trigger] without_key(es, key)[i]),
    decreases es.len(),
{
    if es.len() > 0 {
        lemma_without_key_subset(es.drop_last(), key);
        let rest = without_key(es.drop_last(), key);
        assert forall|i: int| 0 <= i < without_key(es, key).len() implies es.contains(#[trigger] without_key(es, key)[i]) by {
            if i < rest.len() {
                assert(without_key(es, key)[i] == rest[i]);
                let j = choose|j: int| 0 <= j < es.drop_last().len() && es.drop_last()[j] == rest[i];
                assert(es[j] == rest[i]);
            } else {
                assert(es[es.len() - 1] == es.last());
            }
        }
    }
}

/// Storing keeps each key to at most one entry.
pub proof fn lemma_insert_keeps_keys_distinct(es: Seq<CachedHookDecision>, e: CachedHookDecision, now: u64)
    requires
        keys_distinct(es),
    ensures
        keys_distinct(spec_insert(es, e, now)),
{
    let key = e.key_sha256@;
    lemma_keep_fresh_distinct(es, now);
    lemma_without_key_distinct(keep_fresh(es, now), key);
    lemma_without_key_other(keep_fresh(es, now), key);
    let w = without_key(keep_fresh(es, now), key);
    let full = w.push(stamped(e, now));
    assert(keys_distinct(full)) by {
        assert forall|i: int, j: int| 0 <= i < j < full.len() implies full[i].key_sha256@ != full[j].key_sha256@ by {
            assert(full[i] == w[i]);
            if j < w.len() {
                assert(full[j] == w[j]);
            }
        }
    }
    let c = capped(full);
    if full.len() > DEDUPE_CAPACITY {
        let n = full.len() - DEDUPE_CAPACITY;
        assert forall|i: int, j: int| 0 <= i < j < c.len() implies c[i].key_sha256@ != c[j].key_sha256@ by {
            assert(c[i] == full[i + n] && c[j] == full[j + n]);
        }
    }
}

} // verus!
