//! The translation cache: a bounded store of earlier translations that evicts
//! the least recently used entries and counts hits and misses.

use vstd::prelude::*;
use std::time::Instant;
use crate::clock::{current_time_millis, elapsed_micros};
use crate::models::{CacheKey, EntryView, MemoryEntry, MemoryStats};
use crate::text::{chars_of, contains_chars, contains_run, owned_view};

verus! {

/// The mathematical form of a [`TranslationMemory`].
pub ghost struct MemoryView {
    /// The entries, in the order in which their keys were first stored.
    pub entries: Seq<EntryView>,
    pub max_entries: nat,
    pub hits: nat,
    pub misses: nat,
    pub lookup_micros: nat,
}

/// The index of the first entry stored under `key`, or the number of entries
/// where there is none.
pub open spec fn find_key(entries: Seq<EntryView>, key: CacheKey) -> int
    decreases entries.len(),
{
    if entries.len() == 0 || entries[0].key() == key {
        0
    } else {
        1 + find_key(entries.drop_first(), key)
    }
}

/// Whether no two entries share a key.
pub open spec fn keys_distinct(entries: Seq<EntryView>) -> bool {
    forall|i: int, j: int|
        0 <= i < j < entries.len() ==> (#[trigger] entries[i]).key() != (#[trigger] entries[j]).key()
}

/// The index of the entry that was accessed longest ago; of several such, the
/// one that stands first.
pub open spec fn oldest_index(entries: Seq<EntryView>) -> int
    decreases entries.len(),
{
    if entries.len() <= 1 {
        0
    } else {
        let before = oldest_index(entries.drop_last());
        if entries.last().last_accessed < entries[before].last_accessed {
            entries.len() - 1
        } else {
            before
        }
    }
}

/// The oldest entry is an entry, none was accessed before it, and those that
/// stand before it were accessed later.
pub proof fn lemma_oldest_index(entries: Seq<EntryView>)
    requires
        entries.len() > 0,
    ensures
        0 <= oldest_index(entries) < entries.len(),
        forall|k: int|
            0 <= k < entries.len() ==> entries[oldest_index(entries)].last_accessed <= (
            #[trigger] entries[k]).last_accessed,
        forall|k: int|
            0 <= k < oldest_index(entries) ==> entries[oldest_index(entries)].last_accessed < (
            #[trigger] entries[k]).last_accessed,
    decreases entries.len(),
{
    if entries.len() > 1 {
        let front = entries.drop_last();
        lemma_oldest_index(front);
        assert forall|k: int| 0 <= k < front.len() implies front[k] == entries[k] by {}
    }
}

/// The entries that stay when the cache may hold `max_entries`: while there
/// are too many, the one accessed longest ago leaves.
pub open spec fn evict(entries: Seq<EntryView>, max_entries: nat) -> Seq<EntryView>
    decreases entries.len(),
{
    if entries.len() <= max_entries {
        entries
    } else {
        proof {
            lemma_oldest_index(entries);
        }
        evict(entries.remove(oldest_index(entries)), max_entries)
    }
}

/// One more than `count`, as far as the counter's type can hold it.
pub open spec fn bumped(count: u64) -> u64 {
    if count < u64::MAX {
        (count + 1) as u64
    } else {
        count
    }
}

/// The entry after it was found at time `now`.
pub open spec fn touched(entry: EntryView, now: i64) -> EntryView {
    EntryView { access_count: bumped(entry.access_count), last_accessed: now, ..entry }
}

/// The entries after `translated_text` was stored under `key` at time `now`,
/// before anything is evicted: an entry with that key gets the new text and
/// counts one more access, and otherwise a fresh entry is added at the end.
pub open spec fn upsert(
    entries: Seq<EntryView>,
    key: CacheKey,
    translated_text: Seq<char>,
    now: i64,
) -> Seq<EntryView> {
    let i = find_key(entries, key);
    if 0 <= i < entries.len() {
        entries.update(i, EntryView { translated_text, ..touched(entries[i], now) })
    } else {
        entries.push(
            EntryView {
                source_text: key.source_text,
                translated_text,
                source_language: key.source_language,
                target_language: key.target_language,
                provider_id: key.provider_id,
                access_count: 1,
                created_at: now,
                last_accessed: now,
            },
        )
    }
}

/// Whether `entry` holds `query` in its source text or in its translation.
pub open spec fn entry_matches(entry: EntryView, query: Seq<char>) -> bool {
    contains_run(entry.source_text, query) || contains_run(entry.translated_text, query)
}

/// The entries that hold `query`, in their order.
pub open spec fn matching(entries: Seq<EntryView>, query: Seq<char>) -> Seq<EntryView>
    decreases entries.len(),
{
    if entries.len() == 0 {
        Seq::empty()
    } else {
        let front = matching(entries.drop_last(), query);
        if entry_matches(entries.last(), query) {
            front.push(entries.last())
        } else {
            front
        }
    }
}

/// The index of the entry that was accessed most recently; of several such,
/// the one that stands first.
pub open spec fn newest_index(entries: Seq<EntryView>) -> int
    decreases entries.len(),
{
    if entries.len() <= 1 {
        0
    } else {
        let before = newest_index(entries.drop_last());
        if entries.last().last_accessed > entries[before].last_accessed {
            entries.len() - 1
        } else {
            before
        }
    }
}

/// The newest entry is an entry, none was accessed after it, and those that
/// stand before it were accessed earlier.
pub proof fn lemma_newest_index(entries: Seq<EntryView>)
    requires
        entries.len() > 0,
    ensures
        0 <= newest_index(entries) < entries.len(),
        forall|k: int|
            0 <= k < entries.len() ==> entries[newest_index(entries)].last_accessed >= (
            #[trigger] entries[k]).last_accessed,
        forall|k: int|
            0 <= k < newest_index(entries) ==> entries[newest_index(entries)].last_accessed > (
            #[trigger] entries[k]).last_accessed,
    decreases entries.len(),
{
    if entries.len() > 1 {
        let front = entries.drop_last();
        lemma_newest_index(front);
        assert forall|k: int| 0 <= k < front.len() implies front[k] == entries[k] by {}
    }
}

/// Up to `limit` of the entries, the most recently accessed first; entries
/// accessed at the same time keep their order.
pub open spec fn most_recent_first(entries: Seq<EntryView>, limit: nat) -> Seq<EntryView>
    decreases entries.len(),
{
    if limit == 0 || entries.len() == 0 {
        Seq::empty()
    } else {
        proof {
            lemma_newest_index(entries);
        }
        let i = newest_index(entries);
        seq![entries[i]] + most_recent_first(entries.remove(i), (limit - 1) as nat)
    }
}

impl MemoryView {
    /// What every cache satisfies: keys are distinct, the capacity is kept,
    /// every entry was accessed at least once, and the lookups counted fit
    /// the counter.
    pub open spec fn well_formed(self) -> bool {
        &&& keys_distinct(self.entries)
        &&& self.entries.len() <= self.max_entries
        &&& forall|i: int| 0 <= i < self.entries.len() ==> (#[trigger] self.entries[i]).access_count >= 1
        &&& self.hits + self.misses <= u64::MAX
        &&& self.lookup_micros <= u64::MAX
    }

    pub open spec fn total_lookups(self) -> nat {
        self.hits + self.misses
    }

    /// The text cached under `key`, if any.
    pub open spec fn cached(self, key: CacheKey) -> Option<Seq<char>> {
        let i = find_key(self.entries, key);
        if 0 <= i < self.entries.len() {
            Some(self.entries[i].translated_text)
        } else {
            None
        }
    }

    /// The lookup time counted so far plus `elapsed_micros`, as far as the
    /// counter's type can hold it.
    pub open spec fn lookup_micros_plus(self, elapsed_micros: u64) -> nat {
        if self.lookup_micros + elapsed_micros <= u64::MAX {
            (self.lookup_micros + elapsed_micros) as nat
        } else {
            u64::MAX as nat
        }
    }

    /// The cache after a lookup at time `now` that took `elapsed_micros` and
    /// ended at place `i`: on an entry, which is a hit, or behind the last
    /// one, which is a miss. A hit touches the entry and counts as a hit, a
    /// miss counts as a miss; once the lookup counter is full, nothing more
    /// is counted.
    pub open spec fn after_lookup_at(self, i: int, now: i64, elapsed_micros: u64) -> MemoryView {
        let hit = 0 <= i < self.entries.len();
        let counted = self.hits + self.misses < u64::MAX;
        MemoryView {
            entries: if hit {
                self.entries.update(i, touched(self.entries[i], now))
            } else {
                self.entries
            },
            hits: if hit && counted {
                self.hits + 1
            } else {
                self.hits
            },
            misses: if !hit && counted {
                self.misses + 1
            } else {
                self.misses
            },
            lookup_micros: if counted {
                self.lookup_micros_plus(elapsed_micros)
            } else {
                self.lookup_micros
            },
            ..self
        }
    }

    /// The cache after `key` was looked up at time `now` and the lookup took
    /// `elapsed_micros`.
    pub open spec fn after_lookup(self, key: CacheKey, now: i64, elapsed_micros: u64) -> MemoryView {
        self.after_lookup_at(find_key(self.entries, key), now, elapsed_micros)
    }

    /// The cache after `translated_text` was stored under `key` at time `now`.
    pub open spec fn after_store(self, key: CacheKey, translated_text: Seq<char>, now: i64) -> MemoryView {
        MemoryView {
            entries: evict(upsert(self.entries, key, translated_text, now), self.max_entries),
            ..self
        }
    }

    /// The cache after it was cleared.
    pub open spec fn cleared(self) -> MemoryView {
        MemoryView { entries: Seq::empty(), hits: 0, misses: 0, lookup_micros: 0, ..self }
    }

    /// The entries that a search for `query` finds, at most `limit` of them:
    /// those that hold the query, the most recently accessed first.
    pub open spec fn found(self, query: Seq<char>, limit: nat) -> Seq<EntryView> {
        most_recent_first(matching(self.entries, query), limit)
    }

    /// The share of lookups that were hits, in parts per million; 0 where
    /// nothing was looked up.
    pub open spec fn hit_rate_ppm(self) -> nat {
        if self.total_lookups() == 0 {
            0
        } else {
            (self.hits * 1_000_000) / self.total_lookups()
        }
    }

    /// The mean time of a lookup in microseconds; 0 where nothing was looked
    /// up.
    pub open spec fn avg_lookup_micros(self) -> nat {
        if self.total_lookups() == 0 {
            0
        } else {
            self.lookup_micros / self.total_lookups()
        }
    }

    /// Whether `stats` describes this cache.
    pub open spec fn described_by(self, stats: MemoryStats) -> bool {
        &&& stats.total_entries == self.entries.len()
        &&& stats.max_entries == self.max_entries
        &&& stats.total_hits == self.hits
        &&& stats.total_misses == self.misses
        &&& stats.total_lookups == self.hits + self.misses
        &&& stats.total_lookup_micros == self.lookup_micros
        &&& stats.hit_rate_ppm == self.hit_rate_ppm()
        &&& stats.avg_lookup_micros == self.avg_lookup_micros()
    }
}

/// Whether a cache can be rebuilt from these parts: no key occurs twice,
/// every entry was accessed at least once, and the lookups fit the counter.
pub open spec fn restorable(entries: Seq<EntryView>, hits: u64, misses: u64) -> bool {
    &&& keys_distinct(entries)
    &&& forall|i: int| 0 <= i < entries.len() ==> (#[trigger] entries[i]).access_count >= 1
    &&& hits + misses <= u64::MAX
}

/// The views of the entries, in order.
pub open spec fn entry_views(entries: Seq<MemoryEntry>) -> Seq<EntryView> {
    entries.map_values(|e: MemoryEntry| e@)
}

/// The key made of the four texts.
pub open spec fn key_of(
    source_text: Seq<char>,
    source_language: Seq<char>,
    target_language: Seq<char>,
    provider_id: Seq<char>,
) -> CacheKey {
    CacheKey { provider_id, source_language, target_language, source_text }
}

pub proof fn lemma_find_key(entries: Seq<EntryView>, key: CacheKey, j: int)
    requires
        0 <= j <= entries.len(),
        forall|k: int| 0 <= k < j ==> (#[trigger] entries[k]).key() != key,
        j == entries.len() || entries[j].key() == key,
    ensures
        find_key(entries, key) == j,
    decreases entries.len(),
{
    if j > 0 {
        let rest = entries.drop_first();
        assert forall|k: int| 0 <= k < j - 1 implies (#[trigger] rest[k]).key() != key by {
            assert(rest[k] == entries[k + 1]);
        }
        lemma_find_key(rest, key, j - 1);
    }
}

/// A bounded store of translations, keyed by provider, languages and source
/// text.
#[derive(Debug)]
pub struct TranslationMemory {
    entries: Vec<MemoryEntry>,
    max_entries: usize,
    hits: u64,
    misses: u64,
    lookup_micros: u64,
}

impl View for TranslationMemory {
    type V = MemoryView;

    closed spec fn view(&self) -> MemoryView {
        MemoryView {
            entries: entry_views(self.entries@),
            max_entries: self.max_entries as nat,
            hits: self.hits as nat,
            misses: self.misses as nat,
            lookup_micros: self.lookup_micros as nat,
        }
    }
}

impl TranslationMemory {
    #[verifier::type_invariant]
    closed spec fn is_consistent(&self) -> bool {
        self@.well_formed()
    }

    /// An empty cache that holds at most `max_entries` translations.
    pub fn new(max_entries: usize) -> (memory: Self)
        ensures
            memory@ == (MemoryView {
                entries: Seq::empty(),
                max_entries: max_entries as nat,
                hits: 0,
                misses: 0,
                lookup_micros: 0,
            }),
            memory@.well_formed(),
    {
        let memory = TranslationMemory {
            entries: Vec::new(),
            max_entries,
            hits: 0,
            misses: 0,
            lookup_micros: 0,
        };
        assert(memory@.entries =~= Seq::empty());
        memory
    }

    /// The greatest number of entries the cache holds.
    pub fn max_entries(&self) -> (n: usize)
        ensures
            n == self@.max_entries,
    {
        self.max_entries
    }

    /// The number of entries in the cache.
    pub fn len(&self) -> (n: usize)
        ensures
            n == self@.entries.len(),
            n <= self@.max_entries,
            self@.well_formed(),
    {
        proof {
            use_type_invariant(self);
        }
        self.entries.len()
    }

    /// The place of the entry stored under the key, or the number of entries
    /// where there is none.
    fn position(
        &self,
        source_text: &String,
        source_language: &String,
        target_language: &String,
        provider_id: &String,
    ) -> (i: usize)
        ensures
            i == find_key(
                self@.entries,
                key_of(source_text@, source_language@, target_language@, provider_id@),
            ),
            i <= self.entries@.len(),
    {
        let ghost key = key_of(source_text@, source_language@, target_language@, provider_id@);
        let mut i: usize = 0;
        while i < self.entries.len()
            invariant
                i <= self.entries@.len(),
                key == key_of(source_text@, source_language@, target_language@, provider_id@),
                forall|k: int| 0 <= k < i ==> (#[trigger] self@.entries[k]).key() != key,
            decreases self.entries@.len() - i,
        {
            if self.entries[i].has_key(source_text, source_language, target_language, provider_id) {
                proof {
                    lemma_find_key(self@.entries, key, i as int);
                }
                return i;
            }
            i += 1;
        }
        proof {
            lemma_find_key(self@.entries, key, i as int);
        }
        i
    }

    /// Looks `source_text` up at time `now`, and counts the lookup as one
    /// that took `elapsed_micros`.
    pub fn lookup_at(
        &mut self,
        source_text: &str,
        source_language: &str,
        target_language: &str,
        provider_id: &str,
        now: i64,
        elapsed_micros: u64,
    ) -> (found: Option<String>)
        ensures
            final(self)@ == old(self)@.after_lookup(
                key_of(source_text@, source_language@, target_language@, provider_id@),
                now,
                elapsed_micros,
            ),
            owned_view(found) == old(self)@.cached(
                key_of(source_text@, source_language@, target_language@, provider_id@),
            ),
            final(self)@.well_formed(),
    {
        let text = source_text.to_owned();
        let from = source_language.to_owned();
        let to = target_language.to_owned();
        let provider = provider_id.to_owned();
        let i = self.position(&text, &from, &to, &provider);
        self.finish_lookup(i, now, elapsed_micros)
    }

    /// Looks `source_text` up. The entry's time of access is read from the
    /// wall clock, and the time the lookup took is measured around the search.
    pub fn lookup(
        &mut self,
        source_text: &str,
        source_language: &str,
        target_language: &str,
        provider_id: &str,
    ) -> (found: Option<String>)
        ensures
            exists|now: i64, elapsed_micros: u64|
                final(self)@ == #[trigger] old(self)@.after_lookup(
                    key_of(source_text@, source_language@, target_language@, provider_id@),
                    now,
                    elapsed_micros,
                ),
            owned_view(found) == old(self)@.cached(
                key_of(source_text@, source_language@, target_language@, provider_id@),
            ),
            final(self)@.well_formed(),
    {
        let started = Instant::now();
        let now = current_time_millis();
        let text = source_text.to_owned();
        let from = source_language.to_owned();
        let to = target_language.to_owned();
        let provider = provider_id.to_owned();
        let i = self.position(&text, &from, &to, &provider);
        let elapsed = elapsed_micros(&started);
        let ghost before = self@;
        let ghost key = key_of(source_text@, source_language@, target_language@, provider_id@);
        let found = self.finish_lookup(i, now, elapsed);
        assert(self@ == before.after_lookup(key, now, elapsed));
        found
    }

    /// Touches the entry at place `i`, if there is one, and counts the
    /// lookup.
    fn finish_lookup(&mut self, i: usize, now: i64, elapsed_micros: u64) -> (found: Option<String>)
        requires
            i <= old(self)@.entries.len(),
        ensures
            final(self)@ == old(self)@.after_lookup_at(i as int, now, elapsed_micros),
            match found {
                Some(text) => i < old(self)@.entries.len() && text@ == old(
                    self,
                )@.entries[i as int].translated_text,
                None => i == old(self)@.entries.len(),
            },
            final(self)@.well_formed(),
    {
        proof {
            use_type_invariant(&*self);
        }
        let ghost before = self@;
        let hit = i < self.entries.len();
        let counted = self.hits < u64::MAX - self.misses;
        let mut found: Option<String> = None;
        if hit {
            let mut entries = self.take_entries();
            found = Some(entries[i].translated_text.clone());
            let count = entries[i].access_count;
            entries[i].access_count = if count < u64::MAX {
                count + 1
            } else {
                count
            };
            entries[i].last_accessed = now;
            proof {
                let fresh = touched(before.entries[i as int], now);
                assert(entry_views(entries@) =~= before.entries.update(i as int, fresh));
                lemma_update_keeps_well_formed(before, i as int, fresh);
            }
            self.entries = entries;
        }
        if counted {
            if hit {
                self.hits = self.hits + 1;
            } else {
                self.misses = self.misses + 1;
            }
            self.lookup_micros = if elapsed_micros <= u64::MAX - self.lookup_micros {
                self.lookup_micros + elapsed_micros
            } else {
                u64::MAX
            };
        }
        proof {
            use_type_invariant(&*self);
        }
        found
    }

    /// Stores `translated_text` for `source_text` at time `now`, then evicts
    /// what exceeds the capacity.
    pub fn store_at(
        &mut self,
        source_text: &str,
        translated_text: &str,
        source_language: &str,
        target_language: &str,
        provider_id: &str,
        now: i64,
    )
        ensures
            final(self)@ == old(self)@.after_store(
                key_of(source_text@, source_language@, target_language@, provider_id@),
                translated_text@,
                now,
            ),
            final(self)@.well_formed(),
            final(self)@.entries.len() <= final(self)@.max_entries,
    {
        proof {
            use_type_invariant(&*self);
        }
        let text = source_text.to_owned();
        let from = source_language.to_owned();
        let to = target_language.to_owned();
        let provider = provider_id.to_owned();
        let i = self.position(&text, &from, &to, &provider);
        let ghost before = self@;
        let ghost key = key_of(source_text@, source_language@, target_language@, provider_id@);
        let mut entries = self.take_entries();
        if i < entries.len() {
            entries[i].translated_text = translated_text.to_owned();
            let count = entries[i].access_count;
            entries[i].access_count = if count < u64::MAX {
                count + 1
            } else {
                count
            };
            entries[i].last_accessed = now;
        } else {
            entries.push(
                MemoryEntry {
                    source_text: text,
                    translated_text: translated_text.to_owned(),
                    source_language: from,
                    target_language: to,
                    provider_id: provider,
                    access_count: 1,
                    created_at: now,
                    last_accessed: now,
                },
            );
        }
        proof {
            assert(entry_views(entries@) =~= upsert(before.entries, key, translated_text@, now));
            lemma_upsert_keeps_entries_sound(before.entries, key, translated_text@, now);
            lemma_evict_keeps_entries_sound(entry_views(entries@), before.max_entries);
        }
        evict_overflow(&mut entries, self.max_entries);
        self.entries = entries;
        proof {
            use_type_invariant(&*self);
        }
    }

    /// Stores `translated_text` for `source_text`, stamped with the wall
    /// clock's time, then evicts what exceeds the capacity.
    pub fn store(
        &mut self,
        source_text: &str,
        translated_text: &str,
        source_language: &str,
        target_language: &str,
        provider_id: &str,
    )
        ensures
            exists|now: i64|
                final(self)@ == #[trigger] old(self)@.after_store(
                    key_of(source_text@, source_language@, target_language@, provider_id@),
                    translated_text@,
                    now,
                ),
            final(self)@.well_formed(),
            final(self)@.entries.len() <= final(self)@.max_entries,
    {
        let now = current_time_millis();
        let ghost before = self@;
        self.store_at(
            source_text,
            translated_text,
            source_language,
            target_language,
            provider_id,
            now,
        );
        assert(self@ == before.after_store(
            key_of(source_text@, source_language@, target_language@, provider_id@),
            translated_text@,
            now,
        ));
    }

    /// Counts `micros` more of lookup time: the part of a lookup that was
    /// spent outside this cache, where the cache is kept in a store that has
    /// to be read first.
    pub fn add_lookup_time(&mut self, micros: u64)
        ensures
            final(self)@ == (MemoryView {
                lookup_micros: old(self)@.lookup_micros_plus(micros),
                ..old(self)@
            }),
            final(self)@.well_formed(),
    {
        proof {
            use_type_invariant(&*self);
        }
        self.lookup_micros = if micros <= u64::MAX - self.lookup_micros {
            self.lookup_micros + micros
        } else {
            u64::MAX
        };
    }

    /// Removes every entry and sets the counters back to zero.
    pub fn clear(&mut self)
        ensures
            final(self)@ == old(self)@.cleared(),
            final(self)@.well_formed(),
    {
        let _ = self.take_entries();
        self.hits = 0;
        self.misses = 0;
        self.lookup_micros = 0;
        assert(self@.entries =~= Seq::empty());
    }

    /// What the cache holds and how its lookups went.
    pub fn stats(&self) -> (stats: MemoryStats)
        ensures
            self@.described_by(stats),
            stats.total_lookups == stats.total_hits + stats.total_misses,
            stats.hit_rate_ppm <= 1_000_000,
    {
        proof {
            use_type_invariant(self);
        }
        let total: u64 = self.hits + self.misses;
        let mut hit_rate_ppm: u64 = 0;
        let mut avg_lookup_micros: u64 = 0;
        if total > 0 {
            let scaled: u128 = (self.hits as u128) * 1_000_000;
            let rate: u128 = scaled / (total as u128);
            assert(rate <= 1_000_000) by (nonlinear_arith)
                requires
                    scaled == self.hits * 1_000_000,
                    rate == scaled / (total as u128),
                    self.hits <= total,
                    total > 0,
            ;
            hit_rate_ppm = rate as u64;
            avg_lookup_micros = self.lookup_micros / total;
        }
        MemoryStats {
            total_entries: self.entries.len(),
            max_entries: self.max_entries,
            total_hits: self.hits,
            total_misses: self.misses,
            total_lookups: total,
            total_lookup_micros: self.lookup_micros,
            hit_rate_ppm,
            avg_lookup_micros,
        }
    }

    /// A copy of every entry, in the cache's order.
    pub fn entries(&self) -> (copies: Vec<MemoryEntry>)
        ensures
            entry_views(copies@) == self@.entries,
    {
        let mut copies: Vec<MemoryEntry> = Vec::new();
        let mut i: usize = 0;
        while i < self.entries.len()
            invariant
                i <= self.entries@.len(),
                copies@.len() == i,
                forall|k: int| 0 <= k < i ==> (#[trigger] copies@[k])@ == self.entries@[k]@,
            decreases self.entries@.len() - i,
        {
            copies.push(self.entries[i].clone());
            i += 1;
        }
        assert(entry_views(copies@) =~= self@.entries);
        copies
    }

    /// The entries that hold `query` in their source text or in their
    /// translation, the most recently accessed first, at most `limit` of
    /// them. The match is exact: letter case and white space count, and no
    /// character of the query stands for another.
    pub fn search(&self, query: &str, limit: usize) -> (found: Vec<MemoryEntry>)
        ensures
            entry_views(found@) == self@.found(query@, limit as nat),
    {
        let needle = chars_of(query);
        let mut matches: Vec<MemoryEntry> = Vec::new();
        let mut i: usize = 0;
        assert(self@.entries.take(0) =~= Seq::empty());
        while i < self.entries.len()
            invariant
                i <= self.entries@.len(),
                needle@ == query@,
                entry_views(matches@) == matching(self@.entries.take(i as int), needle@),
            decreases self.entries@.len() - i,
        {
            let entry = &self.entries[i];
            let source = chars_of(entry.source_text.as_str());
            let translated = chars_of(entry.translated_text.as_str());
            let ghost front = self@.entries.take(i as int);
            let ghost grown = self@.entries.take(i + 1);
            proof {
                assert(grown.drop_last() =~= front);
                assert(grown.last() == entry@);
            }
            if contains_chars(&source, &needle) || contains_chars(&translated, &needle) {
                let ghost earlier = entry_views(matches@);
                matches.push(entry.clone());
                assert(entry_views(matches@) =~= earlier.push(entry@));
            }
            i += 1;
        }
        assert(self@.entries.take(i as int) =~= self@.entries);
        take_most_recent(matches, limit)
    }

    /// The cache made of the given parts, after eviction down to
    /// `max_entries`; `None` where the parts fit no cache.
    pub fn restore(
        entries: Vec<MemoryEntry>,
        max_entries: usize,
        hits: u64,
        misses: u64,
        lookup_micros: u64,
    ) -> (memory: Option<Self>)
        ensures
            match memory {
                Some(memory) => restorable(entry_views(entries@), hits, misses) && memory@ == (
                MemoryView {
                    entries: evict(entry_views(entries@), max_entries as nat),
                    max_entries: max_entries as nat,
                    hits: hits as nat,
                    misses: misses as nat,
                    lookup_micros: lookup_micros as nat,
                }) && memory@.well_formed(),
                None => !restorable(entry_views(entries@), hits, misses),
            },
    {
        if hits > u64::MAX - misses {
            return None;
        }
        if !entries_are_sound(&entries) {
            return None;
        }
        let mut entries = entries;
        proof {
            lemma_evict_keeps_entries_sound(entry_views(entries@), max_entries as nat);
        }
        evict_overflow(&mut entries, max_entries);
        Some(TranslationMemory { entries, max_entries, hits, misses, lookup_micros })
    }

    /// Moves the entries out and leaves the cache empty.
    fn take_entries(&mut self) -> (entries: Vec<MemoryEntry>)
        ensures
            entries == old(self).entries,
            final(self).entries@.len() == 0,
            final(self).max_entries == old(self).max_entries,
            final(self).hits == old(self).hits,
            final(self).misses == old(self).misses,
            final(self).lookup_micros == old(self).lookup_micros,
    {
        proof {
            use_type_invariant(&*self);
        }
        let mut entries: Vec<MemoryEntry> = Vec::new();
        core::mem::swap(&mut self.entries, &mut entries);
        entries
    }
}

/// Whether the entries have distinct keys and were each accessed at least
/// once.
pub open spec fn entries_sound(entries: Seq<EntryView>) -> bool {
    &&& keys_distinct(entries)
    &&& forall|i: int| 0 <= i < entries.len() ==> (#[trigger] entries[i]).access_count >= 1
}

/// What `find_key` returns is the place of the first entry with the key.
pub proof fn lemma_find_key_result(entries: Seq<EntryView>, key: CacheKey)
    ensures
        0 <= find_key(entries, key) <= entries.len(),
        find_key(entries, key) < entries.len() ==> entries[find_key(entries, key)].key() == key,
        forall|k: int| 0 <= k < find_key(entries, key) ==> (#[trigger] entries[k]).key() != key,
    decreases entries.len(),
{
    if entries.len() > 0 && entries[0].key() != key {
        let rest = entries.drop_first();
        lemma_find_key_result(rest, key);
        assert forall|k: int| 0 <= k < find_key(entries, key) implies (#[trigger] entries[k]).key()
            != key by {
            if k > 0 {
                assert(entries[k] == rest[k - 1]);
            }
        }
    }
}

pub proof fn lemma_upsert_keeps_entries_sound(
    entries: Seq<EntryView>,
    key: CacheKey,
    translated_text: Seq<char>,
    now: i64,
)
    requires
        entries_sound(entries),
    ensures
        entries_sound(upsert(entries, key, translated_text, now)),
{
    lemma_find_key_result(entries, key);
    let after = upsert(entries, key, translated_text, now);
    let i = find_key(entries, key);
    assert forall|a: int, b: int| 0 <= a < b < after.len() implies (#[trigger] after[a]).key() != (
    #[trigger] after[b]).key() by {
        if i < entries.len() {
            assert(after[a].key() == entries[a].key());
            assert(after[b].key() == entries[b].key());
        } else {
            assert(after[a] == entries[a]);
            if b < entries.len() {
                assert(after[b] == entries[b]);
            }
        }
    }
    assert forall|k: int| 0 <= k < after.len() implies (#[trigger] after[k]).access_count >= 1 by {
        if k < entries.len() && k != i {
            assert(after[k] == entries[k]);
        }
    }
}

pub proof fn lemma_remove_keeps_entries_sound(entries: Seq<EntryView>, i: int)
    requires
        entries_sound(entries),
        0 <= i < entries.len(),
    ensures
        entries_sound(entries.remove(i)),
{
    let after = entries.remove(i);
    assert forall|a: int, b: int| 0 <= a < b < after.len() implies (#[trigger] after[a]).key() != (
    #[trigger] after[b]).key() by {
        let x = if a < i {
            a
        } else {
            a + 1
        };
        let y = if b < i {
            b
        } else {
            b + 1
        };
        assert(after[a] == entries[x]);
        assert(after[b] == entries[y]);
    }
    assert forall|k: int| 0 <= k < after.len() implies (#[trigger] after[k]).access_count >= 1 by {
        let x = if k < i {
            k
        } else {
            k + 1
        };
        assert(after[k] == entries[x]);
    }
}

/// Eviction keeps the keys distinct and leaves no more than the capacity:
/// exactly the capacity where there were more, and everything otherwise.
pub proof fn lemma_evict_keeps_entries_sound(entries: Seq<EntryView>, max_entries: nat)
    requires
        entries_sound(entries),
    ensures
        entries_sound(evict(entries, max_entries)),
        evict(entries, max_entries).len() == if entries.len() <= max_entries {
            entries.len()
        } else {
            max_entries
        },
    decreases entries.len(),
{
    if entries.len() > max_entries {
        lemma_oldest_index(entries);
        lemma_remove_keeps_entries_sound(entries, oldest_index(entries));
        lemma_evict_keeps_entries_sound(entries.remove(oldest_index(entries)), max_entries);
    }
}

/// The place of the entry that was accessed longest ago.
fn oldest_position(entries: &Vec<MemoryEntry>) -> (best: usize)
    requires
        entries.len() > 0,
    ensures
        best == oldest_index(entry_views(entries@)),
        best < entries.len(),
{
    let ghost views = entry_views(entries@);
    let mut best: usize = 0;
    let mut i: usize = 1;
    while i < entries.len()
        invariant
            1 <= i <= entries.len(),
            best < i,
            views == entry_views(entries@),
            best == oldest_index(views.take(i as int)),
        decreases entries.len() - i,
    {
        proof {
            assert(views.take(i + 1).drop_last() =~= views.take(i as int));
            assert(views.take(i + 1).last() == entries@[i as int]@);
            assert(views.take(i as int)[best as int] == entries@[best as int]@);
        }
        if entries[i].last_accessed < entries[best].last_accessed {
            best = i;
        }
        i += 1;
    }
    assert(views.take(i as int) =~= views);
    best
}

/// The place of the entry that was accessed most recently.
fn newest_position(entries: &Vec<MemoryEntry>) -> (best: usize)
    requires
        entries.len() > 0,
    ensures
        best == newest_index(entry_views(entries@)),
        best < entries.len(),
{
    let ghost views = entry_views(entries@);
    let mut best: usize = 0;
    let mut i: usize = 1;
    while i < entries.len()
        invariant
            1 <= i <= entries.len(),
            best < i,
            views == entry_views(entries@),
            best == newest_index(views.take(i as int)),
        decreases entries.len() - i,
    {
        proof {
            assert(views.take(i + 1).drop_last() =~= views.take(i as int));
            assert(views.take(i + 1).last() == entries@[i as int]@);
            assert(views.take(i as int)[best as int] == entries@[best as int]@);
        }
        if entries[i].last_accessed > entries[best].last_accessed {
            best = i;
        }
        i += 1;
    }
    assert(views.take(i as int) =~= views);
    best
}

/// Removes the entries accessed longest ago until no more than
/// `max_entries` are left.
fn evict_overflow(entries: &mut Vec<MemoryEntry>, max_entries: usize)
    ensures
        entry_views(final(entries)@) == evict(entry_views(old(entries)@), max_entries as nat),
{
    let ghost start = entry_views(entries@);
    while entries.len() > max_entries
        invariant
            evict(entry_views(entries@), max_entries as nat) == evict(start, max_entries as nat),
        decreases entries.len(),
    {
        let ghost views = entry_views(entries@);
        let i = oldest_position(entries);
        entries.remove(i);
        assert(entry_views(entries@) =~= views.remove(i as int));
    }
}

/// Up to `limit` of the entries, the most recently accessed first.
fn take_most_recent(entries: Vec<MemoryEntry>, limit: usize) -> (out: Vec<MemoryEntry>)
    ensures
        entry_views(out@) == most_recent_first(entry_views(entries@), limit as nat),
{
    let mut rest = entries;
    let mut out: Vec<MemoryEntry> = Vec::new();
    let ghost wanted = most_recent_first(entry_views(entries@), limit as nat);
    assert(entry_views(out@) =~= Seq::empty());
    while out.len() < limit && rest.len() > 0
        invariant
            out.len() <= limit,
            wanted == entry_views(out@) + most_recent_first(
                entry_views(rest@),
                (limit - out.len()) as nat,
            ),
        decreases rest.len(),
    {
        let ghost views = entry_views(rest@);
        let ghost taken = entry_views(out@);
        let i = newest_position(&rest);
        let entry = rest.remove(i);
        out.push(entry);
        proof {
            assert(entry_views(rest@) =~= views.remove(i as int));
            assert(entry_views(out@) =~= taken + seq![views[i as int]]);
            assert(taken + (seq![views[i as int]] + most_recent_first(
                views.remove(i as int),
                (limit - out.len()) as nat,
            )) =~= taken + seq![views[i as int]] + most_recent_first(
                views.remove(i as int),
                (limit - out.len()) as nat,
            ));
        }
    }
    assert(wanted =~= entry_views(out@));
    out
}

/// Whether the entries have distinct keys and were each accessed at least
/// once.
fn entries_are_sound(entries: &Vec<MemoryEntry>) -> (r: bool)
    ensures
        r == entries_sound(entry_views(entries@)),
{
    let ghost views = entry_views(entries@);
    let mut j: usize = 0;
    while j < entries.len()
        invariant
            j <= entries.len(),
            views == entry_views(entries@),
            forall|a: int, b: int|
                0 <= a < b < j ==> (#[trigger] views[a]).key() != (#[trigger] views[b]).key(),
            forall|k: int| 0 <= k < j ==> (#[trigger] views[k]).access_count >= 1,
        decreases entries.len() - j,
    {
        if entries[j].access_count < 1 {
            assert(views[j as int].access_count < 1);
            return false;
        }
        let mut i: usize = 0;
        while i < j
            invariant
                i <= j < entries.len(),
                views == entry_views(entries@),
                forall|a: int| 0 <= a < i ==> (#[trigger] views[a]).key() != views[j as int].key(),
            decreases j - i,
        {
            let other = &entries[i];
            if entries[j].has_key(
                &other.source_text,
                &other.source_language,
                &other.target_language,
                &other.provider_id,
            ) {
                assert(views[i as int].key() == views[j as int].key());
                return false;
            }
            i += 1;
        }
        j += 1;
    }
    true
}

/// Storing leaves a cache well-formed: keys stay distinct and the capacity
/// is kept. It does not touch the counters.
pub proof fn lemma_store_keeps_well_formed(
    memory: MemoryView,
    key: CacheKey,
    translated_text: Seq<char>,
    now: i64,
)
    requires
        memory.well_formed(),
    ensures
        memory.after_store(key, translated_text, now).well_formed(),
        memory.after_store(key, translated_text, now).entries.len() <= memory.max_entries,
        memory.after_store(key, translated_text, now).hits == memory.hits,
        memory.after_store(key, translated_text, now).misses == memory.misses,
        memory.after_store(key, translated_text, now).lookup_micros == memory.lookup_micros,
{
    lemma_upsert_keeps_entries_sound(memory.entries, key, translated_text, now);
    lemma_evict_keeps_entries_sound(
        upsert(memory.entries, key, translated_text, now),
        memory.max_entries,
    );
}

/// Looking up leaves a cache well-formed, and `hits + misses` stays the
/// number of lookups counted. No counter goes down, and no entry comes or
/// goes.
pub proof fn lemma_lookup_keeps_well_formed(
    memory: MemoryView,
    key: CacheKey,
    now: i64,
    elapsed_micros: u64,
)
    requires
        memory.well_formed(),
    ensures
        memory.after_lookup(key, now, elapsed_micros).well_formed(),
        memory.after_lookup(key, now, elapsed_micros).total_lookups() == if memory.total_lookups()
            < u64::MAX {
            memory.total_lookups() + 1
        } else {
            memory.total_lookups()
        },
        memory.after_lookup(key, now, elapsed_micros).hits >= memory.hits,
        memory.after_lookup(key, now, elapsed_micros).misses >= memory.misses,
        memory.after_lookup(key, now, elapsed_micros).lookup_micros >= memory.lookup_micros,
        memory.after_lookup(key, now, elapsed_micros).entries.len() == memory.entries.len(),
{
    lemma_find_key_result(memory.entries, key);
    let i = find_key(memory.entries, key);
    if i < memory.entries.len() {
        lemma_update_keeps_well_formed(memory, i, touched(memory.entries[i], now));
    }
}

/// Two lists of entries with the same keys in the same places hold a key in
/// the same place.
pub proof fn lemma_find_key_by_keys(first: Seq<EntryView>, second: Seq<EntryView>, key: CacheKey)
    requires
        first.len() == second.len(),
        forall|i: int| 0 <= i < first.len() ==> (#[trigger] first[i]).key() == second[i].key(),
    ensures
        find_key(first, key) == find_key(second, key),
{
    lemma_find_key_result(first, key);
    let j = find_key(first, key);
    assert forall|k: int| 0 <= k < j implies (#[trigger] second[k]).key() != key by {
        assert(first[k].key() == second[k].key());
    }
    if j < first.len() {
        assert(first[j].key() == second[j].key());
    }
    lemma_find_key(second, key, j);
}

/// What was stored is found again. A lookup of the key just stored finds
/// exactly the stored text, counts one more access of the entry and, while
/// the counter has room, one more hit and no miss. This holds unless the
/// store itself is evicted, which happens where the cache has no room at
/// all, and where a new key comes into a full cache with a time before that
/// of every entry there.
pub proof fn lemma_stored_text_is_found(
    memory: MemoryView,
    key: CacheKey,
    translated_text: Seq<char>,
    stored_at: i64,
    found_at: i64,
    elapsed_micros: u64,
)
    requires
        memory.well_formed(),
        memory.max_entries >= 1,
        ({
            ||| find_key(memory.entries, key) < memory.entries.len()
            ||| memory.entries.len() < memory.max_entries
            ||| exists|i: int|
                0 <= i < memory.entries.len() && (#[trigger] memory.entries[i]).last_accessed
                    <= stored_at
        }),
    ensures
        ({
            let stored = memory.after_store(key, translated_text, stored_at);
            let place = find_key(stored.entries, key);
            let looked = stored.after_lookup(key, found_at, elapsed_micros);
            &&& stored.cached(key) == Some(translated_text)
            &&& 0 <= place < stored.entries.len()
            &&& looked.entries[place].access_count == bumped(stored.entries[place].access_count)
            &&& looked.entries[place].last_accessed == found_at
            &&& looked.cached(key) == Some(translated_text)
            &&& looked.misses == stored.misses
            &&& stored.total_lookups() < u64::MAX ==> looked.hits == stored.hits + 1
        }),
{
    let entries = memory.entries;
    let u = upsert(entries, key, translated_text, stored_at);
    lemma_find_key_result(entries, key);
    lemma_upsert_keeps_entries_sound(entries, key, translated_text, stored_at);
    let i = find_key(entries, key);
    assert(u[i].key() == key && u[i].translated_text == translated_text);
    assert forall|k: int| 0 <= k < i implies (#[trigger] u[k]).key() != key by {
        assert(u[k] == entries[k]);
    }
    let stored = memory.after_store(key, translated_text, stored_at);
    if u.len() <= memory.max_entries {
        assert(stored.entries == u);
        lemma_find_key(u, key, i);
    } else {
        lemma_oldest_index(u);
        let o = oldest_index(u);
        assert(i == entries.len());
        let earlier = choose|k: int|
            0 <= k < entries.len() && (#[trigger] entries[k]).last_accessed <= stored_at;
        assert(u[earlier] == entries[earlier]);
        assert(u[earlier].last_accessed <= u[i].last_accessed);
        assert(o != i);
        let r = u.remove(o);
        assert(r.len() == memory.max_entries);
        assert(evict(r, memory.max_entries) == r);
        assert(stored.entries == r);
        assert(r[i - 1] == u[i]);
        assert forall|k: int| 0 <= k < i - 1 implies (#[trigger] r[k]).key() != key by {
            if k < o {
                assert(r[k] == u[k]);
            } else {
                assert(r[k] == u[k + 1]);
            }
        }
        lemma_find_key(r, key, i - 1);
    }
    let place = find_key(stored.entries, key);
    let looked = stored.after_lookup(key, found_at, elapsed_micros);
    assert forall|k: int| 0 <= k < stored.entries.len() implies (#[trigger] stored.entries[k]).key()
        == looked.entries[k].key() by {}
    lemma_find_key_by_keys(stored.entries, looked.entries, key);
}

/// Eviction keeps the most recently accessed entries: every entry that stays
/// was there before, and no entry that leaves was accessed later than one
/// that stays.
pub proof fn lemma_evict_keeps_most_recent(entries: Seq<EntryView>, max_entries: nat)
    ensures
        forall|j: int|
            0 <= j < evict(entries, max_entries).len() ==> entries.contains(
                #[trigger] evict(entries, max_entries)[j],
            ),
        forall|i: int, j: int|
            0 <= i < entries.len() && 0 <= j < evict(entries, max_entries).len() && !evict(
                entries,
                max_entries,
            ).contains(#[trigger] entries[i]) ==> entries[i].last_accessed <= (#[trigger] evict(
                entries,
                max_entries,
            )[j]).last_accessed,
    decreases entries.len(),
{
    let kept = evict(entries, max_entries);
    if entries.len() > max_entries {
        lemma_oldest_index(entries);
        let o = oldest_index(entries);
        let rest = entries.remove(o);
        lemma_evict_keeps_most_recent(rest, max_entries);
        assert(kept == evict(rest, max_entries));
        assert forall|j: int| 0 <= j < kept.len() implies entries.contains(#[trigger] kept[j]) by {
            assert(rest.contains(kept[j]));
            let x = choose|x: int| 0 <= x < rest.len() && rest[x] == kept[j];
            if x < o {
                assert(entries[x] == kept[j]);
            } else {
                assert(entries[x + 1] == kept[j]);
            }
        }
        assert forall|i: int, j: int|
            0 <= i < entries.len() && 0 <= j < kept.len() && !kept.contains(
                #[trigger] entries[i],
            ) implies entries[i].last_accessed <= (#[trigger] kept[j]).last_accessed by {
            if i == o {
                assert(entries.contains(kept[j]));
                let y = choose|y: int| 0 <= y < entries.len() && entries[y] == kept[j];
                assert(entries[o].last_accessed <= entries[y].last_accessed);
            } else {
                let x = if i < o {
                    i
                } else {
                    i - 1
                };
                assert(rest[x] == entries[i]);
            }
        }
    } else {
        assert forall|i: int, j: int|
            0 <= i < entries.len() && 0 <= j < kept.len() && !kept.contains(
                #[trigger] entries[i],
            ) implies entries[i].last_accessed <= (#[trigger] kept[j]).last_accessed by {
            assert(kept[i] == entries[i]);
        }
    }
}

/// What a search hands out was there, and in the right order: every entry of
/// the result is one of the entries searched, there are as many as the limit
/// allows, and none was accessed later than one that stands before it.
pub proof fn lemma_most_recent_first_is_sorted(entries: Seq<EntryView>, limit: nat)
    ensures
        most_recent_first(entries, limit).len() == if entries.len() <= limit {
            entries.len()
        } else {
            limit
        },
        forall|j: int|
            0 <= j < most_recent_first(entries, limit).len() ==> entries.contains(
                #[trigger] most_recent_first(entries, limit)[j],
            ),
        forall|i: int, j: int|
            0 <= i < j < most_recent_first(entries, limit).len() ==> (#[trigger] most_recent_first(
                entries,
                limit,
            )[i]).last_accessed >= (#[trigger] most_recent_first(entries, limit)[j]).last_accessed,
    decreases entries.len(),
{
    let result = most_recent_first(entries, limit);
    if limit > 0 && entries.len() > 0 {
        lemma_newest_index(entries);
        let n = newest_index(entries);
        let rest = entries.remove(n);
        let tail = most_recent_first(rest, (limit - 1) as nat);
        lemma_most_recent_first_is_sorted(rest, (limit - 1) as nat);
        assert(result == seq![entries[n]] + tail);
        assert forall|j: int| 0 <= j < result.len() implies entries.contains(
            #[trigger] result[j],
        ) by {
            if j == 0 {
                assert(entries[n] == result[0]);
            } else {
                assert(result[j] == tail[j - 1]);
                assert(rest.contains(tail[j - 1]));
                let x = choose|x: int| 0 <= x < rest.len() && rest[x] == tail[j - 1];
                if x < n {
                    assert(entries[x] == result[j]);
                } else {
                    assert(entries[x + 1] == result[j]);
                }
            }
        }
        assert forall|i: int, j: int| 0 <= i < j < result.len() implies (#[trigger] result[i]).last_accessed
            >= (#[trigger] result[j]).last_accessed by {
            assert(result[j] == tail[j - 1]);
            if i == 0 {
                assert(entries.contains(result[j]));
                let y = choose|y: int| 0 <= y < entries.len() && entries[y] == result[j];
                assert(entries[n].last_accessed >= entries[y].last_accessed);
            } else {
                assert(result[i] == tail[i - 1]);
            }
        }
    }
}

/// A request to store a translation at a given time.
pub ghost struct StoreRequest {
    pub key: CacheKey,
    pub translated_text: Seq<char>,
    pub at: i64,
}

/// A request to look a key up at a given time, with the time the lookup took.
pub ghost struct LookupRequest {
    pub key: CacheKey,
    pub at: i64,
    pub elapsed_micros: u64,
}

/// The cache after the stores were made in order.
pub open spec fn after_stores(memory: MemoryView, stores: Seq<StoreRequest>) -> MemoryView
    decreases stores.len(),
{
    if stores.len() == 0 {
        memory
    } else {
        let last = stores.last();
        after_stores(memory, stores.drop_last()).after_store(
            last.key,
            last.translated_text,
            last.at,
        )
    }
}

/// The cache after the lookups were made in order.
pub open spec fn after_lookups(memory: MemoryView, lookups: Seq<LookupRequest>) -> MemoryView
    decreases lookups.len(),
{
    if lookups.len() == 0 {
        memory
    } else {
        let last = lookups.last();
        after_lookups(memory, lookups.drop_last()).after_lookup(
            last.key,
            last.at,
            last.elapsed_micros,
        )
    }
}

/// How many of the lookups ask for a key that the cache holds.
pub open spec fn hits_among(memory: MemoryView, lookups: Seq<LookupRequest>) -> nat
    decreases lookups.len(),
{
    if lookups.len() == 0 {
        0
    } else {
        hits_among(memory, lookups.drop_last()) + if memory.cached(lookups.last().key) is Some {
            1nat
        } else {
            0nat
        }
    }
}

/// The entry that a store makes for a key that the cache does not hold.
pub open spec fn fresh_entry(request: StoreRequest) -> EntryView {
    EntryView {
        source_text: request.key.source_text,
        translated_text: request.translated_text,
        source_language: request.key.source_language,
        target_language: request.key.target_language,
        provider_id: request.key.provider_id,
        access_count: 1,
        created_at: request.at,
        last_accessed: request.at,
    }
}

/// An empty cache with the given capacity.
pub open spec fn empty_memory(max_entries: nat) -> MemoryView {
    MemoryView { entries: Seq::empty(), max_entries, hits: 0, misses: 0, lookup_micros: 0 }
}

/// The capacity keeps the latest stores. After any number of stores of
/// distinct keys at increasing times into an empty cache, the cache holds
/// one fresh entry for each of the last `max_entries` stores, in their order,
/// and nothing else: all of them where there were no more than `max_entries`.
pub proof fn lemma_capacity_keeps_latest_stores(max_entries: nat, stores: Seq<StoreRequest>)
    requires
        forall|i: int, j: int|
            0 <= i < j < stores.len() ==> (#[trigger] stores[i]).key != (#[trigger] stores[j]).key,
        forall|i: int, j: int|
            0 <= i < j < stores.len() ==> (#[trigger] stores[i]).at < (#[trigger] stores[j]).at,
    ensures
        ({
            let dropped = if stores.len() <= max_entries {
                0
            } else {
                stores.len() - max_entries
            };
            let entries = after_stores(empty_memory(max_entries), stores).entries;
            &&& after_stores(empty_memory(max_entries), stores).max_entries == max_entries
            &&& entries.len() == stores.len() - dropped
            &&& forall|k: int|
                0 <= k < entries.len() ==> #[trigger] entries[k] == fresh_entry(stores[dropped + k])
        }),
    decreases stores.len(),
{
    let n = stores.len() as int;
    if n > 0 {
        let earlier = stores.drop_last();
        let request = stores.last();
        assert forall|i: int| 0 <= i < earlier.len() implies #[trigger] earlier[i] == stores[i] by {}
        lemma_capacity_keeps_latest_stores(max_entries, earlier);
        let before = after_stores(empty_memory(max_entries), earlier);
        let skipped = if earlier.len() <= max_entries {
            0
        } else {
            earlier.len() - max_entries
        };
        let held = before.entries;
        assert forall|k: int| 0 <= k < held.len() implies (#[trigger] held[k]).key()
            != request.key by {
            assert(held[k] == fresh_entry(stores[skipped + k]));
            assert(stores[skipped + k].key != stores[n - 1].key);
        }
        lemma_find_key(held, request.key, held.len() as int);
        let grown = upsert(held, request.key, request.translated_text, request.at);
        assert(grown == held.push(fresh_entry(request)));
        let after = after_stores(empty_memory(max_entries), stores);
        assert(after.entries == evict(grown, max_entries));
        if grown.len() > max_entries {
            lemma_oldest_index(grown);
            let o = oldest_index(grown);
            if o > 0 {
                assert(grown[o].last_accessed < grown[0].last_accessed);
                assert(grown[0] == fresh_entry(stores[skipped as int]));
                if o < held.len() {
                    assert(grown[o] == fresh_entry(stores[skipped + o]));
                    assert(stores[skipped as int].at < stores[skipped + o].at);
                } else {
                    assert(grown[o] == fresh_entry(request));
                    assert(stores[skipped as int].at < stores[n - 1].at);
                }
            }
            let rest = grown.remove(0);
            assert(rest.len() <= max_entries);
            assert(evict(rest, max_entries) == rest);
            assert forall|k: int| 0 <= k < rest.len() implies #[trigger] rest[k] == fresh_entry(
                stores[skipped + 1 + k],
            ) by {
                assert(rest[k] == grown[k + 1]);
                if k + 1 < held.len() {
                    assert(grown[k + 1] == held[k + 1]);
                }
            }
        } else {
            assert forall|k: int| 0 <= k < grown.len() implies #[trigger] grown[k] == fresh_entry(
                stores[k],
            ) by {
                if k < held.len() {
                    assert(grown[k] == held[k]);
                }
            }
        }
    }
}

/// Whether one of the requests stores under the key of `entry`.
pub open spec fn stored_by(entry: EntryView, stores: Seq<StoreRequest>) -> bool {
    exists|j: int| 0 <= j < stores.len() && (#[trigger] stores[j]).key == entry.key()
}

/// Distinct keys fill a cache up to its capacity and no further. After any
/// number of stores of distinct keys into an empty cache, at whatever times,
/// the cache holds as many entries as there were stores, or its capacity
/// where there were more; and it holds nothing that was not stored.
pub proof fn lemma_distinct_stores_fill_to_capacity(max_entries: nat, stores: Seq<StoreRequest>)
    requires
        forall|i: int, j: int|
            0 <= i < j < stores.len() ==> (#[trigger] stores[i]).key != (#[trigger] stores[j]).key,
    ensures
        ({
            let memory = after_stores(empty_memory(max_entries), stores);
            &&& memory.max_entries == max_entries
            &&& entries_sound(memory.entries)
            &&& memory.entries.len() == if stores.len() <= max_entries {
                stores.len()
            } else {
                max_entries
            }
            &&& forall|i: int|
                0 <= i < memory.entries.len() ==> stored_by(#[trigger] memory.entries[i], stores)
        }),
    decreases stores.len(),
{
    if stores.len() > 0 {
        let n = stores.len() as int;
        let earlier = stores.drop_last();
        let request = stores.last();
        assert forall|i: int| 0 <= i < earlier.len() implies #[trigger] earlier[i] == stores[i] by {}
        lemma_distinct_stores_fill_to_capacity(max_entries, earlier);
        let before = after_stores(empty_memory(max_entries), earlier);
        let held = before.entries;
        assert forall|k: int| 0 <= k < held.len() implies (#[trigger] held[k]).key()
            != request.key by {
            assert(stored_by(held[k], earlier));
            let j = choose|j: int| 0 <= j < earlier.len() && (#[trigger] earlier[j]).key == held[k].key();
            assert(earlier[j] == stores[j]);
            assert(stores[j].key != stores[n - 1].key);
        }
        lemma_find_key(held, request.key, held.len() as int);
        let grown = upsert(held, request.key, request.translated_text, request.at);
        assert(grown == held.push(fresh_entry(request)));
        lemma_upsert_keeps_entries_sound(held, request.key, request.translated_text, request.at);
        lemma_evict_keeps_entries_sound(grown, max_entries);
        lemma_evict_keeps_most_recent(grown, max_entries);
        let after = after_stores(empty_memory(max_entries), stores);
        assert(after.entries == evict(grown, max_entries));
        assert forall|i: int| 0 <= i < after.entries.len() implies stored_by(
            #[trigger] after.entries[i],
            stores,
        ) by {
            let entry = after.entries[i];
            assert(grown.contains(entry));
            let x = choose|x: int| 0 <= x < grown.len() && grown[x] == entry;
            if x < held.len() {
                assert(grown[x] == held[x]);
                assert(stored_by(held[x], earlier));
                let j = choose|j: int|
                    0 <= j < earlier.len() && (#[trigger] earlier[j]).key == held[x].key();
                assert(stores[j].key == entry.key());
            } else {
                assert(grown[x] == fresh_entry(request));
                assert(stores[n - 1].key == entry.key());
            }
        }
    } else {
        assert(after_stores(empty_memory(max_entries), stores).entries.len() == 0);
    }
}

/// Lookups do not change which key stands where.
pub proof fn lemma_lookups_keep_keys(memory: MemoryView, lookups: Seq<LookupRequest>)
    ensures
        after_lookups(memory, lookups).entries.len() == memory.entries.len(),
        forall|i: int|
            0 <= i < memory.entries.len() ==> (#[trigger] after_lookups(
                memory,
                lookups,
            ).entries[i]).key() == memory.entries[i].key(),
    decreases lookups.len(),
{
    if lookups.len() > 0 {
        lemma_lookups_keep_keys(memory, lookups.drop_last());
        let before = after_lookups(memory, lookups.drop_last());
        lemma_find_key_result(before.entries, lookups.last().key);
    }
}

/// Every lookup is counted, as a hit where the key is held and as a miss
/// where it is not, as long as the counter has room; so the hit rate is the
/// share of hits among all lookups made.
pub proof fn lemma_lookups_are_counted(memory: MemoryView, lookups: Seq<LookupRequest>)
    requires
        memory.total_lookups() + lookups.len() <= u64::MAX,
    ensures
        after_lookups(memory, lookups).hits == memory.hits + hits_among(memory, lookups),
        after_lookups(memory, lookups).misses == memory.misses + lookups.len() - hits_among(
            memory,
            lookups,
        ),
        after_lookups(memory, lookups).total_lookups() == memory.total_lookups() + lookups.len(),
        hits_among(memory, lookups) <= lookups.len(),
    decreases lookups.len(),
{
    if lookups.len() > 0 {
        let earlier = lookups.drop_last();
        lemma_lookups_are_counted(memory, earlier);
        lemma_lookups_keep_keys(memory, earlier);
        let before = after_lookups(memory, earlier);
        assert forall|i: int| 0 <= i < memory.entries.len() implies (#[trigger] memory.entries[i]).key()
            == before.entries[i].key() by {}
        lemma_find_key_by_keys(memory.entries, before.entries, lookups.last().key);
    }
}

/// Replacing an entry by one with the same key, accessed at least once,
/// leaves a cache well-formed.
pub proof fn lemma_update_keeps_well_formed(memory: MemoryView, i: int, entry: EntryView)
    requires
        memory.well_formed(),
        0 <= i < memory.entries.len(),
        entry.key() == memory.entries[i].key(),
        entry.access_count >= 1,
    ensures
        (MemoryView { entries: memory.entries.update(i, entry), ..memory }).well_formed(),
{
    let updated = memory.entries.update(i, entry);
    assert forall|a: int, b: int| 0 <= a < b < updated.len() implies (#[trigger] updated[a]).key()
        != (#[trigger] updated[b]).key() by {
        assert(updated[a].key() == memory.entries[a].key());
        assert(updated[b].key() == memory.entries[b].key());
    }
}

} // verus!
