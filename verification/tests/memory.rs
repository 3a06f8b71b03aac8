use translation_fiesta_rust::clock::{elapsed_micros, micros_within_u64};
use translation_fiesta_rust::memory::TranslationMemory;
use translation_fiesta_rust::models::MemoryEntry;

fn entry(source: &str, translated: &str, last_accessed: i64) -> MemoryEntry {
    MemoryEntry {
        source_text: source.to_string(),
        translated_text: translated.to_string(),
        source_language: "en".to_string(),
        target_language: "ja".to_string(),
        provider_id: "google_unofficial".to_string(),
        access_count: 1,
        created_at: last_accessed,
        last_accessed,
    }
}

fn sources(entries: &[MemoryEntry]) -> Vec<String> {
    entries.iter().map(|entry| entry.source_text.clone()).collect()
}

#[test]
fn stores_and_reads_translation_entries() {
    let mut memory = TranslationMemory::new(100);

    memory.store(
        "hello",
        "\u{3053}\u{3093}\u{306b}\u{3061}\u{306f}",
        "en",
        "ja",
        "google_unofficial",
    );
    let hit = memory.lookup("hello", "en", "ja", "google_unofficial");

    assert_eq!(hit.as_deref(), Some("\u{3053}\u{3093}\u{306b}\u{3061}\u{306f}"));

    let stats = memory.stats();
    assert_eq!(stats.total_entries, 1);
    assert_eq!(stats.total_hits, 1);
}

#[test]
fn a_new_cache_is_empty() {
    let memory = TranslationMemory::new(3);
    assert_eq!(memory.max_entries(), 3);
    assert_eq!(memory.len(), 0);
    let stats = memory.stats();
    assert_eq!(stats.total_entries, 0);
    assert_eq!(stats.max_entries, 3);
    assert_eq!(stats.total_hits, 0);
    assert_eq!(stats.total_misses, 0);
    assert_eq!(stats.total_lookups, 0);
    assert_eq!(stats.hit_rate_ppm, 0);
    assert_eq!(stats.avg_lookup_micros, 0);
}

#[test]
fn lookup_of_a_stored_key_returns_the_text_and_counts() {
    let mut memory = TranslationMemory::new(10);
    memory.store_at("hello", "hallo", "en", "de", "google_unofficial", 1_000);
    let found = memory.lookup_at("hello", "en", "de", "google_unofficial", 2_000, 250);
    assert_eq!(found, Some("hallo".to_string()));

    let entries = memory.entries();
    assert_eq!(entries.len(), 1);
    assert_eq!(entries[0].access_count, 2);
    assert_eq!(entries[0].created_at, 1_000);
    assert_eq!(entries[0].last_accessed, 2_000);

    let stats = memory.stats();
    assert_eq!(stats.total_hits, 1);
    assert_eq!(stats.total_misses, 0);
    assert_eq!(stats.total_lookups, 1);
    assert_eq!(stats.total_lookup_micros, 250);
    assert_eq!(stats.hit_rate_ppm, 1_000_000);
    assert_eq!(stats.avg_lookup_micros, 250);
}

#[test]
fn lookup_of_a_missing_key_counts_a_miss() {
    let mut memory = TranslationMemory::new(10);
    memory.store_at("hello", "hallo", "en", "de", "google_unofficial", 1_000);
    assert_eq!(memory.lookup_at("hello", "en", "fr", "google_unofficial", 2_000, 10), None);
    assert_eq!(memory.lookup_at("hello", "de", "de", "google_unofficial", 2_000, 10), None);
    assert_eq!(memory.lookup_at("hello", "en", "de", "other", 2_000, 10), None);
    assert_eq!(memory.lookup_at("hello ", "en", "de", "google_unofficial", 2_000, 10), None);
    let stats = memory.stats();
    assert_eq!(stats.total_hits, 0);
    assert_eq!(stats.total_misses, 4);
    assert_eq!(stats.total_lookups, 4);
    assert_eq!(stats.hit_rate_ppm, 0);
    assert_eq!(memory.entries()[0].access_count, 1);
}

#[test]
fn keys_do_not_collide_when_a_field_holds_a_colon() {
    let mut memory = TranslationMemory::new(10);
    memory.store_at("b:c", "first", "en", "a", "p", 1);
    memory.store_at("c", "second", "en", "a:b", "p", 2);
    assert_eq!(memory.len(), 2);
    assert_eq!(memory.lookup_at("b:c", "en", "a", "p", 3, 0), Some("first".to_string()));
    assert_eq!(memory.lookup_at("c", "en", "a:b", "p", 3, 0), Some("second".to_string()));
}

#[test]
fn storing_a_key_again_replaces_the_text() {
    let mut memory = TranslationMemory::new(10);
    memory.store_at("hello", "hallo", "en", "de", "google_unofficial", 1_000);
    memory.store_at("hello", "guten tag", "en", "de", "google_unofficial", 5_000);
    let entries = memory.entries();
    assert_eq!(entries.len(), 1);
    assert_eq!(entries[0].translated_text, "guten tag");
    assert_eq!(entries[0].access_count, 2);
    assert_eq!(entries[0].created_at, 1_000);
    assert_eq!(entries[0].last_accessed, 5_000);
}

#[test]
fn hit_rate_is_hits_over_lookups() {
    let mut memory = TranslationMemory::new(10);
    memory.store_at("a", "A", "en", "ja", "p", 1);
    for time in 0..3 {
        assert!(memory.lookup_at("a", "en", "ja", "p", 10 + time, 100).is_some());
    }
    for time in 0..5 {
        assert!(memory.lookup_at("missing", "en", "ja", "p", 20 + time, 300).is_none());
    }
    let stats = memory.stats();
    assert_eq!(stats.total_hits, 3);
    assert_eq!(stats.total_misses, 5);
    assert_eq!(stats.total_lookups, 8);
    assert_eq!(stats.hit_rate_ppm, 375_000);
    assert_eq!(stats.total_lookup_micros, 1_800);
    assert_eq!(stats.avg_lookup_micros, 225);
}

#[test]
fn capacity_keeps_the_most_recent_entries() {
    let mut memory = TranslationMemory::new(3);
    for (time, text) in ["one", "two", "three", "four", "five"].iter().enumerate() {
        memory.store_at(text, "x", "en", "ja", "p", 100 + time as i64);
    }
    assert_eq!(memory.len(), 3);
    assert_eq!(sources(&memory.entries()), vec!["three", "four", "five"]);
}

#[test]
fn a_lookup_saves_an_entry_from_eviction() {
    let mut memory = TranslationMemory::new(2);
    memory.store_at("old", "x", "en", "ja", "p", 1);
    memory.store_at("newer", "x", "en", "ja", "p", 2);
    assert!(memory.lookup_at("old", "en", "ja", "p", 3, 0).is_some());
    memory.store_at("newest", "x", "en", "ja", "p", 4);
    assert_eq!(sources(&memory.entries()), vec!["old", "newest"]);
}

#[test]
fn of_entries_accessed_at_the_same_time_the_first_leaves() {
    let mut memory = TranslationMemory::new(2);
    memory.store_at("a", "x", "en", "ja", "p", 7);
    memory.store_at("b", "x", "en", "ja", "p", 7);
    memory.store_at("c", "x", "en", "ja", "p", 7);
    assert_eq!(sources(&memory.entries()), vec!["b", "c"]);
}

#[test]
fn a_cache_without_room_keeps_nothing() {
    let mut memory = TranslationMemory::new(0);
    memory.store_at("a", "x", "en", "ja", "p", 7);
    assert_eq!(memory.len(), 0);
    assert_eq!(memory.lookup_at("a", "en", "ja", "p", 8, 0), None);
}

#[test]
fn clear_removes_entries_and_resets_counters() {
    let mut memory = TranslationMemory::new(5);
    memory.store_at("a", "x", "en", "ja", "p", 1);
    memory.lookup_at("a", "en", "ja", "p", 2, 5);
    memory.lookup_at("b", "en", "ja", "p", 3, 5);
    memory.clear();
    let stats = memory.stats();
    assert_eq!(stats.total_entries, 0);
    assert_eq!(stats.max_entries, 5);
    assert_eq!(stats.total_hits, 0);
    assert_eq!(stats.total_misses, 0);
    assert_eq!(stats.total_lookups, 0);
    assert_eq!(stats.total_lookup_micros, 0);
    assert_eq!(stats.hit_rate_ppm, 0);
    assert!(memory.entries().is_empty());
}

#[test]
fn search_matches_source_or_translation_most_recent_first() {
    let mut memory = TranslationMemory::new(10);
    memory.store_at("good morning", "guten morgen", "en", "de", "p", 10);
    memory.store_at("good night", "gute nacht", "en", "de", "p", 30);
    memory.store_at("hello", "guten tag", "en", "de", "p", 20);
    memory.store_at("bye", "tschuess", "en", "de", "p", 40);

    assert_eq!(sources(&memory.search("good", 10)), vec!["good night", "good morning"]);
    assert_eq!(
        sources(&memory.search("guten", 10)),
        vec!["hello", "good morning"]
    );
    assert_eq!(
        sources(&memory.search("g", 2)),
        vec!["good night", "hello"]
    );
    assert!(memory.search("good", 0).is_empty());
    assert!(memory.search("absent", 10).is_empty());
}

#[test]
fn search_is_exact_about_case_and_wildcards() {
    let mut memory = TranslationMemory::new(10);
    memory.store_at("100% sure", "a_b", "en", "de", "p", 1);
    memory.store_at("Hello", "x", "en", "de", "p", 2);
    assert_eq!(sources(&memory.search("%", 10)), vec!["100% sure"]);
    assert_eq!(sources(&memory.search("_", 10)), vec!["100% sure"]);
    assert!(memory.search("hello", 10).is_empty());
    assert_eq!(sources(&memory.search("Hello", 10)), vec!["Hello"]);
    assert!(memory.search("\\", 10).is_empty());
}

#[test]
fn search_takes_the_query_as_it_stands() {
    let mut memory = TranslationMemory::new(10);
    memory.store_at("good morning", "x", "en", "de", "p", 1);
    memory.store_at("goodmorning", "y", "en", "de", "p", 2);
    assert_eq!(sources(&memory.search("d m", 10)), vec!["good morning"]);
    assert!(memory.search("  morning", 10).is_empty());
    assert!(memory.search("morning ", 10).is_empty());
    assert_eq!(sources(&memory.search(" ", 10)), vec!["good morning"]);
    assert_eq!(sources(&memory.search("", 10)), vec!["goodmorning", "good morning"]);
}

#[test]
fn search_does_not_touch_entries() {
    let mut memory = TranslationMemory::new(10);
    memory.store_at("a", "x", "en", "de", "p", 1);
    let found = memory.search("a", 10);
    assert_eq!(found, vec![entry("a", "x", 1)].into_iter().map(|mut e| { e.target_language = "de".to_string(); e.provider_id = "p".to_string(); e }).collect::<Vec<_>>());
    assert_eq!(memory.stats().total_lookups, 0);
}

#[test]
fn restore_rebuilds_a_cache_and_evicts_down_to_its_capacity() {
    let entries = vec![entry("a", "x", 30), entry("b", "x", 10), entry("c", "x", 20)];
    let memory = TranslationMemory::restore(entries, 2, 4, 6, 900).unwrap();
    assert_eq!(sources(&memory.entries()), vec!["a", "c"]);
    let stats = memory.stats();
    assert_eq!(stats.total_hits, 4);
    assert_eq!(stats.total_misses, 6);
    assert_eq!(stats.total_lookups, 10);
    assert_eq!(stats.hit_rate_ppm, 400_000);
    assert_eq!(stats.avg_lookup_micros, 90);
    assert_eq!(stats.max_entries, 2);
}

#[test]
fn restore_refuses_parts_that_fit_no_cache() {
    assert!(TranslationMemory::restore(vec![entry("a", "x", 1), entry("a", "y", 2)], 5, 0, 0, 0).is_none());
    let mut never_accessed = entry("a", "x", 1);
    never_accessed.access_count = 0;
    assert!(TranslationMemory::restore(vec![never_accessed], 5, 0, 0, 0).is_none());
    assert!(TranslationMemory::restore(Vec::new(), 5, u64::MAX, 1, 0).is_none());
    assert!(TranslationMemory::restore(Vec::new(), 5, u64::MAX, 0, 0).is_some());
}

#[test]
fn counters_stop_when_they_are_full() {
    let mut memory = TranslationMemory::restore(vec![entry("a", "x", 1)], 5, u64::MAX - 1, 0, u64::MAX - 5).unwrap();
    memory.lookup_at("a", "en", "ja", "google_unofficial", 2, 100);
    let stats = memory.stats();
    assert_eq!(stats.total_hits, u64::MAX);
    assert_eq!(stats.total_lookup_micros, u64::MAX);
    memory.lookup_at("missing", "en", "ja", "google_unofficial", 3, 100);
    let stats = memory.stats();
    assert_eq!(stats.total_hits, u64::MAX);
    assert_eq!(stats.total_misses, 0);
    assert_eq!(stats.total_lookups, u64::MAX);
}

#[test]
fn lookup_times_are_held_as_far_as_the_counter_goes() {
    assert_eq!(micros_within_u64(0), 0);
    assert_eq!(micros_within_u64(1_500), 1_500);
    assert_eq!(micros_within_u64(u64::MAX as u128), u64::MAX);
    assert_eq!(micros_within_u64(u64::MAX as u128 + 1), u64::MAX);
    assert_eq!(micros_within_u64(u128::MAX), u64::MAX);
    let started = std::time::Instant::now();
    let first = elapsed_micros(&started);
    let second = elapsed_micros(&started);
    assert!(second >= first);
}

#[test]
fn time_spent_outside_the_cache_is_added_to_the_lookup_time() {
    let mut memory = TranslationMemory::new(5);
    memory.lookup_at("a", "en", "ja", "p", 1, 100);
    memory.add_lookup_time(900);
    let stats = memory.stats();
    assert_eq!(stats.total_lookup_micros, 1_000);
    assert_eq!(stats.total_lookups, 1);
    assert_eq!(stats.avg_lookup_micros, 1_000);
    memory.add_lookup_time(u64::MAX);
    assert_eq!(memory.stats().total_lookup_micros, u64::MAX);
}
