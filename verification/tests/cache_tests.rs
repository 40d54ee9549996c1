//! The input cache: deterministic file names, misses, hits after writes.

use arrive::cache::{cache_file_name, Entry, InputCache};

#[test]
fn file_names_zero_pad_the_day() {
    assert_eq!(cache_file_name(2015, 1), "2015_01.txt");
    assert_eq!(cache_file_name(2023, 25), "2023_25.txt");
    assert_eq!(cache_file_name(2024, 9), "2024_09.txt");
}

#[test]
fn fresh_cache_misses_with_target_name() {
    let cache = InputCache::new();
    match cache.fetch(2023, 5) {
        Entry::Missing(path) => assert_eq!(path, "2023_05.txt"),
        Entry::Cached(_) => panic!("a fresh cache cannot hit"),
    }
}

#[test]
fn write_then_fetch_hits_with_same_content() {
    let mut cache = InputCache::new();
    cache.force_write(2023, 5, "puzzle input\n");
    match cache.fetch(2023, 5) {
        Entry::Cached(content) => assert_eq!(content, "puzzle input\n"),
        Entry::Missing(_) => panic!("a written pair must hit"),
    }
    match cache.fetch(2023, 5) {
        Entry::Cached(content) => assert_eq!(content, "puzzle input\n"),
        Entry::Missing(_) => panic!("a hit must stay a hit"),
    }
}

#[test]
fn other_pairs_still_miss() {
    let mut cache = InputCache::new();
    cache.force_write(2023, 5, "stored");
    match cache.fetch(2023, 6) {
        Entry::Missing(path) => assert_eq!(path, "2023_06.txt"),
        Entry::Cached(_) => panic!("an unwritten pair cannot hit"),
    }
    match cache.fetch(2022, 5) {
        Entry::Missing(path) => assert_eq!(path, "2022_05.txt"),
        Entry::Cached(_) => panic!("an unwritten pair cannot hit"),
    }
}

#[test]
fn force_write_overwrites() {
    let mut cache = InputCache::new();
    cache.force_write(2023, 5, "old");
    cache.force_write(2023, 5, "new");
    match cache.fetch(2023, 5) {
        Entry::Cached(content) => assert_eq!(content, "new"),
        Entry::Missing(_) => panic!("a written pair must hit"),
    }
}
