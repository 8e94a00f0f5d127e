//! Tests for the cache-aside store over the in-memory fixtures: hits,
//! misses, write-back, filtering, and the error taxonomy.

use std::collections::HashMap;

use sample_graph::fixture::{FixtureCache, FixtureSource};
use sample_graph::store::{Cache, DataSource, Store};
use sample_graph::{Relationship, RelationshipType, SongData, StateError};

fn song(id: u32, title: &str, artist: &str) -> SongData {
    SongData::new(id, title.to_string(), artist.to_string())
}

fn fixture_store() -> Store<FixtureCache, FixtureSource> {
    let songs = HashMap::from([
        (1, song(1, "Foobar", "The Sillys")),
        (2, song(2, "Barfoo", "The Seriouses")),
        (3, song(3, "Barfoo 2", "Even More Serious")),
    ]);
    let relationships = HashMap::from([
        (1, vec![
            Relationship::new(RelationshipType::Samples, song(2, "Barfoo", "The Seriouses")),
            Relationship::new(RelationshipType::RemixOf, song(3, "Barfoo 2", "Even More Serious")),
        ]),
        (2, vec![]),
    ]);
    let searches = vec![
        ("foobar".to_string(), vec![song(1, "Foobar", "The Sillys")]),
        ("testing".to_string(), vec![]),
    ];
    Store::new(FixtureCache::new(), FixtureSource::new(songs, relationships, searches), 100)
}

#[test]
fn test_store_song_miss_then_hit() {
    let mut store = fixture_store();
    let first = store.song(1).expect("first read should succeed");
    assert_eq!(first, song(1, "Foobar", "The Sillys"));
    assert_eq!(store.source.call_count(), 1);
    let second = store.song(1).expect("second read should succeed");
    assert_eq!(second, first);
    assert_eq!(
        store.source.call_count(),
        1,
        "the second read must be served from the cache without consulting the source"
    );
}

#[test]
fn test_store_song_writes_back_under_its_key() {
    let mut store = fixture_store();
    let s = store.song(2).expect("read should succeed");
    let cached = store
        .cache
        .entries
        .iter()
        .find(|(k, _)| k == "song/2")
        .expect("the record must be cached under its key")
        .1
        .clone();
    assert_eq!(cached, sample_graph::codec::encode_song(&s));
}

#[test]
fn test_store_song_unknown_id_is_upstream_error() {
    let mut store = fixture_store();
    match store.song(999) {
        Err(StateError::Upstream(_)) => {},
        other => panic!("expected an upstream error, got {:?}", other),
    }
}

#[test]
fn test_store_song_corrupt_cache_is_data_error() {
    let mut store = fixture_store();
    store.cache.entries.push(("song/1".to_string(), vec![1, 2, 3]));
    match store.song(1) {
        Err(StateError::Data(_)) => {},
        other => panic!("expected a data error, got {:?}", other),
    }
}

#[test]
fn test_store_relationships_filters_before_caching() {
    let mut store = fixture_store();
    let rels = store.relationships(1).expect("read should succeed");
    assert_eq!(rels, vec![Relationship::new(
        RelationshipType::Samples,
        song(2, "Barfoo", "The Seriouses"),
    )]);
    let cached = store
        .cache
        .entries
        .iter()
        .find(|(k, _)| k == "relationships/1")
        .expect("the filtered list must be cached")
        .1
        .clone();
    assert_eq!(sample_graph::codec::decode_relationships(&cached), Some(rels));
}

#[test]
fn test_store_relationships_second_read_from_cache() {
    let mut store = fixture_store();
    let first = store.relationships(1).expect("first read should succeed");
    let calls = store.source.call_count();
    let second = store.relationships(1).expect("second read should succeed");
    assert_eq!(second, first);
    assert_eq!(store.source.call_count(), calls);
}

#[test]
fn test_store_relationships_empty_list() {
    let mut store = fixture_store();
    assert_eq!(store.relationships(2).expect("read should succeed"), vec![]);
}

#[test]
fn test_store_search_hit_and_write_back() {
    let mut store = fixture_store();
    let found = store.search("foobar").expect("search should succeed");
    assert_eq!(found, vec![song(1, "Foobar", "The Sillys")]);
    assert!(store.cache.entries.iter().any(|(k, _)| k == "search/foobar"));
    let again = store.search("foobar").expect("search should succeed");
    assert_eq!(again, found);
}

#[test]
fn test_store_search_no_match_is_empty_not_error() {
    let mut store = fixture_store();
    assert_eq!(store.search("does not exist").expect("search must not fail"), vec![]);
    assert_eq!(store.search("testing").expect("search must not fail"), vec![]);
}

#[test]
fn test_fixture_cache_get_missing_key_is_cache_error() {
    let mut cache = FixtureCache::new();
    match cache.get("song/1") {
        Err(StateError::CacheBackend(_)) => {},
        other => panic!("expected a cache error, got {:?}", other),
    }
}

#[test]
fn test_fixture_cache_last_write_wins() {
    let mut cache = FixtureCache::new();
    cache.put("k", &[1]).unwrap();
    cache.put("k", &[2]).unwrap();
    assert_eq!(cache.contains("k"), Ok(true));
    assert_eq!(cache.get("k"), Ok(vec![2]));
    assert_eq!(cache.contains("missing"), Ok(false));
}

#[test]
fn test_fixture_source_counts_calls() {
    let mut source = FixtureSource::new(HashMap::new(), HashMap::new(), vec![]);
    assert_eq!(source.call_count(), 0);
    let _ = source.fetch_search("anything");
    let _ = source.fetch_song(1);
    assert_eq!(source.call_count(), 2);
}
