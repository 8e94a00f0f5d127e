//! In-memory fixture implementations of the store's two capabilities: a
//! cache backed by a vector of entries and a metadata source backed by
//! in-memory tables. They satisfy the capability contracts exactly and
//! never fail, which makes the store's behaviour fully predictable in
//! tests; the source also counts how often it was consulted.

use std::collections::HashMap;

use vstd::prelude::*;
use vstd::slice::slice_to_vec;
use vstd::string::StringExecFns;

use crate::models::{rel_views, song_views, Relationship, RelationshipView, SongData, SongDataView};
use crate::store::{Cache, DataSource, StateError};
use crate::text::str_eq;

verus! {

broadcast use vstd::std_specs::hash::group_hash_axioms;

/// The map an entry list stands for; a later entry wins over an earlier
/// one with the same key.
pub open spec fn entries_map(es: Seq<(String, Vec<u8>)>) -> Map<Seq<char>, Seq<u8>>
    decreases es.len(),
{
    if es.len() == 0 {
        Map::empty()
    } else {
        entries_map(es.drop_last()).insert(es.last().0@, es.last().1@)
    }
}

/// A key that no entry carries is not in the entry map.
proof fn lemma_entries_map_absent(es: Seq<(String, Vec<u8>)>, k: Seq<char>)
    requires
        forall|j: int| 0 <= j < es.len() ==> (#[trigger] es[j]).0@ != k,
    ensures
        !entries_map(es).contains_key(k),
    decreases es.len(),
{
    if es.len() > 0 {
        assert(es.last() == es[es.len() - 1]);
        lemma_entries_map_absent(es.drop_last(), k);
    }
}

/// The entry map holds, under the key of the last entry that carries it,
/// that entry's bytes.
proof fn lemma_entries_map_found(es: Seq<(String, Vec<u8>)>, k: Seq<char>, j: int)
    requires
        0 <= j < es.len(),
        es[j].0@ == k,
        forall|m: int| j < m < es.len() ==> (#[trigger] es[m]).0@ != k,
    ensures
        entries_map(es).contains_key(k),
        entries_map(es)[k] == es[j].1@,
    decreases es.len(),
{
    assert(es.last() == es[es.len() - 1]);
    if j == es.len() - 1 {
    } else {
        assert(forall|m: int|
            j < m < es.drop_last().len() ==> (#[trigger] es.drop_last()[m]).0@ != k);
        lemma_entries_map_found(es.drop_last(), k, j);
    }
}

/// An in-memory cache: a growing list of key-value entries, the latest
/// entry for a key winning. It never fails and ignores expiry.
pub struct FixtureCache {
    /// The entries written so far, oldest first.
    pub entries: Vec<(String, Vec<u8>)>,
}

impl FixtureCache {
    /// Create an empty cache.
    pub fn new() -> (r: Self)
        ensures
            r.model() == Map::<Seq<char>, Seq<u8>>::empty(),
    {
        FixtureCache { entries: Vec::new() }
    }
}

impl Cache for FixtureCache {
    open spec fn model(&self) -> Map<Seq<char>, Seq<u8>> {
        entries_map(self.entries@)
    }

    fn contains(&mut self, key: &str) -> (r: Result<bool, StateError>)
        ensures
            r is Ok,
    {
        let mut i: usize = 0;
        while i < self.entries.len()
            invariant
                i <= self.entries@.len(),
                forall|j: int| 0 <= j < i ==> (#[trigger] self.entries@[j]).0@ != key@,
            decreases self.entries@.len() - i,
        {
            if str_eq(self.entries[i].0.as_str(), key) {
                proof {
                    lemma_last_match(self.entries@, key@, i as int);
                }
                return Ok(true);
            }
            i = i + 1;
        }
        proof {
            lemma_entries_map_absent(self.entries@, key@);
        }
        Ok(false)
    }

    fn get(&mut self, key: &str) -> (r: Result<Vec<u8>, StateError>)
        ensures
            r is Ok <==> old(self).model().contains_key(key@),
    {
        let mut i: usize = self.entries.len();
        while i > 0
            invariant
                i <= self.entries@.len(),
                forall|j: int| i <= j < self.entries@.len() ==> (#[trigger] self.entries@[j]).0@
                    != key@,
            decreases i,
        {
            i = i - 1;
            if str_eq(self.entries[i].0.as_str(), key) {
                proof {
                    lemma_entries_map_found(self.entries@, key@, i as int);
                }
                return Ok(slice_to_vec(self.entries[i].1.as_slice()));
            }
        }
        proof {
            lemma_entries_map_absent(self.entries@, key@);
        }
        Err(StateError::CacheBackend(String::from_str("key is not cached")))
    }

    fn put(&mut self, key: &str, value: &[u8]) -> (r: Result<(), StateError>)
        ensures
            r is Ok,
    {
        let entry = (String::from_str(key), slice_to_vec(value));
        proof {
            assert(self.entries@.push(entry).drop_last() =~= self.entries@);
        }
        self.entries.push(entry);
        Ok(())
    }

    fn expire(&mut self, key: &str, seconds: u64) -> (r: Result<(), StateError>)
        ensures
            r is Ok,
    {
        Ok(())
    }
}

/// Somewhere before `i` there is a match, so the key is in the map: the
/// last matching entry, wherever it is, witnesses it.
proof fn lemma_last_match(es: Seq<(String, Vec<u8>)>, k: Seq<char>, i: int)
    requires
        0 <= i < es.len(),
        es[i].0@ == k,
    ensures
        entries_map(es).contains_key(k),
    decreases es.len(),
{
    assert(es.last() == es[es.len() - 1]);
    if i < es.len() - 1 && es.last().0@ != k {
        lemma_last_match(es.drop_last(), k, i);
    }
}

/// The search table as a map from query to results.
pub open spec fn searches_map(es: Seq<(String, Vec<SongData>)>) -> Map<Seq<char>, Seq<SongDataView>>
    decreases es.len(),
{
    if es.len() == 0 {
        Map::empty()
    } else {
        searches_map(es.drop_last()).insert(es.last().0@, song_views(es.last().1@))
    }
}

/// A query that no table row carries is not in the search map.
proof fn lemma_searches_map_absent(es: Seq<(String, Vec<SongData>)>, k: Seq<char>)
    requires
        forall|j: int| 0 <= j < es.len() ==> (#[trigger] es[j]).0@ != k,
    ensures
        !searches_map(es).contains_key(k),
    decreases es.len(),
{
    if es.len() > 0 {
        assert(es.last() == es[es.len() - 1]);
        lemma_searches_map_absent(es.drop_last(), k);
    }
}

/// The search map holds, under the query of the last row that carries it,
/// that row's results.
proof fn lemma_searches_map_found(es: Seq<(String, Vec<SongData>)>, k: Seq<char>, j: int)
    requires
        0 <= j < es.len(),
        es[j].0@ == k,
        forall|m: int| j < m < es.len() ==> (#[trigger] es[m]).0@ != k,
    ensures
        searches_map(es).contains_key(k),
        searches_map(es)[k] == song_views(es[j].1@),
    decreases es.len(),
{
    assert(es.last() == es[es.len() - 1]);
    if j == es.len() - 1 {
    } else {
        assert(forall|m: int|
            j < m < es.drop_last().len() ==> (#[trigger] es.drop_last()[m]).0@ != k);
        lemma_searches_map_found(es.drop_last(), k, j);
    }
}

/// Copy a list of song records.
pub fn clone_songs(v: &Vec<SongData>) -> (r: Vec<SongData>)
    ensures
        r@ == v@,
{
    let mut out: Vec<SongData> = Vec::new();
    let mut i: usize = 0;
    while i < v.len()
        invariant
            i <= v@.len(),
            out@ == v@.subrange(0, i as int),
        decreases v@.len() - i,
    {
        out.push(v[i].clone());
        proof {
            assert(out@ =~= v@.subrange(0, i + 1));
        }
        i = i + 1;
    }
    proof {
        assert(v@.subrange(0, v@.len() as int) =~= v@);
    }
    out
}

/// Copy a list of relationships.
pub fn clone_relationships(v: &Vec<Relationship>) -> (r: Vec<Relationship>)
    ensures
        r@ == v@,
{
    let mut out: Vec<Relationship> = Vec::new();
    let mut i: usize = 0;
    while i < v.len()
        invariant
            i <= v@.len(),
            out@ == v@.subrange(0, i as int),
        decreases v@.len() - i,
    {
        out.push(v[i].clone());
        proof {
            assert(out@ =~= v@.subrange(0, i + 1));
        }
        i = i + 1;
    }
    proof {
        assert(v@.subrange(0, v@.len() as int) =~= v@);
    }
    out
}

/// An in-memory metadata source: song and relationship tables keyed by id,
/// a search table keyed by query, and a counter of how often it was
/// consulted. It never fails; a song or relationship lookup for an unknown
/// id reports an upstream error, and a search for an unknown query finds
/// nothing.
pub struct FixtureSource {
    /// Song records by id.
    pub songs: HashMap<u32, SongData>,
    /// Raw relationship lists by song id, all kinds, unfiltered.
    pub relationships: HashMap<u32, Vec<Relationship>>,
    /// Search results by query.
    pub searches: Vec<(String, Vec<SongData>)>,
    /// How many fetches this source has answered.
    pub calls: u64,
}

impl FixtureSource {
    /// Create a source over the given tables, with the call counter at
    /// zero.
    pub fn new(
        songs: HashMap<u32, SongData>,
        relationships: HashMap<u32, Vec<Relationship>>,
        searches: Vec<(String, Vec<SongData>)>,
    ) -> (r: Self)
        ensures
            r.songs == songs,
            r.relationships == relationships,
            r.searches == searches,
            r.calls == 0,
    {
        FixtureSource { songs, relationships, searches, calls: 0 }
    }

    /// How many fetches this source has answered.
    pub fn call_count(&self) -> (r: u64)
        ensures
            r == self.calls,
    {
        self.calls
    }

    fn count_call(&mut self)
        ensures
            final(self).songs == old(self).songs,
            final(self).relationships == old(self).relationships,
            final(self).searches == old(self).searches,
            final(self).calls == if old(self).calls < u64::MAX {
                old(self).calls + 1
            } else {
                old(self).calls as int
            },
    {
        if self.calls < u64::MAX {
            self.calls = self.calls + 1;
        }
    }
}

impl DataSource for FixtureSource {
    open spec fn songs(&self) -> Map<u32, SongDataView> {
        self.songs@.map_values(|s: SongData| s@)
    }

    open spec fn relationships(&self) -> Map<u32, Seq<RelationshipView>> {
        self.relationships@.map_values(|v: Vec<Relationship>| rel_views(v@))
    }

    open spec fn search_results(&self, query: Seq<char>) -> Seq<SongDataView> {
        if searches_map(self.searches@).contains_key(query) {
            searches_map(self.searches@)[query]
        } else {
            Seq::empty()
        }
    }

    fn fetch_song(&mut self, id: u32) -> (r: Result<SongData, StateError>)
        ensures
            r is Ok <==> old(self).songs().contains_key(id),
    {
        self.count_call();
        match self.songs.get(&id) {
            Some(s) => Ok(s.clone()),
            None => Err(StateError::Upstream(String::from_str("no song with that id"))),
        }
    }

    fn fetch_relationships(&mut self, id: u32) -> (r: Result<Vec<Relationship>, StateError>)
        ensures
            r is Ok <==> old(self).relationships().contains_key(id),
    {
        self.count_call();
        match self.relationships.get(&id) {
            Some(v) => Ok(clone_relationships(v)),
            None => Err(StateError::Upstream(String::from_str("no relationships for that id"))),
        }
    }

    fn fetch_search(&mut self, query: &str) -> (r: Result<Vec<SongData>, StateError>)
        ensures
            r is Ok,
    {
        self.count_call();
        let mut i: usize = self.searches.len();
        while i > 0
            invariant
                self.songs == old(self).songs,
                self.relationships == old(self).relationships,
                self.searches == old(self).searches,
                i <= self.searches@.len(),
                forall|j: int| i <= j < self.searches@.len() ==> (#[trigger] self.searches@[j]).0@
                    != query@,
            decreases i,
        {
            i = i - 1;
            if str_eq(self.searches[i].0.as_str(), query) {
                proof {
                    lemma_searches_map_found(self.searches@, query@, i as int);
                }
                return Ok(clone_songs(&self.searches[i].1));
            }
        }
        proof {
            lemma_searches_map_absent(self.searches@, query@);
            assert(song_views(Seq::<SongData>::empty()) =~= Seq::<SongDataView>::empty());
        }
        Ok(Vec::new())
    }
}

} // verus!
