//! The cache-aside store: three idempotent read operations over a pluggable
//! key-value cache and a pluggable external metadata source. Each operation
//! consults the cache first and, on a miss, asks the source, writes the
//! encoded answer back under a deterministic key, and returns it.

use vstd::prelude::*;
use vstd::string::StringExecFns;

use crate::codec::{
    decode_relationships, decode_song, decode_songs, encode_relationships, encode_song,
    encode_songs, lemma_relationships_round_trip, lemma_song_round_trip, lemma_songs_round_trip,
    spec_dec_rel_list, spec_dec_song, spec_dec_song_list, spec_enc_rel_list, spec_enc_song,
    spec_enc_song_list, valid_rels, valid_song, valid_songs,
};
use crate::keys::{
    lemma_key_kinds_disjoint, lemma_relationships_key_injective, lemma_search_key_injective,
    lemma_song_key_injective, relationships_key, search_key, song_key, spec_relationships_key,
    spec_search_key, spec_song_key,
};
use crate::models::{rel_views, song_views, Relationship, RelationshipView, SongData, SongDataView};
use crate::taxonomy::spec_is_relevant;

verus! {

/// Possible errors when consulting the store, tagged by which collaborator
/// failed: the upstream metadata source, the cache backend, or the cached
/// data itself.
#[derive(Debug, PartialEq)]
pub enum StateError {
    /// The external metadata source rejected, timed out, or failed.
    Upstream(String),
    /// The key-value cache backend failed.
    CacheBackend(String),
    /// A cached payload failed to decode into the expected shape.
    Data(String),
}

/// The key-value cache capability the store consumes: existence check,
/// read, write, and time-based expiry. The cache's contents are modelled
/// as a map from keys to byte strings.
pub trait Cache {
    /// The current contents of the cache. An implementation outside the
    /// verified world may leave the default, empty model.
    open spec fn model(&self) -> Map<Seq<char>, Seq<u8>> {
        Map::empty()
    }

    /// Whether `key` currently holds a value.
    fn contains(&mut self, key: &str) -> (r: Result<bool, StateError>)
        ensures
            final(self).model() == old(self).model(),
            r matches Ok(b) ==> b == old(self).model().contains_key(key@),
            r matches Err(e) ==> e is CacheBackend,
    ;

    /// The bytes stored under `key`.
    fn get(&mut self, key: &str) -> (r: Result<Vec<u8>, StateError>)
        ensures
            final(self).model() == old(self).model(),
            r matches Ok(v) ==> old(self).model().contains_key(key@) && v@ == old(
                self,
            ).model()[key@],
            r matches Err(e) ==> e is CacheBackend,
    ;

    /// Store `value` under `key`.
    fn put(&mut self, key: &str, value: &[u8]) -> (r: Result<(), StateError>)
        ensures
            r matches Ok(u) ==> final(self).model() == old(self).model().insert(key@, value@),
            r matches Err(e) ==> e is CacheBackend,
    ;

    /// Let `key` expire after `seconds`. Expiry is owned by the backend;
    /// it does not change what the key holds now.
    fn expire(&mut self, key: &str, seconds: u64) -> (r: Result<(), StateError>)
        ensures
            r matches Ok(u) ==> final(self).model() == old(self).model(),
            r matches Err(e) ==> e is CacheBackend,
    ;
}

/// The external metadata-source capability the store consumes: song lookup,
/// raw relationship lookup, and text search. The source is modelled by the
/// songs and raw relationship lists it can answer with, and by what each
/// search query returns; a call may always fail, but a success answers
/// exactly from the model, and no call changes the model.
pub trait DataSource {
    /// The songs the source can answer with, by id. An implementation
    /// outside the verified world may leave the default, empty model.
    open spec fn songs(&self) -> Map<u32, SongDataView> {
        Map::empty()
    }

    /// The raw relationship lists the source can answer with, by song id:
    /// all relationship kinds, unfiltered. An implementation outside the
    /// verified world may leave the default, empty model.
    open spec fn relationships(&self) -> Map<u32, Seq<RelationshipView>> {
        Map::empty()
    }

    /// What a successful search for `query` returns. An implementation
    /// outside the verified world may leave the default, empty model.
    open spec fn search_results(&self, query: Seq<char>) -> Seq<SongDataView> {
        Seq::empty()
    }

    /// Fetch one song record by id.
    fn fetch_song(&mut self, id: u32) -> (r: Result<SongData, StateError>)
        ensures
            final(self).songs() == old(self).songs(),
            final(self).relationships() == old(self).relationships(),
            forall|q: Seq<char>| #[trigger]
                final(self).search_results(q) == old(self).search_results(q),
            r matches Ok(s) ==> old(self).songs().contains_key(id) && s@ == old(self).songs()[id],
            r matches Err(e) ==> e is Upstream,
    ;

    /// Fetch the raw relationship list for a song id.
    fn fetch_relationships(&mut self, id: u32) -> (r: Result<Vec<Relationship>, StateError>)
        ensures
            final(self).songs() == old(self).songs(),
            final(self).relationships() == old(self).relationships(),
            forall|q: Seq<char>| #[trigger]
                final(self).search_results(q) == old(self).search_results(q),
            r matches Ok(v) ==> old(self).relationships().contains_key(id) && rel_views(v@) == old(
                self,
            ).relationships()[id],
            r matches Err(e) ==> e is Upstream,
    ;

    /// Search for songs by text query.
    fn fetch_search(&mut self, query: &str) -> (r: Result<Vec<SongData>, StateError>)
        ensures
            final(self).songs() == old(self).songs(),
            final(self).relationships() == old(self).relationships(),
            forall|q: Seq<char>| #[trigger]
                final(self).search_results(q) == old(self).search_results(q),
            r matches Ok(v) ==> song_views(v@) == old(self).search_results(query@),
            r matches Err(e) ==> e is Upstream,
    ;
}

/// The relationships the store surfaces: only the relevant kinds, in their
/// original order.
pub open spec fn spec_filter_relevant(rs: Seq<RelationshipView>) -> Seq<RelationshipView> {
    rs.filter(|r: RelationshipView| spec_is_relevant(r.relationship_type))
}

/// Keep only the relationships whose kind is relevant, in order.
pub fn filter_relevant(v: &Vec<Relationship>) -> (r: Vec<Relationship>)
    ensures
        rel_views(r@) == spec_filter_relevant(rel_views(v@)),
{
    let mut out: Vec<Relationship> = Vec::new();
    proof {
        reveal(Seq::filter);
        assert(rel_views(out@) =~= spec_filter_relevant(rel_views(v@).subrange(0, 0)));
    }
    let mut i: usize = 0;
    while i < v.len()
        invariant
            i <= v@.len(),
            rel_views(out@) == spec_filter_relevant(rel_views(v@).subrange(0, i as int)),
        decreases v@.len() - i,
    {
        let rel = &v[i];
        let keep = rel.relationship_type.is_relevant();
        if keep {
            out.push(rel.clone());
        }
        proof {
            reveal(Seq::filter);
            let rv = rel_views(v@);
            let pre = rv.subrange(0, i as int);
            let cur = rv.subrange(0, i + 1);
            assert(rv[i as int] == v@[i as int]@);
            assert(cur.drop_last() =~= pre);
            assert(cur.last() == rv[i as int]);
            if keep {
                assert(rel_views(out@) =~= spec_filter_relevant(pre).push(rv[i as int]));
            }
            assert(rel_views(out@) =~= spec_filter_relevant(cur));
        }
        i = i + 1;
    }
    proof {
        assert(rel_views(v@).subrange(0, v@.len() as int) =~= rel_views(v@));
    }
    out
}

/// The cache-aside store: a cache, a fallback metadata source, and the
/// expiry given to every key the store writes.
pub struct Store<C: Cache, S: DataSource> {
    /// The key-value cache consulted first.
    pub cache: C,
    /// The metadata source consulted on a cache miss.
    pub source: S,
    /// How long written keys live, in seconds.
    pub key_expiry: u64,
}

impl<C: Cache, S: DataSource> Store<C, S> {
    /// Create a new store.
    pub fn new(cache: C, source: S, key_expiry: u64) -> (r: Self)
        ensures
            r.cache == cache,
            r.source == source,
            r.key_expiry == key_expiry,
    {
        Store { cache, source, key_expiry }
    }

    /// What a successful `song(id)` returns: the decoded cached payload if
    /// the key is cached, else the source's record.
    pub open spec fn effective_song(self, id: u32) -> Option<SongDataView> {
        if self.cache.model().contains_key(spec_song_key(id)) {
            spec_dec_song(self.cache.model()[spec_song_key(id)])
        } else if self.source.songs().contains_key(id) {
            Some(self.source.songs()[id])
        } else {
            None
        }
    }

    /// What a successful `relationships(id)` returns: the decoded cached
    /// payload if the key is cached, else the source's list filtered to the
    /// relevant kinds.
    pub open spec fn effective_relationships(self, id: u32) -> Option<Seq<RelationshipView>> {
        if self.cache.model().contains_key(spec_relationships_key(id)) {
            spec_dec_rel_list(self.cache.model()[spec_relationships_key(id)])
        } else if self.source.relationships().contains_key(id) {
            Some(spec_filter_relevant(self.source.relationships()[id]))
        } else {
            None
        }
    }

    /// What a successful `search(query)` returns: the decoded cached
    /// payload if the key is cached, else the source's results.
    pub open spec fn effective_search(self, query: Seq<char>) -> Option<Seq<SongDataView>> {
        if self.cache.model().contains_key(spec_search_key(query)) {
            spec_dec_song_list(self.cache.model()[spec_search_key(query)])
        } else {
            Some(self.source.search_results(query))
        }
    }

    /// All three effective views are unchanged between two store states.
    pub open spec fn preserves_views(pre: Self, post: Self) -> bool {
        &&& forall|x: u32| #[trigger] post.effective_song(x) == pre.effective_song(x)
        &&& forall|x: u32| #[trigger]
            post.effective_relationships(x) == pre.effective_relationships(x)
        &&& forall|q: Seq<char>| #[trigger] post.effective_search(q) == pre.effective_search(q)
    }

    /// Return song data for a particular song, consulting and populating
    /// the cache.
    pub fn song(&mut self, id: u32) -> (r: Result<SongData, StateError>)
        ensures
            final(self).source.songs() == old(self).source.songs(),
            final(self).source.relationships() == old(self).source.relationships(),
            forall|q: Seq<char>| #[trigger]
                final(self).source.search_results(q) == old(self).source.search_results(q),
            final(self).key_expiry == old(self).key_expiry,
            r matches Ok(s) ==> {
                &&& old(self).effective_song(id) == Some(s@)
                &&& Self::preserves_views(*old(self), *final(self))
                &&& old(self).cache.model().contains_key(spec_song_key(id))
                    ==> final(self).cache.model() == old(self).cache.model()
                        && final(self).source == old(self).source
                &&& !old(self).cache.model().contains_key(spec_song_key(id))
                    ==> final(self).cache.model()
                        == old(self).cache.model().insert(spec_song_key(id), spec_enc_song(s@))
            },
            r matches Err(e) ==> {
                &&& e is Data ==> old(self).cache.model().contains_key(spec_song_key(id))
                    && spec_dec_song(old(self).cache.model()[spec_song_key(id)]) is None
                &&& e is Upstream ==> !old(self).cache.model().contains_key(spec_song_key(id))
            },
    {
        let key = song_key(id);
        let cached = match self.cache.contains(key.as_str()) {
            Ok(b) => b,
            Err(e) => {
                return Err(e);
            },
        };
        if cached {
            let data = match self.cache.get(key.as_str()) {
                Ok(v) => v,
                Err(e) => {
                    return Err(e);
                },
            };
            match decode_song(&data) {
                Some(s) => {
                    proof {
                        lemma_views_preserved(*old(self), *self);
                    }
                    Ok(s)
                },
                None => Err(StateError::Data(String::from_str("cached song did not decode"))),
            }
        } else {
            let s = match self.source.fetch_song(id) {
                Ok(s) => s,
                Err(e) => {
                    return Err(e);
                },
            };
            let bytes = encode_song(&s);
            match self.cache.put(key.as_str(), bytes.as_slice()) {
                Ok(u) => u,
                Err(e) => {
                    return Err(e);
                },
            };
            match self.cache.expire(key.as_str(), self.key_expiry) {
                Ok(u) => u,
                Err(e) => {
                    return Err(e);
                },
            };
            proof {
                lemma_song_round_trip(s@);
                lemma_song_views_after_insert(*old(self), *self, id, s@);
            }
            Ok(s)
        }
    }

    /// Return the relevant relationships of a particular song, consulting
    /// and populating the cache. The source's raw list is filtered to the
    /// relevant kinds before it is cached or returned.
    pub fn relationships(&mut self, id: u32) -> (r: Result<Vec<Relationship>, StateError>)
        ensures
            final(self).source.songs() == old(self).source.songs(),
            final(self).source.relationships() == old(self).source.relationships(),
            forall|q: Seq<char>| #[trigger]
                final(self).source.search_results(q) == old(self).source.search_results(q),
            final(self).key_expiry == old(self).key_expiry,
            r matches Ok(v) ==> {
                &&& old(self).effective_relationships(id) == Some(rel_views(v@))
                &&& Self::preserves_views(*old(self), *final(self))
                &&& old(self).cache.model().contains_key(spec_relationships_key(id))
                    ==> final(self).cache.model() == old(self).cache.model()
                        && final(self).source == old(self).source
                &&& !old(self).cache.model().contains_key(spec_relationships_key(id))
                    ==> final(self).cache.model()
                        == old(self).cache.model().insert(
                        spec_relationships_key(id),
                        spec_enc_rel_list(rel_views(v@)),
                    )
            },
            r matches Err(e) ==> {
                &&& e is Data ==> old(self).cache.model().contains_key(spec_relationships_key(id))
                    && spec_dec_rel_list(
                        old(self).cache.model()[spec_relationships_key(id)],
                    ) is None
                &&& e is Upstream ==> !old(self).cache.model().contains_key(
                    spec_relationships_key(id),
                )
            },
    {
        let key = relationships_key(id);
        let cached = match self.cache.contains(key.as_str()) {
            Ok(b) => b,
            Err(e) => {
                return Err(e);
            },
        };
        if cached {
            let data = match self.cache.get(key.as_str()) {
                Ok(v) => v,
                Err(e) => {
                    return Err(e);
                },
            };
            match decode_relationships(&data) {
                Some(v) => {
                    proof {
                        lemma_views_preserved(*old(self), *self);
                    }
                    Ok(v)
                },
                None => Err(
                    StateError::Data(String::from_str("cached relationships did not decode")),
                ),
            }
        } else {
            let raw = match self.source.fetch_relationships(id) {
                Ok(v) => v,
                Err(e) => {
                    return Err(e);
                },
            };
            let kept = filter_relevant(&raw);
            let bytes = encode_relationships(&kept);
            match self.cache.put(key.as_str(), bytes.as_slice()) {
                Ok(u) => u,
                Err(e) => {
                    return Err(e);
                },
            };
            match self.cache.expire(key.as_str(), self.key_expiry) {
                Ok(u) => u,
                Err(e) => {
                    return Err(e);
                },
            };
            proof {
                lemma_rels_views_after_insert(*old(self), *self, id, rel_views(kept@));
            }
            Ok(kept)
        }
    }

    /// Return the songs a text search finds, consulting and populating the
    /// cache. A query nothing matches returns an empty list, not an error.
    pub fn search(&mut self, query: &str) -> (r: Result<Vec<SongData>, StateError>)
        ensures
            final(self).source.songs() == old(self).source.songs(),
            final(self).source.relationships() == old(self).source.relationships(),
            forall|q: Seq<char>| #[trigger]
                final(self).source.search_results(q) == old(self).source.search_results(q),
            final(self).key_expiry == old(self).key_expiry,
            r matches Ok(v) ==> {
                &&& old(self).effective_search(query@) == Some(song_views(v@))
                &&& Self::preserves_views(*old(self), *final(self))
                &&& old(self).cache.model().contains_key(spec_search_key(query@))
                    ==> final(self).cache.model() == old(self).cache.model()
                        && final(self).source == old(self).source
                &&& !old(self).cache.model().contains_key(spec_search_key(query@))
                    ==> final(self).cache.model()
                        == old(self).cache.model().insert(
                        spec_search_key(query@),
                        spec_enc_song_list(song_views(v@)),
                    )
            },
            r matches Err(e) ==> {
                &&& e is Data ==> old(self).cache.model().contains_key(spec_search_key(query@))
                    && spec_dec_song_list(old(self).cache.model()[spec_search_key(query@)]) is None
                &&& e is Upstream ==> !old(self).cache.model().contains_key(
                    spec_search_key(query@),
                )
            },
    {
        let key = search_key(query);
        let cached = match self.cache.contains(key.as_str()) {
            Ok(b) => b,
            Err(e) => {
                return Err(e);
            },
        };
        if cached {
            let data = match self.cache.get(key.as_str()) {
                Ok(v) => v,
                Err(e) => {
                    return Err(e);
                },
            };
            match decode_songs(&data) {
                Some(v) => {
                    proof {
                        lemma_views_preserved(*old(self), *self);
                    }
                    Ok(v)
                },
                None => Err(
                    StateError::Data(String::from_str("cached search results did not decode")),
                ),
            }
        } else {
            let found = match self.source.fetch_search(query) {
                Ok(v) => v,
                Err(e) => {
                    return Err(e);
                },
            };
            let bytes = encode_songs(&found);
            match self.cache.put(key.as_str(), bytes.as_slice()) {
                Ok(u) => u,
                Err(e) => {
                    return Err(e);
                },
            };
            match self.cache.expire(key.as_str(), self.key_expiry) {
                Ok(u) => u,
                Err(e) => {
                    return Err(e);
                },
            };
            proof {
                lemma_search_views_after_insert(*old(self), *self, query@, song_views(found@));
            }
            Ok(found)
        }
    }

}

/// Two store states with the same cache contents and source models have the
/// same effective views.
proof fn lemma_views_preserved<C: Cache, S: DataSource>(pre: Store<C, S>, post: Store<C, S>)
    requires
        post.cache.model() == pre.cache.model(),
        post.source.songs() == pre.source.songs(),
        post.source.relationships() == pre.source.relationships(),
        forall|q: Seq<char>| #[trigger]
            post.source.search_results(q) == pre.source.search_results(q),
    ensures
        Store::preserves_views(pre, post),
{
}

/// Writing a freshly encoded song record under its own key preserves every
/// effective view: the entry now decodes to the value the source gave.
proof fn lemma_song_views_after_insert<C: Cache, S: DataSource>(
    pre: Store<C, S>,
    post: Store<C, S>,
    id: u32,
    s: SongDataView,
)
    requires
        valid_song(s),
        !pre.cache.model().contains_key(spec_song_key(id)),
        pre.source.songs().contains_key(id),
        s == pre.source.songs()[id],
        post.cache.model() == pre.cache.model().insert(spec_song_key(id), spec_enc_song(s)),
        post.source.songs() == pre.source.songs(),
        post.source.relationships() == pre.source.relationships(),
        forall|q: Seq<char>| #[trigger]
            post.source.search_results(q) == pre.source.search_results(q),
    ensures
        Store::preserves_views(pre, post),
{
    lemma_song_round_trip(s);
    assert forall|x: u32| #[trigger] post.effective_song(x) == pre.effective_song(x) by {
        if x == id {
        } else {
            if spec_song_key(x) == spec_song_key(id) {
                lemma_song_key_injective(x, id);
            }
        }
    }
    assert forall|x: u32| #[trigger]
        post.effective_relationships(x) == pre.effective_relationships(x) by {
        lemma_key_kinds_disjoint(id, x, Seq::empty());
    }
    assert forall|q: Seq<char>| #[trigger] post.effective_search(q) == pre.effective_search(q) by {
        lemma_key_kinds_disjoint(id, id, q);
    }
}


/// Writing a freshly encoded relationship list under its own key preserves
/// every effective view.
proof fn lemma_rels_views_after_insert<C: Cache, S: DataSource>(
    pre: Store<C, S>,
    post: Store<C, S>,
    id: u32,
    rs: Seq<RelationshipView>,
)
    requires
        valid_rels(rs),
        !pre.cache.model().contains_key(spec_relationships_key(id)),
        pre.source.relationships().contains_key(id),
        rs == spec_filter_relevant(pre.source.relationships()[id]),
        post.cache.model() == pre.cache.model().insert(
            spec_relationships_key(id),
            spec_enc_rel_list(rs),
        ),
        post.source.songs() == pre.source.songs(),
        post.source.relationships() == pre.source.relationships(),
        forall|q: Seq<char>| #[trigger]
            post.source.search_results(q) == pre.source.search_results(q),
    ensures
        Store::preserves_views(pre, post),
{
    lemma_relationships_round_trip(rs);
    assert forall|x: u32| #[trigger] post.effective_song(x) == pre.effective_song(x) by {
        lemma_key_kinds_disjoint(x, id, Seq::empty());
    }
    assert forall|x: u32| #[trigger]
        post.effective_relationships(x) == pre.effective_relationships(x) by {
        if x == id {
        } else {
            if spec_relationships_key(x) == spec_relationships_key(id) {
                lemma_relationships_key_injective(x, id);
            }
        }
    }
    assert forall|q: Seq<char>| #[trigger] post.effective_search(q) == pre.effective_search(q) by {
        lemma_key_kinds_disjoint(id, id, q);
    }
}

/// Writing a freshly encoded search-result list under its own key preserves
/// every effective view.
proof fn lemma_search_views_after_insert<C: Cache, S: DataSource>(
    pre: Store<C, S>,
    post: Store<C, S>,
    query: Seq<char>,
    vs: Seq<SongDataView>,
)
    requires
        valid_songs(vs),
        !pre.cache.model().contains_key(spec_search_key(query)),
        vs == pre.source.search_results(query),
        post.cache.model() == pre.cache.model().insert(
            spec_search_key(query),
            spec_enc_song_list(vs),
        ),
        post.source.songs() == pre.source.songs(),
        post.source.relationships() == pre.source.relationships(),
        forall|q: Seq<char>| #[trigger]
            post.source.search_results(q) == pre.source.search_results(q),
    ensures
        Store::preserves_views(pre, post),
{
    lemma_songs_round_trip(vs);
    assert forall|x: u32| #[trigger] post.effective_song(x) == pre.effective_song(x) by {
        lemma_key_kinds_disjoint(x, x, query);
    }
    assert forall|x: u32| #[trigger]
        post.effective_relationships(x) == pre.effective_relationships(x) by {
        lemma_key_kinds_disjoint(x, x, query);
    }
    assert forall|q: Seq<char>| #[trigger] post.effective_search(q) == pre.effective_search(q) by {
        if q == query {
        } else {
            if spec_search_key(q) == spec_search_key(query) {
                lemma_search_key_injective(q, query);
            }
        }
    }
}

/// Cache-aside idempotence: once a miss on a song id has written the record
/// the source answered with, the key is cached and decodes to that same
/// record, so a second read is a cache hit that returns the same value and
/// leaves the source untouched.
pub proof fn lemma_cache_aside_idempotent<C: Cache, S: DataSource>(
    pre: Store<C, S>,
    post: Store<C, S>,
    id: u32,
    s: SongDataView,
)
    requires
        valid_song(s),
        !pre.cache.model().contains_key(spec_song_key(id)),
        post.cache.model() == pre.cache.model().insert(spec_song_key(id), spec_enc_song(s)),
    ensures
        post.cache.model().contains_key(spec_song_key(id)),
        post.effective_song(id) == Some(s),
{
    lemma_song_round_trip(s);
}



/// A search that nothing matches is owed an empty answer, not an error:
/// when no entry is cached for the query and the source finds nothing, the
/// effective answer exists and is the empty sequence.
pub proof fn lemma_search_unmatched_is_empty<C: Cache, S: DataSource>(
    st: Store<C, S>,
    query: Seq<char>,
)
    requires
        !st.cache.model().contains_key(spec_search_key(query)),
        st.source.search_results(query) == Seq::<SongDataView>::empty(),
    ensures
        st.effective_search(query) == Some(Seq::<SongDataView>::empty()),
{
}

} // verus!
