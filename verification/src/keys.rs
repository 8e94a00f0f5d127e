//! Deterministic cache keys, one per store operation and argument. The key
//! scheme is part of the persisted state layout and must stay bit-exact:
//! `song/<id>`, `relationships/<id>`, `search/<query>`.

use vstd::prelude::*;
use vstd::string::StringExecFns;

use crate::decimal::{lemma_decimal_injective, lemma_decimal_len, push_decimal, spec_decimal};

verus! {

/// The cache key under which song data for `id` is stored.
pub open spec fn spec_song_key(id: u32) -> Seq<char> {
    "song/"@ + spec_decimal(id as nat)
}

/// The cache key under which the relationship list for `id` is stored.
pub open spec fn spec_relationships_key(id: u32) -> Seq<char> {
    "relationships/"@ + spec_decimal(id as nat)
}

/// The cache key under which the search results for `query` are stored.
pub open spec fn spec_search_key(query: Seq<char>) -> Seq<char> {
    "search/"@ + query
}

/// Return the cache key for song data.
pub fn song_key(id: u32) -> (r: String)
    ensures
        r@ == spec_song_key(id),
{
    let mut s = String::from_str("song/");
    push_decimal(&mut s, id);
    s
}

/// Return the cache key for relationship data about a song.
pub fn relationships_key(id: u32) -> (r: String)
    ensures
        r@ == spec_relationships_key(id),
{
    let mut s = String::from_str("relationships/");
    push_decimal(&mut s, id);
    s
}

/// Return the cache key for search results for a search query.
pub fn search_key(query: &str) -> (r: String)
    ensures
        r@ == spec_search_key(query@),
{
    let mut s = String::from_str("search/");
    s.append(query);
    s
}

/// Appending to a common prefix is injective.
proof fn lemma_prefix_cancel(p: Seq<char>, x: Seq<char>, y: Seq<char>)
    requires
        p + x == p + y,
    ensures
        x == y,
{
    assert((p + x).len() == (p + y).len());
    assert((p + x).len() == p.len() + x.len());
    assert((p + y).len() == p.len() + y.len());
    assert(x.len() == y.len());
    assert forall|i: int| 0 <= i < x.len() implies x[i] == y[i] by {
        assert((p + x)[p.len() + i] == x[i]);
        assert((p + y)[p.len() + i] == y[i]);
    }
    assert(x =~= y);
}

/// Song keys for distinct ids are distinct.
pub proof fn lemma_song_key_injective(a: u32, b: u32)
    requires
        spec_song_key(a) == spec_song_key(b),
    ensures
        a == b,
{
    lemma_prefix_cancel("song/"@, spec_decimal(a as nat), spec_decimal(b as nat));
    lemma_decimal_injective(a as nat, b as nat);
}

/// Relationship keys for distinct ids are distinct.
pub proof fn lemma_relationships_key_injective(a: u32, b: u32)
    requires
        spec_relationships_key(a) == spec_relationships_key(b),
    ensures
        a == b,
{
    lemma_prefix_cancel("relationships/"@, spec_decimal(a as nat), spec_decimal(b as nat));
    lemma_decimal_injective(a as nat, b as nat);
}

/// Search keys for distinct queries are distinct.
pub proof fn lemma_search_key_injective(p: Seq<char>, q: Seq<char>)
    requires
        spec_search_key(p) == spec_search_key(q),
    ensures
        p == q,
{
    lemma_prefix_cancel("search/"@, p, q);
}

/// The three kinds of key never collide: a song key is never a relationship
/// key or a search key, and a relationship key is never a search key.
pub proof fn lemma_key_kinds_disjoint(a: u32, b: u32, q: Seq<char>)
    ensures
        spec_song_key(a) != spec_relationships_key(b),
        spec_song_key(a) != spec_search_key(q),
        spec_relationships_key(b) != spec_search_key(q),
{
    reveal_strlit("song/");
    reveal_strlit("relationships/");
    reveal_strlit("search/");
    lemma_decimal_len(a as nat);
    lemma_decimal_len(b as nat);
    assert(spec_song_key(a)[0] == 's');
    assert(spec_relationships_key(b)[0] == 'r');
    assert(spec_song_key(a)[1] == 'o');
    assert(spec_search_key(q)[1] == 'e');
    assert(spec_relationships_key(b)[1] == 'e');
    assert(spec_relationships_key(b)[2] == 'l');
    assert(spec_search_key(q)[2] == 'a');
}

} // verus!
