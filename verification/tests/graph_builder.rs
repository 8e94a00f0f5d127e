//! Tests for the bounded breadth-first graph builder.

use std::collections::HashMap;

use petgraph::graph::NodeIndex;
use petgraph::visit::EdgeRef;

use sample_graph::build_graph;
use sample_graph::fixture::{FixtureCache, FixtureSource};
use sample_graph::store::Store;
use sample_graph::SongGraph;
use sample_graph::{Relationship, RelationshipType, SongData, StateError};

fn song(id: u32, title: &str, artist: &str) -> SongData {
    SongData::new(id, title.to_string(), artist.to_string())
}

fn store_over(
    songs: Vec<SongData>,
    relationships: Vec<(u32, Vec<Relationship>)>,
) -> Store<FixtureCache, FixtureSource> {
    let songs = songs.into_iter().map(|s| (s.id, s)).collect::<HashMap<_, _>>();
    let relationships = relationships.into_iter().collect::<HashMap<_, _>>();
    Store::new(FixtureCache::new(), FixtureSource::new(songs, relationships, vec![]), 100)
}

fn edge_list(g: &SongGraph) -> Vec<(usize, usize, RelationshipType)> {
    g.edge_references()
        .map(|e| (e.source().index(), e.target().index(), *e.weight()))
        .collect()
}

#[test]
fn test_build_graph_degree_zero_is_single_node() {
    let mut store = store_over(vec![song(1, "Foobar", "The Sillys")], vec![]);
    let g = build_graph(&mut store, 1, 0).expect("the traversal should succeed");
    assert_eq!(g.node_count(), 1);
    assert_eq!(g.edge_count(), 0);
    let node = g.node_weight(NodeIndex::new(0)).unwrap();
    assert_eq!(node.degree, 0);
    assert_eq!(node.song, song(1, "Foobar", "The Sillys"));
}

#[test]
fn test_build_graph_three_song_cycle() {
    // Song 1 samples song 2; song 2 reports both the inverse of that edge
    // and that it is interpolated by song 3.
    let mut store = store_over(
        vec![
            song(1, "Foobar", "The Sillys"),
            song(2, "Barfoo", "The Seriouses"),
            song(3, "Barfoo 2", "Even More Serious"),
        ],
        vec![
            (1, vec![Relationship::new(
                RelationshipType::Samples,
                song(2, "Barfoo", "The Seriouses"),
            )]),
            (2, vec![
                Relationship::new(RelationshipType::SampledIn, song(1, "Foobar", "The Sillys")),
                Relationship::new(
                    RelationshipType::InterpolatedBy,
                    song(3, "Barfoo 2", "Even More Serious"),
                ),
            ]),
            (3, vec![]),
        ],
    );
    let g = build_graph(&mut store, 1, 2).expect("the traversal should succeed");

    // One node per song id, degrees 0, 1, 2 in discovery order.
    assert_eq!(g.node_count(), 3, "no duplicate node for song 2");
    let n0 = g.node_weight(NodeIndex::new(0)).unwrap();
    let n1 = g.node_weight(NodeIndex::new(1)).unwrap();
    let n2 = g.node_weight(NodeIndex::new(2)).unwrap();
    assert_eq!((n0.song.id, n0.degree), (1, 0));
    assert_eq!((n1.song.id, n1.degree), (2, 1));
    assert_eq!((n2.song.id, n2.degree), (3, 2));

    // The discovery edges, plus the inverse edge back into the already
    // visited song 1.
    let edges = edge_list(&g);
    assert!(edges.contains(&(0, 1, RelationshipType::Samples)));
    assert!(edges.contains(&(1, 2, RelationshipType::InterpolatedBy)));
    assert!(edges.contains(&(1, 0, RelationshipType::SampledIn)));
    assert_eq!(edges.len(), 3);
}

#[test]
fn test_build_graph_convergent_paths() {
    // Songs 2 and 3 both relate to the not-yet-visited song 4: it gets one
    // node and two inbound edges.
    let mut store = store_over(
        vec![
            song(1, "One", "A"),
            song(2, "Two", "B"),
            song(3, "Three", "C"),
            song(4, "Four", "D"),
        ],
        vec![
            (1, vec![
                Relationship::new(RelationshipType::Samples, song(2, "Two", "B")),
                Relationship::new(RelationshipType::Samples, song(3, "Three", "C")),
            ]),
            (2, vec![Relationship::new(RelationshipType::Interpolates, song(4, "Four", "D"))]),
            (3, vec![Relationship::new(RelationshipType::InterpolatedBy, song(4, "Four", "D"))]),
            (4, vec![]),
        ],
    );
    let g = build_graph(&mut store, 1, 2).expect("the traversal should succeed");
    assert_eq!(g.node_count(), 4, "the shared target gets exactly one node");
    let target = NodeIndex::new(3);
    assert_eq!(g.node_weight(target).unwrap().song.id, 4);
    let inbound = edge_list(&g).into_iter().filter(|e| e.1 == 3).collect::<Vec<_>>();
    assert_eq!(inbound.len(), 2, "the shared target gets two inbound edges");
    assert!(inbound.contains(&(1, 3, RelationshipType::Interpolates)));
    assert!(inbound.contains(&(2, 3, RelationshipType::InterpolatedBy)));
}

#[test]
fn test_build_graph_self_relationship_adds_loop_edge_only() {
    let mut store = store_over(
        vec![song(1, "One", "A")],
        vec![(1, vec![Relationship::new(RelationshipType::Samples, song(1, "One", "A"))])],
    );
    let g = build_graph(&mut store, 1, 1).expect("the traversal should succeed");
    assert_eq!(g.node_count(), 1);
    assert_eq!(edge_list(&g), vec![(0, 0, RelationshipType::Samples)]);
}

#[test]
fn test_build_graph_missing_start_song_fails() {
    let mut store = store_over(vec![], vec![]);
    match build_graph(&mut store, 1, 2) {
        Err(StateError::Upstream(_)) => {},
        other => panic!("expected an upstream error, got {:?}", other),
    }
}

#[test]
fn test_build_graph_fetch_failure_aborts_traversal() {
    // Song 2 is discovered but its relationship list cannot be fetched:
    // the whole traversal fails, no partial graph comes back.
    let mut store = store_over(
        vec![song(1, "One", "A"), song(2, "Two", "B")],
        vec![(1, vec![Relationship::new(RelationshipType::Samples, song(2, "Two", "B"))])],
    );
    match build_graph(&mut store, 1, 2) {
        Err(StateError::Upstream(_)) => {},
        other => panic!("expected an upstream error, got {:?}", other),
    }
}

#[test]
fn test_build_graph_uses_cached_relationships() {
    let mut store = store_over(
        vec![song(1, "One", "A"), song(2, "Two", "B")],
        vec![
            (1, vec![Relationship::new(RelationshipType::Samples, song(2, "Two", "B"))]),
            (2, vec![]),
        ],
    );
    let first = build_graph(&mut store, 1, 2).expect("the traversal should succeed");
    let calls = store.source.call_count();
    let second = build_graph(&mut store, 1, 2).expect("the traversal should succeed");
    assert_eq!(store.source.call_count(), calls, "everything is served from the cache");
    assert_eq!(first.node_count(), second.node_count());
    assert_eq!(edge_list(&first), edge_list(&second));
}
