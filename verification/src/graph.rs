//! The bounded breadth-first graph builder: starting from one song id, it
//! expands a frontier through the store's relationship lookups into a
//! directed multigraph of songs, each node annotated with its degree of
//! separation at first discovery, each edge labelled with its relationship
//! kind. The graph value itself is petgraph's directed graph, held behind
//! trusted wrappers.

use petgraph::graph::Graph;
use petgraph::graph::NodeIndex;
use petgraph::Directed;

use std::collections::HashMap;
use std::collections::VecDeque;

use vstd::prelude::*;
use vstd::set_lib::{lemma_int_range, lemma_len_subset, lemma_map_size, set_int_range};

use crate::models::{rel_views, GraphNode, GraphNodeView, Relationship, RelationshipView};
use crate::store::{Cache, DataSource, StateError, Store};
use crate::taxonomy::RelationshipType;

verus! {

broadcast use vstd::std_specs::hash::group_hash_axioms;

#[verifier::external_type_specification]
#[verifier::external_body]
pub struct ExDirected(Directed);

#[verifier::external_type_specification]
#[verifier::external_body]
#[verifier::reject_recursive_types(N)]
#[verifier::reject_recursive_types(E)]
#[verifier::reject_recursive_types(Ty)]
#[verifier::reject_recursive_types(Ix)]
pub struct ExGraph<N, E, Ty, Ix>(Graph<N, E, Ty, Ix>);

/// The graph value a traversal produces: song nodes, relationship-labelled
/// directed edges, indexed by `usize` so that adding a node never hits an
/// index-capacity bound.
pub type SongGraph = Graph<GraphNode, RelationshipType, Directed, usize>;

/// The nodes a song graph holds, in insertion order.
pub uninterp spec fn graph_nodes(g: SongGraph) -> Seq<GraphNode>;

/// The edges a song graph holds, in insertion order: source node index,
/// target node index, relationship kind.
pub uninterp spec fn graph_edges(g: SongGraph) -> Seq<(usize, usize, RelationshipType)>;

/// The views of a sequence of graph nodes.
pub open spec fn node_views(v: Seq<GraphNode>) -> Seq<GraphNodeView> {
    v.map_values(|n: GraphNode| n@)
}

/// Relies on petgraph's `Graph::with_capacity`: it creates a graph with no
/// nodes and no edges.
#[verifier::external_body]
fn graph_new() -> (g: SongGraph)
    ensures
        graph_nodes(g) == Seq::<GraphNode>::empty(),
        graph_edges(g) == Seq::<(usize, usize, RelationshipType)>::empty(),
{
    Graph::with_capacity(0, 0)
}

/// Relies on petgraph's `Graph::add_node`: it appends the node and returns
/// its index, and with a `usize` index type it has no capacity bound. The
/// nodes live in a vector, so their number fits a machine word.
#[verifier::external_body]
fn graph_add_node(g: &mut SongGraph, node: GraphNode) -> (idx: usize)
    ensures
        graph_nodes(*final(g)) == graph_nodes(*old(g)).push(node),
        graph_edges(*final(g)) == graph_edges(*old(g)),
        idx == graph_nodes(*old(g)).len(),
        graph_nodes(*final(g)).len() <= usize::MAX,
{
    g.add_node(node).index()
}

/// Relies on petgraph's `Graph::add_edge`: it appends the edge between two
/// existing nodes, and with a `usize` index type it has no capacity bound.
#[verifier::external_body]
fn graph_add_edge(g: &mut SongGraph, a: usize, b: usize, weight: RelationshipType)
    requires
        a < graph_nodes(*old(g)).len(),
        b < graph_nodes(*old(g)).len(),
    ensures
        graph_nodes(*final(g)) == graph_nodes(*old(g)),
        graph_edges(*final(g)) == graph_edges(*old(g)).push((a, b, weight)),
{
    g.add_edge(NodeIndex::new(a), NodeIndex::new(b), weight);
}

/// An item in the traversal's frontier queue.
#[derive(Debug, Copy, Clone)]
pub struct QueueItem {
    /// The degree of separation from the start of the traversal.
    pub degree: u8,
    /// The id of the queued song.
    pub song_id: u32,
    /// The graph node index of the queued song.
    pub index: usize,
}

impl QueueItem {
    /// Create a queue item.
    pub fn new(degree: u8, song_id: u32, index: usize) -> (r: Self)
        ensures
            r.degree == degree,
            r.song_id == song_id,
            r.index == index,
    {
        QueueItem { degree, song_id, index }
    }
}

/// The mathematical state of a traversal: the nodes and edges accumulated
/// so far, the visited index from song id to node index, and the frontier
/// queue.
pub struct BfsState {
    /// The node views, in insertion order.
    pub nodes: Seq<GraphNodeView>,
    /// The edges, in insertion order.
    pub edges: Seq<(usize, usize, RelationshipType)>,
    /// The visited index: one entry per discovered id.
    pub visited: Map<u32, usize>,
    /// The frontier queue.
    pub queue: Seq<QueueItem>,
}

/// The traversal state a graph, visited index and queue stand for.
pub open spec fn bfs_abs(
    ns: Seq<GraphNode>,
    es: Seq<(usize, usize, RelationshipType)>,
    visited: Map<u32, usize>,
    queue: Seq<QueueItem>,
) -> BfsState {
    BfsState { nodes: node_views(ns), edges: es, visited, queue }
}

/// Well-formedness of a traversal state, relative to the id the traversal
/// started from and the degree bound: the visited index and the nodes
/// mirror each other, every edge joins existing nodes and leaves a node
/// that was allowed to expand, and every queued item names the node it was
/// queued for.
pub open spec fn bfs_wf(st: BfsState, start_id: u32, cap: u8) -> bool {
    &&& st.nodes.len() >= 1
    &&& st.visited.contains_key(start_id)
    &&& st.visited[start_id] == 0
    &&& forall|id: u32| #[trigger]
        st.visited.contains_key(id) ==> st.visited[id] < st.nodes.len()
    &&& forall|id: u32| #[trigger]
        st.visited.contains_key(id) && st.visited[id] == 0 ==> id == start_id
    &&& forall|id: u32| #[trigger]
        st.visited.contains_key(id) && st.visited[id] != 0 ==> st.nodes[st.visited[id] as int].song.id == id
    &&& forall|i: int|
        1 <= i < st.nodes.len() ==> st.visited.contains_key(#[trigger] st.nodes[i].song.id)
            && st.visited[st.nodes[i].song.id] == i
    &&& forall|i: int| 0 <= i < st.nodes.len() ==> (#[trigger] st.nodes[i].degree) <= cap
    &&& forall|k: int|
        0 <= k < st.edges.len() ==> (#[trigger] st.edges[k]).0 < st.nodes.len() && st.edges[k].1
            < st.nodes.len() && st.nodes[st.edges[k].0 as int].degree < cap
    &&& forall|m: int|
        0 <= m < st.queue.len() ==> (#[trigger] st.queue[m]).index < st.nodes.len()
            && st.queue[m].degree <= cap && st.visited.contains_key(st.queue[m].song_id)
            && st.visited[st.queue[m].song_id] == st.queue[m].index
            && st.nodes[st.queue[m].index as int].degree == st.queue[m].degree
}

/// Some edge leaves the node at index `src` for this relationship: it
/// carries the relationship's kind and it enters the node that stands for
/// the related song id (the start node stands for the start id).
pub open spec fn rel_edge_present(
    ns: Seq<GraphNodeView>,
    es: Seq<(usize, usize, RelationshipType)>,
    src: int,
    start_id: u32,
    r: RelationshipView,
) -> bool {
    exists|k: int|
        0 <= k < es.len() && (#[trigger] es[k]).0 as int == src && es[k].2 == r.relationship_type
            && es[k].1 < ns.len() && ((r.song.id == start_id && es[k].1 == 0) || ns[es[k].1 as int].song.id
            == r.song.id)
}

/// The id the node at index `i` was discovered under: the start node
/// stands for the start id, every other node for its own song id.
pub open spec fn discovery_id(ns: Seq<GraphNodeView>, start_id: u32, i: int) -> u32 {
    if i == 0 {
        start_id
    } else {
        ns[i].song.id
    }
}

/// The node at index `i` has been expanded: the store answered for the id
/// it was discovered under, and every relationship in that answer has its
/// edge.
pub open spec fn node_expanded<C: Cache, S: DataSource>(
    st0: Store<C, S>,
    ns: Seq<GraphNodeView>,
    es: Seq<(usize, usize, RelationshipType)>,
    start_id: u32,
    i: int,
) -> bool {
    let rs = st0.effective_relationships(discovery_id(ns, start_id, i));
    &&& rs is Some
    &&& forall|m: int|
        0 <= m < rs->Some_0.len() ==> rel_edge_present(ns, es, i, start_id, #[trigger] rs->Some_0[m])
}

/// Some queue item points at the node at index `i`.
pub open spec fn queued_at(q: Seq<QueueItem>, i: int) -> bool {
    exists|m: int| 0 <= m < q.len() && (#[trigger] q[m]).index as int == i
}

/// Processing one relationship of the node at `cur_index`: an already
/// visited target only gains an inbound edge; an unvisited target gets a
/// new node at degree `next_degree`, the edge to it, and a place in the
/// queue if it may expand further.
pub open spec fn step_rel(
    st: BfsState,
    cur_index: usize,
    next_degree: u8,
    rel: RelationshipView,
    cap: u8,
) -> BfsState {
    let id = rel.song.id;
    if st.visited.contains_key(id) {
        BfsState {
            nodes: st.nodes,
            edges: st.edges.push((cur_index, st.visited[id], rel.relationship_type)),
            visited: st.visited,
            queue: st.queue,
        }
    } else {
        let idx = st.nodes.len() as usize;
        BfsState {
            nodes: st.nodes.push(GraphNodeView { degree: next_degree, song: rel.song }),
            edges: st.edges.push((cur_index, idx, rel.relationship_type)),
            visited: st.visited.insert(id, idx),
            queue: if next_degree < cap {
                st.queue.push(QueueItem { degree: next_degree, song_id: id, index: idx })
            } else {
                st.queue
            },
        }
    }
}

/// One step keeps the traversal state well-formed, extends nodes, edges
/// and queue without touching what is already there, and only grows the
/// visited index.
pub proof fn lemma_step_wf(
    st: BfsState,
    start_id: u32,
    cur_index: usize,
    next_degree: u8,
    rel: RelationshipView,
    cap: u8,
)
    requires
        bfs_wf(st, start_id, cap),
        st.visited.dom().finite(),
        st.nodes.len() <= usize::MAX,
        cur_index < st.nodes.len(),
        st.nodes[cur_index as int].degree < cap,
        1 <= next_degree <= cap,
    ensures
        ({
            let st2 = step_rel(st, cur_index, next_degree, rel, cap);
            &&& bfs_wf(st2, start_id, cap)
            &&& st2.nodes.len() >= st.nodes.len()
            &&& forall|i: int| 0 <= i < st.nodes.len() ==> #[trigger] st2.nodes[i] == st.nodes[i]
            &&& st2.edges.len() >= st.edges.len()
            &&& forall|k: int| 0 <= k < st.edges.len() ==> #[trigger] st2.edges[k] == st.edges[k]
            &&& forall|m: int| 0 <= m < st.queue.len() ==> #[trigger] st2.queue[m] == st.queue[m]
            &&& forall|id: u32| #[trigger]
                st.visited.contains_key(id) ==> st2.visited.contains_key(id) && st2.visited[id]
                    == st.visited[id]
            &&& st2.queue.len() - st.queue.len() <= st2.visited.dom().len()
                - st.visited.dom().len()
            &&& st.visited.dom().len() <= st2.visited.dom().len()
            &&& st2.visited.dom().finite() == st.visited.dom().finite()
            &&& st2.queue.len() >= st.queue.len()
        }),
{
    let st2 = step_rel(st, cur_index, next_degree, rel, cap);
    if !st.visited.contains_key(rel.song.id) {
        assert(st2.visited.dom() =~= st.visited.dom().insert(rel.song.id));
    }
}

/// Convergent paths: if two frontier nodes each report a relationship to
/// the same not-yet-visited id, processing both relationships creates
/// exactly one node for that id and two inbound edges into it.
pub proof fn lemma_convergent_paths(
    st: BfsState,
    c1: usize,
    c2: usize,
    d1: u8,
    d2: u8,
    r1: RelationshipView,
    r2: RelationshipView,
    cap: u8,
)
    requires
        c1 != c2,
        r1.song.id == r2.song.id,
        !st.visited.contains_key(r1.song.id),
        st.nodes.len() <= usize::MAX,
    ensures
        ({
            let st1 = step_rel(st, c1, d1, r1, cap);
            let st2 = step_rel(st1, c2, d2, r2, cap);
            &&& st2.nodes.len() == st.nodes.len() + 1
            &&& st2.nodes[st.nodes.len() as int].song == r1.song
            &&& st2.edges.len() == st.edges.len() + 2
            &&& st2.edges[st.edges.len() as int].0 == c1
            &&& st2.edges[st.edges.len() as int].1 as int == st.nodes.len()
            &&& st2.edges[st.edges.len() as int + 1].0 == c2
            &&& st2.edges[st.edges.len() as int + 1].1 as int == st.nodes.len()
        }),
{
}

/// One step of relationship processing keeps every expansion claim: claims
/// of other nodes survive (their witnesses are untouched), the current
/// node's partly built claim survives, the processed relationship gains
/// its edge, and a freshly created node is either queued or already
/// terminal.
proof fn lemma_claims_after_step<C: Cache, S: DataSource>(
    st0: Store<C, S>,
    st: BfsState,
    start_id: u32,
    c: usize,
    next_degree: u8,
    rel: RelationshipView,
    cap: u8,
    rs_done: Seq<RelationshipView>,
)
    requires
        bfs_wf(st, start_id, cap),
        st.visited.dom().finite(),
        st.nodes.len() <= usize::MAX,
        c < st.nodes.len(),
        st.nodes[c as int].degree < cap,
        1 <= next_degree <= cap,
        forall|i: int|
            0 <= i < st.nodes.len() && (#[trigger] st.nodes[i]).degree < cap && i != c
                ==> node_expanded(st0, st.nodes, st.edges, start_id, i) || queued_at(st.queue, i),
        forall|m: int|
            0 <= m < rs_done.len() ==> rel_edge_present(
                st.nodes,
                st.edges,
                c as int,
                start_id,
                #[trigger] rs_done[m],
            ),
    ensures
        ({
            let st2 = step_rel(st, c, next_degree, rel, cap);
            &&& forall|i: int|
                0 <= i < st2.nodes.len() && (#[trigger] st2.nodes[i]).degree < cap && i != c
                    ==> node_expanded(st0, st2.nodes, st2.edges, start_id, i) || queued_at(
                    st2.queue,
                    i,
                )
            &&& forall|m: int|
                0 <= m < rs_done.len() ==> rel_edge_present(
                    st2.nodes,
                    st2.edges,
                    c as int,
                    start_id,
                    #[trigger] rs_done[m],
                )
            &&& rel_edge_present(st2.nodes, st2.edges, c as int, start_id, rel)
        }),
{
    let st2 = step_rel(st, c, next_degree, rel, cap);
    lemma_step_wf(st, start_id, c, next_degree, rel, cap);

    // The edge the step appended serves the processed relationship.
    let newk = st.edges.len() as int;
    assert(st2.edges[newk].0 == c && st2.edges[newk].2 == rel.relationship_type);
    if st.visited.contains_key(rel.song.id) {
        let t = st.visited[rel.song.id];
        assert(st2.edges[newk].1 == t);
        if t == 0 {
            assert(rel.song.id == start_id);
        } else {
            assert(st.nodes[t as int].song.id == rel.song.id);
        }
    } else {
        assert(st2.edges[newk].1 as int == st.nodes.len());
        assert(st2.nodes[st.nodes.len() as int].song.id == rel.song.id);
    }
    assert(rel_edge_present(st2.nodes, st2.edges, c as int, start_id, rel));

    // An already present edge keeps serving its relationship.
    assert forall|src: int, r: RelationshipView|
        rel_edge_present(st.nodes, st.edges, src, start_id, r) implies rel_edge_present(
        st2.nodes,
        st2.edges,
        src,
        start_id,
        r,
    ) by {
        let k = choose|k: int|
            0 <= k < st.edges.len() && (#[trigger] st.edges[k]).0 as int == src && st.edges[k].2
                == r.relationship_type && st.edges[k].1 < st.nodes.len() && ((r.song.id == start_id
                && st.edges[k].1 == 0) || st.nodes[st.edges[k].1 as int].song.id == r.song.id);
        assert(st2.edges[k] == st.edges[k]);
        assert(st2.nodes[st.edges[k].1 as int] == st.nodes[st.edges[k].1 as int]);
    }

    // Claims of the other nodes survive, and a fresh node is queued or
    // terminal.
    assert forall|i: int|
        0 <= i < st2.nodes.len() && (#[trigger] st2.nodes[i]).degree < cap && i != c
            implies node_expanded(st0, st2.nodes, st2.edges, start_id, i) || queued_at(
        st2.queue,
        i,
    ) by {
        if i < st.nodes.len() {
            assert(st2.nodes[i] == st.nodes[i]);
            if node_expanded(st0, st.nodes, st.edges, start_id, i) {
                assert(discovery_id(st2.nodes, start_id, i) == discovery_id(st.nodes, start_id, i));
                let rs = st0.effective_relationships(discovery_id(st.nodes, start_id, i));
                assert forall|m: int| 0 <= m < rs->Some_0.len() implies rel_edge_present(
                    st2.nodes,
                    st2.edges,
                    i,
                    start_id,
                    #[trigger] rs->Some_0[m],
                ) by {
                    assert(rel_edge_present(st.nodes, st.edges, i, start_id, rs->Some_0[m]));
                }
                assert(node_expanded(st0, st2.nodes, st2.edges, start_id, i));
            } else {
                let m = choose|m: int|
                    0 <= m < st.queue.len() && (#[trigger] st.queue[m]).index as int == i;
                assert(st2.queue[m] == st.queue[m]);
                assert(queued_at(st2.queue, i));
            }
        } else {
            // The freshly created node: queued unless it is terminal.
            assert(i == st.nodes.len());
            assert(st2.nodes[i].degree == next_degree);
            assert(next_degree < cap);
            assert(st2.queue[st2.queue.len() - 1].index as int == i);
            assert(queued_at(st2.queue, i));
        }
    }
}

/// A finite set of 32-bit ids has at most `2^32` elements.
proof fn lemma_u32_set_card(s: Set<u32>)
    requires
        s.finite(),
    ensures
        s.len() <= 0x1_0000_0000,
{
    let f = |x: u32| x as int;
    let y = s.map(f);
    lemma_map_size(s, y, f);
    let r = set_int_range(0, 0x1_0000_0000);
    lemma_int_range(0, 0x1_0000_0000);
    assert forall|b: int| #[trigger] y.contains(b) implies r.contains(b) by {
        let a = choose|a: u32| s.contains(a) && f(a) == b;
    }
    assert(y.subset_of(r));
    lemma_len_subset(y, r);
}


/// Taking the head off the queue keeps a traversal state well-formed.
proof fn lemma_wf_pop(st: BfsState, start_id: u32, cap: u8)
    requires
        bfs_wf(st, start_id, cap),
        st.queue.len() > 0,
    ensures
        bfs_wf(
            BfsState {
                nodes: st.nodes,
                edges: st.edges,
                visited: st.visited,
                queue: st.queue.subrange(1, st.queue.len() as int),
            },
            start_id,
            cap,
        ),
{
    let st2 = BfsState {
        nodes: st.nodes,
        edges: st.edges,
        visited: st.visited,
        queue: st.queue.subrange(1, st.queue.len() as int),
    };
    assert forall|m: int|
        0 <= m < st2.queue.len() implies ((#[trigger] st2.queue[m]).index < st2.nodes.len()
        && st2.queue[m].degree <= cap && st2.visited.contains_key(st2.queue[m].song_id)
        && st2.visited[st2.queue[m].song_id] == st2.queue[m].index
        && st2.nodes[st2.queue[m].index as int].degree == st2.queue[m].degree) by {
        assert(st2.queue[m] == st.queue[m + 1]);
        assert(st.queue[m + 1].index < st.nodes.len());
    }
}

/// Process one relationship reported for the node at `cur_index`, exactly
/// as the step model says.
fn process_relationship(
    g: &mut SongGraph,
    visited: &mut HashMap<u32, usize>,
    queue: &mut VecDeque<QueueItem>,
    cur_index: usize,
    next_degree: u8,
    rel: &Relationship,
    cap: u8,
)
    requires
        forall|id: u32| #[trigger]
            old(visited)@.contains_key(id) ==> old(visited)@[id] < graph_nodes(*old(g)).len(),
        cur_index < graph_nodes(*old(g)).len(),
        graph_nodes(*old(g)).len() <= usize::MAX,
    ensures
        graph_nodes(*final(g)).len() <= usize::MAX,
        bfs_abs(graph_nodes(*final(g)), graph_edges(*final(g)), final(visited)@, final(queue)@)
            == step_rel(
            bfs_abs(graph_nodes(*old(g)), graph_edges(*old(g)), old(visited)@, old(queue)@),
            cur_index,
            next_degree,
            rel@,
            cap,
        ),
{
    let id = rel.song.id;
    let existing = match visited.get(&id) {
        Some(idx) => Some(*idx),
        None => None,
    };
    match existing {
        Some(idx) => {
            graph_add_edge(g, cur_index, idx, rel.relationship_type);
        },
        None => {
            let node = GraphNode::new(next_degree, rel.song.clone());
            let ghost nodeg = node;
            let idx = graph_add_node(g, node);
            visited.insert(id, idx);
            graph_add_edge(g, cur_index, idx, rel.relationship_type);
            if next_degree < cap {
                queue.push_back(QueueItem::new(next_degree, id, idx));
            }
            proof {
                assert(node_views(graph_nodes(*old(g)).push(nodeg)) =~= node_views(
                    graph_nodes(*old(g)),
                ).push(nodeg@));
            }
        },
    }
}

/// Construct a graph of song relationships using bounded breadth-first
/// search, driven entirely through the store: fetch the start song, then
/// expand each frontier node's relevant relationships until the degree
/// bound is reached. An already discovered song never gets a second node,
/// only further inbound edges; a fetch failure aborts the whole traversal.
pub fn build_graph<C: Cache, S: DataSource>(
    store: &mut Store<C, S>,
    start_id: u32,
    degree: u8,
) -> (r: Result<SongGraph, StateError>)
    ensures
        final(store).source.songs() == old(store).source.songs(),
        final(store).source.relationships() == old(store).source.relationships(),
        forall|q: Seq<char>| #[trigger]
            final(store).source.search_results(q) == old(store).source.search_results(q),
        final(store).key_expiry == old(store).key_expiry,
        r matches Ok(g) ==> ({
            let ns = node_views(graph_nodes(g));
            let es = graph_edges(g);
            &&& Store::<C, S>::preserves_views(*old(store), *final(store))
            &&& ns.len() >= 1
            &&& ns[0].degree == 0
            &&& old(store).effective_song(start_id) == Some(ns[0].song)
            &&& forall|i: int, j: int|
                1 <= i < j < ns.len() ==> (#[trigger] ns[i]).song.id != (#[trigger] ns[j]).song.id
            &&& forall|j: int| 1 <= j < ns.len() ==> (#[trigger] ns[j]).song.id != start_id
            &&& forall|i: int| 0 <= i < ns.len() ==> (#[trigger] ns[i]).degree <= degree
            &&& forall|k: int|
                0 <= k < es.len() ==> (#[trigger] es[k]).0 < ns.len() && es[k].1 < ns.len()
                    && ns[es[k].0 as int].degree < degree
            &&& forall|i: int|
                0 <= i < ns.len() && (#[trigger] ns[i]).degree < degree ==> node_expanded(
                    *old(store),
                    ns,
                    es,
                    start_id,
                    i,
                )
            &&& degree == 0 ==> ns.len() == 1 && es.len() == 0
        }),
{
    let mut graph = graph_new();
    let mut visited: HashMap<u32, usize> = HashMap::new();
    let mut queue: VecDeque<QueueItem> = VecDeque::new();

    let start_song = match store.song(start_id) {
        Ok(s) => s,
        Err(e) => {
            return Err(e);
        },
    };
    let ghost start_view = start_song@;
    let start_idx = graph_add_node(&mut graph, GraphNode::new(0, start_song));
    visited.insert(start_id, start_idx);
    queue.push_back(QueueItem::new(0, start_id, start_idx));
    proof {
        lemma_u32_set_card(visited@.dom());
        assert(node_views(graph_nodes(graph))[0] == GraphNodeView { degree: 0, song: start_view });
        assert(bfs_wf(
            bfs_abs(graph_nodes(graph), graph_edges(graph), visited@, queue@),
            start_id,
            degree,
        ));
        assert(queue@[0].index as int == 0);
        assert(queued_at(queue@, 0));
    }

    while queue.len() != 0
        invariant
            bfs_wf(
                bfs_abs(graph_nodes(graph), graph_edges(graph), visited@, queue@),
                start_id,
                degree,
            ),
            visited@.dom().finite(),
            visited@.dom().len() <= 0x1_0000_0000,
            graph_nodes(graph).len() <= usize::MAX,
            node_views(graph_nodes(graph)).len() >= 1,
            node_views(graph_nodes(graph))[0] == (GraphNodeView { degree: 0, song: start_view }),
            old(store).effective_song(start_id) == Some(start_view),
            Store::<C, S>::preserves_views(*old(store), *store),
            forall|i: int|
                0 <= i < node_views(graph_nodes(graph)).len() && (#[trigger] node_views(
                    graph_nodes(graph),
                )[i]).degree < degree ==> node_expanded(
                    *old(store),
                    node_views(graph_nodes(graph)),
                    graph_edges(graph),
                    start_id,
                    i,
                ) || queued_at(queue@, i),
            degree == 0 ==> graph_nodes(graph).len() == 1 && graph_edges(graph).len() == 0,
            store.source.songs() == old(store).source.songs(),
            store.source.relationships() == old(store).source.relationships(),
            forall|q: Seq<char>| #[trigger]
                store.source.search_results(q) == old(store).source.search_results(q),
            store.key_expiry == old(store).key_expiry,
        decreases 0x1_0000_0000 - visited@.dom().len(), queue@.len(),
    {
        let ghost vis_start = visited@.dom();
        let ghost q_start: int = queue@.len() as int;
        let ghost q_pre = queue@;
        let current = queue.pop_front().unwrap();
        proof {
            let st_pre = bfs_abs(graph_nodes(graph), graph_edges(graph), visited@, q_pre);
            assert(bfs_wf(st_pre, start_id, degree));
            assert(st_pre.queue[0] == current);
            assert(st_pre.queue[0].index < st_pre.nodes.len());
            assert(st_pre.nodes[st_pre.queue[0].index as int].degree == st_pre.queue[0].degree);
            assert(current.index < graph_nodes(graph).len());
            assert(node_views(graph_nodes(graph))[current.index as int].degree == current.degree);
            let st_post = bfs_abs(graph_nodes(graph), graph_edges(graph), visited@, queue@);
            assert(st_post.nodes == node_views(graph_nodes(graph)));
            assert(st_post.edges == graph_edges(graph));
            lemma_wf_pop(st_pre, start_id, degree);
            assert(st_post == BfsState {
                nodes: st_pre.nodes,
                edges: st_pre.edges,
                visited: st_pre.visited,
                queue: st_pre.queue.subrange(1, st_pre.queue.len() as int),
            });
            assert(bfs_wf(st_post, start_id, degree));
            assert(st_pre.visited.contains_key(st_pre.queue[0].song_id));
            assert(st_pre.visited[st_pre.queue[0].song_id] == st_pre.queue[0].index);
            assert forall|i: int|
                0 <= i < st_post.nodes.len() && (#[trigger] st_post.nodes[i]).degree < degree && i
                    != current.index as int implies node_expanded(
                *old(store),
                st_post.nodes,
                st_post.edges,
                start_id,
                i,
            ) || queued_at(st_post.queue, i) by {
                if !node_expanded(*old(store), st_post.nodes, st_post.edges, start_id, i) {
                    let m = choose|m: int|
                        0 <= m < st_pre.queue.len() && (#[trigger] st_pre.queue[m]).index as int
                            == i;
                    assert(m != 0);
                    assert(st_post.queue[m - 1] == st_pre.queue[m]);
                    assert(queued_at(st_post.queue, i));
                }
            }
        }
        if current.degree < degree {
            let next_degree = current.degree + 1;
            let ghost store_pre = *store;
            let rels = match store.relationships(current.song_id) {
                Ok(v) => v,
                Err(e) => {
                    return Err(e);
                },
            };
            proof {
                assert(store_pre.effective_relationships(current.song_id) == Some(
                    rel_views(rels@),
                ));
                assert(old(store).effective_relationships(current.song_id) == Some(
                    rel_views(rels@),
                ));
                if current.index == 0 {
                    assert(current.song_id == start_id);
                } else {
                    assert(node_views(graph_nodes(graph))[current.index as int].song.id
                        == current.song_id);
                }
                assert(discovery_id(
                    node_views(graph_nodes(graph)),
                    start_id,
                    current.index as int,
                ) == current.song_id);
            }
            let ghost v0: int = visited@.dom().len() as int;
            let ghost q0: int = queue@.len() as int;
            let mut i: usize = 0;
            while i < rels.len()
                invariant
                    i <= rels@.len(),
                    bfs_wf(
                        bfs_abs(graph_nodes(graph), graph_edges(graph), visited@, queue@),
                        start_id,
                        degree,
                    ),
                    visited@.dom().finite(),
                    graph_nodes(graph).len() <= usize::MAX,
                    node_views(graph_nodes(graph)).len() >= 1,
                    node_views(graph_nodes(graph))[0] == (GraphNodeView {
                        degree: 0,
                        song: start_view,
                    }),
                    degree >= 1,
                    current.index < graph_nodes(graph).len(),
                    node_views(graph_nodes(graph))[current.index as int].degree == current.degree,
                    current.degree < degree,
                    next_degree == current.degree + 1,
                    vis_start.subset_of(visited@.dom()),
                    queue@.len() - q0 <= visited@.dom().len() - v0,
                    v0 <= visited@.dom().len(),
                    q0 <= queue@.len(),
                    v0 >= vis_start.len(),
                    q0 == q_start - 1,
                    discovery_id(
                        node_views(graph_nodes(graph)),
                        start_id,
                        current.index as int,
                    ) == current.song_id,
                    old(store).effective_relationships(current.song_id) == Some(rel_views(rels@)),
                    forall|m: int|
                        0 <= m < i ==> rel_edge_present(
                            node_views(graph_nodes(graph)),
                            graph_edges(graph),
                            current.index as int,
                            start_id,
                            #[trigger] rel_views(rels@)[m],
                        ),
                    forall|i2: int|
                        0 <= i2 < node_views(graph_nodes(graph)).len() && (#[trigger] node_views(
                            graph_nodes(graph),
                        )[i2]).degree < degree && i2 != current.index as int ==> node_expanded(
                            *old(store),
                            node_views(graph_nodes(graph)),
                            graph_edges(graph),
                            start_id,
                            i2,
                        ) || queued_at(queue@, i2),
                decreases rels@.len() - i,
            {
                let ghost st_before = bfs_abs(
                    graph_nodes(graph),
                    graph_edges(graph),
                    visited@,
                    queue@,
                );
                process_relationship(
                    &mut graph,
                    &mut visited,
                    &mut queue,
                    current.index,
                    next_degree,
                    &rels[i],
                    degree,
                );
                proof {
                    lemma_step_wf(
                        st_before,
                        start_id,
                        current.index,
                        next_degree,
                        rels@[i as int]@,
                        degree,
                    );
                    if !st_before.visited.contains_key(rels@[i as int]@.song.id) {
                        assert(visited@.dom() =~= st_before.visited.dom().insert(
                            rels@[i as int]@.song.id,
                        ));
                    }
                    let rs_done = rel_views(rels@).subrange(0, i as int);
                    assert forall|m: int| 0 <= m < rs_done.len() implies rel_edge_present(
                        st_before.nodes,
                        st_before.edges,
                        current.index as int,
                        start_id,
                        #[trigger] rs_done[m],
                    ) by {
                        assert(rs_done[m] == rel_views(rels@)[m]);
                    }
                    lemma_claims_after_step(
                        *old(store),
                        st_before,
                        start_id,
                        current.index,
                        next_degree,
                        rels@[i as int]@,
                        degree,
                        rs_done,
                    );
                    let st_after = bfs_abs(graph_nodes(graph), graph_edges(graph), visited@, queue@);
                    assert(st_after == step_rel(
                        st_before,
                        current.index,
                        next_degree,
                        rels@[i as int]@,
                        degree,
                    ));
                    assert(st_after.nodes == node_views(graph_nodes(graph)));
                    assert(st_after.edges == graph_edges(graph));
                    assert(st_after.queue == queue@);
                    assert forall|m: int| 0 <= m < i + 1 implies rel_edge_present(
                        node_views(graph_nodes(graph)),
                        graph_edges(graph),
                        current.index as int,
                        start_id,
                        #[trigger] rel_views(rels@)[m],
                    ) by {
                        if m < i {
                            assert(rel_edge_present(
                                st_after.nodes,
                                st_after.edges,
                                current.index as int,
                                start_id,
                                rs_done[m],
                            ));
                            assert(rs_done[m] == rel_views(rels@)[m]);
                        } else {
                            assert(rel_views(rels@)[m] == rels@[m]@);
                            assert(rel_edge_present(
                                st_after.nodes,
                                st_after.edges,
                                current.index as int,
                                start_id,
                                rels@[m]@,
                            ));
                        }
                    }
                    assert(st_after.nodes[current.index as int]
                        == st_before.nodes[current.index as int]);
                    assert(discovery_id(st_after.nodes, start_id, current.index as int)
                        == current.song_id);
                }
                i = i + 1;
            }
            proof {
                lemma_u32_set_card(visited@.dom());
                if visited@.dom().len() == vis_start.len() {
                    assert(visited@.dom() =~= vis_start) by {
                        vstd::set_lib::lemma_subset_equality(vis_start, visited@.dom());
                    }
                    assert(queue@.len() < q_start);
                }
                let ns = node_views(graph_nodes(graph));
                let es = graph_edges(graph);
                let c = current.index as int;
                let rs = old(store).effective_relationships(current.song_id);
                assert(rs == Some(rel_views(rels@)));
                assert forall|m: int| 0 <= m < rs->Some_0.len() implies rel_edge_present(
                    ns,
                    es,
                    c,
                    start_id,
                    #[trigger] rs->Some_0[m],
                ) by {
                    assert(rs->Some_0[m] == rel_views(rels@)[m]);
                    assert(rel_edge_present(ns, es, c, start_id, rel_views(rels@)[m]));
                }
                assert(node_expanded(*old(store), ns, es, start_id, c));
                assert forall|i2: int|
                    0 <= i2 < ns.len() && (#[trigger] ns[i2]).degree < degree implies node_expanded(
                    *old(store),
                    ns,
                    es,
                    start_id,
                    i2,
                ) || queued_at(queue@, i2) by {
                    if i2 == c {
                        assert(node_expanded(*old(store), ns, es, start_id, c));
                    }
                }
            }
        } else {
            proof {
                lemma_u32_set_card(visited@.dom());
                let ns = node_views(graph_nodes(graph));
                assert forall|i2: int|
                    0 <= i2 < ns.len() && (#[trigger] ns[i2]).degree < degree implies node_expanded(
                    *old(store),
                    ns,
                    graph_edges(graph),
                    start_id,
                    i2,
                ) || queued_at(queue@, i2) by {
                    if i2 == current.index as int {
                        assert(ns[i2].degree == current.degree);
                    }
                }
            }
        }
    }

    proof {
        let st = bfs_abs(graph_nodes(graph), graph_edges(graph), visited@, queue@);
        let ns = node_views(graph_nodes(graph));
        let es = graph_edges(graph);
        assert(st.nodes == ns);
        assert(st.edges == es);
        assert(bfs_wf(st, start_id, degree));
        assert forall|i: int, j: int| 1 <= i < j < ns.len() implies (#[trigger] ns[i]).song.id != (
        #[trigger] ns[j]).song.id by {
            assert(st.visited.contains_key(st.nodes[i].song.id) && st.visited[st.nodes[i].song.id]
                == i);
            assert(st.visited.contains_key(st.nodes[j].song.id) && st.visited[st.nodes[j].song.id]
                == j);
        }
        assert forall|j: int| 1 <= j < ns.len() implies (#[trigger] ns[j]).song.id != start_id by {
            assert(st.visited.contains_key(st.nodes[j].song.id) && st.visited[st.nodes[j].song.id]
                == j);
            assert(st.visited[start_id] == 0);
        }
        assert forall|i: int| 0 <= i < ns.len() implies (#[trigger] ns[i]).degree <= degree by {
            assert(st.nodes[i].degree <= degree);
        }
        assert forall|k: int|
            0 <= k < es.len() implies (#[trigger] es[k]).0 < ns.len() && es[k].1 < ns.len()
            && ns[es[k].0 as int].degree < degree by {
            assert(st.edges[k].0 < st.nodes.len() && st.edges[k].1 < st.nodes.len()
                && st.nodes[st.edges[k].0 as int].degree < degree);
        }
    }
    Ok(graph)
}

} // verus!
