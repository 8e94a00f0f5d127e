//! Immutable value records for songs, relationships and graph nodes.

use vstd::prelude::*;

use crate::taxonomy::RelationshipType;

verus! {

/// The mathematical value of a [`SongData`] record.
pub struct SongDataView {
    /// Stable external numeric identifier of the song.
    pub id: u32,
    /// Title of the song.
    pub title: Seq<char>,
    /// Name of the artist who made the song.
    pub artist_name: Seq<char>,
}

/// Relevant song data.
#[derive(Debug, PartialEq)]
pub struct SongData {
    /// Stable external numeric identifier of the song, unique per song.
    pub id: u32,
    /// Title of the song.
    pub title: String,
    /// Name of the artist who made the song.
    pub artist_name: String,
}

impl View for SongData {
    type V = SongDataView;

    open spec fn view(&self) -> SongDataView {
        SongDataView { id: self.id, title: self.title@, artist_name: self.artist_name@ }
    }
}

impl Clone for SongData {
    fn clone(&self) -> (r: Self)
        ensures
            r == *self,
    {
        SongData { id: self.id, title: self.title.clone(), artist_name: self.artist_name.clone() }
    }
}

impl SongData {
    /// Create new song data.
    pub fn new(id: u32, title: String, artist_name: String) -> (r: Self)
        ensures
            r.id == id,
            r.title == title,
            r.artist_name == artist_name,
    {
        SongData { id, title, artist_name }
    }
}

/// The mathematical value of a [`Relationship`] record.
pub struct RelationshipView {
    /// The kind of relationship.
    pub relationship_type: RelationshipType,
    /// The song the relationship points at.
    pub song: SongDataView,
}

/// One outbound edge from an implicit source song: a relationship kind
/// paired with the song it relates to.
#[derive(Debug, PartialEq)]
pub struct Relationship {
    /// The type of relationship.
    pub relationship_type: RelationshipType,
    /// The song that the relationship applies to.
    pub song: SongData,
}

impl View for Relationship {
    type V = RelationshipView;

    open spec fn view(&self) -> RelationshipView {
        RelationshipView { relationship_type: self.relationship_type, song: self.song@ }
    }
}

impl Clone for Relationship {
    fn clone(&self) -> (r: Self)
        ensures
            r == *self,
    {
        Relationship { relationship_type: self.relationship_type, song: self.song.clone() }
    }
}

impl Relationship {
    /// Create a new relationship.
    pub fn new(relationship_type: RelationshipType, song: SongData) -> (r: Self)
        ensures
            r.relationship_type == relationship_type,
            r.song == song,
    {
        Relationship { relationship_type, song }
    }
}

/// The mathematical value of a [`GraphNode`].
pub struct GraphNodeView {
    /// Degree of separation from the start of the traversal.
    pub degree: u8,
    /// The song at this node.
    pub song: SongDataView,
}

/// Node data in a song graph: a song annotated with its degree of
/// separation at first discovery.
#[derive(Debug, PartialEq)]
pub struct GraphNode {
    /// Degree of separation from the start of the traversal, fixed at first
    /// discovery.
    pub degree: u8,
    /// The song at this node.
    pub song: SongData,
}

impl View for GraphNode {
    type V = GraphNodeView;

    open spec fn view(&self) -> GraphNodeView {
        GraphNodeView { degree: self.degree, song: self.song@ }
    }
}

impl Clone for GraphNode {
    fn clone(&self) -> (r: Self)
        ensures
            r == *self,
    {
        GraphNode { degree: self.degree, song: self.song.clone() }
    }
}

impl GraphNode {
    /// Create a new graph node.
    pub fn new(degree: u8, song: SongData) -> (r: Self)
        ensures
            r.degree == degree,
            r.song == song,
    {
        GraphNode { degree, song }
    }
}

/// The views of a sequence of song records.
pub open spec fn song_views(v: Seq<SongData>) -> Seq<SongDataView> {
    v.map_values(|s: SongData| s@)
}

/// The views of a sequence of relationships.
pub open spec fn rel_views(v: Seq<Relationship>) -> Seq<RelationshipView> {
    v.map_values(|r: Relationship| r@)
}

} // verus!
