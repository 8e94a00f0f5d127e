//! A verified core for a song-relationship service: a taxonomy of
//! relationship kinds, immutable song records, a cache-aside store over
//! pluggable cache and metadata-source capabilities, and a bounded
//! breadth-first builder that assembles the answers into a directed graph.

pub mod cli;
pub mod codec;
pub mod decimal;
pub mod fixture;
pub mod graph;
pub mod keys;
pub mod models;
pub mod store;
pub mod taxonomy;
pub mod text;

pub use cli::Args;
pub use graph::build_graph;
pub use graph::QueueItem;
pub use graph::SongGraph;

pub use models::GraphNode;
pub use models::Relationship;
pub use models::SongData;
pub use store::StateError;
pub use store::Store;
pub use taxonomy::RelationshipType;
