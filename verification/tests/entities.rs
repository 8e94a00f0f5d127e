//! Tests for the entity records and the derived cache keys and addresses.

use sample_graph::cli::Args;
use sample_graph::keys::{relationships_key, search_key, song_key};
use sample_graph::{GraphNode, QueueItem, Relationship, RelationshipType, SongData};

#[test]
fn test_song_data_new() {
    for id in [u32::MIN, u32::MAX, 2539091] {
        for title in ["foobar", "Sillyman!", ""] {
            for artist in ["foofighters", "The sillys", ""] {
                let result = SongData::new(id, title.to_string(), artist.to_string());
                assert_eq!(result.id, id);
                assert_eq!(result.title, title);
                assert_eq!(result.artist_name, artist);
            }
        }
    }
}

#[test]
fn test_relationship_new() {
    let song = SongData::new(7, "Foobar".to_string(), "The Sillys".to_string());
    let result = Relationship::new(RelationshipType::Samples, song.clone());
    assert_eq!(result.relationship_type, RelationshipType::Samples);
    assert_eq!(result.song, song);
}

#[test]
fn test_graph_node_new() {
    let song = SongData::new(12345, "Foobar".to_string(), "Barfoo".to_string());
    let result = GraphNode::new(255, song.clone());
    assert_eq!(result.degree, 255);
    assert_eq!(result.song, song);
}

#[test]
fn test_queue_item_new() {
    let result = QueueItem::new(255, 12345, 17);
    assert_eq!(result.degree, 255);
    assert_eq!(result.song_id, 12345);
    assert_eq!(result.index, 17);
}

#[test]
fn test_song_key() {
    assert_eq!(song_key(0), "song/0");
    assert_eq!(song_key(12345), "song/12345");
    assert_eq!(song_key(u32::MAX), "song/4294967295");
}

#[test]
fn test_relationships_key() {
    assert_eq!(relationships_key(0), "relationships/0");
    assert_eq!(relationships_key(12345), "relationships/12345");
}

#[test]
fn test_search_key() {
    assert_eq!(search_key("foobar"), "search/foobar");
    assert_eq!(search_key(""), "search/");
    assert_eq!(search_key("two words"), "search/two words");
}

#[test]
fn test_args_address() {
    for host in ["0.0.0.0", "192.168.0.12", "127.0.0.55"] {
        for port in [u16::MIN, u16::MAX, 8080, 12345] {
            let args = Args { host: host.to_string(), port };
            assert_eq!(args.address(), format!("{}:{}", host, port));
        }
    }
}
