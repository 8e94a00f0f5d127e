//! Tests for the cache payload codec: serialized values must come back
//! exactly, and broken payloads must be rejected.

use sample_graph::codec::{
    decode_relationships, decode_song, decode_songs, encode_relationships, encode_song,
    encode_songs,
};
use sample_graph::{Relationship, RelationshipType, SongData};

#[test]
fn test_song_codec_round_trip() {
    let song = SongData::new(42, "Foobar".to_string(), "The Sillys".to_string());
    let bytes = encode_song(&song);
    assert_eq!(decode_song(&bytes), Some(song));
}

#[test]
fn test_song_codec_round_trip_empty_strings() {
    let song = SongData::new(0, String::new(), String::new());
    let bytes = encode_song(&song);
    assert_eq!(decode_song(&bytes), Some(song));
}

#[test]
fn test_song_codec_round_trip_unicode() {
    let song = SongData::new(u32::MAX, "méli-mélo 💿".to_string(), "Ärzte".to_string());
    let bytes = encode_song(&song);
    assert_eq!(decode_song(&bytes), Some(song));
}

#[test]
fn test_song_codec_layout() {
    // id 5, one-character title "A", empty artist name.
    let song = SongData::new(5, "A".to_string(), String::new());
    let bytes = encode_song(&song);
    let mut expected = vec![5, 0, 0, 0];
    expected.extend_from_slice(&[1, 0, 0, 0, 0, 0, 0, 0]);
    expected.extend_from_slice(&[0x41, 0, 0, 0]);
    expected.extend_from_slice(&[0, 0, 0, 0, 0, 0, 0, 0]);
    assert_eq!(bytes, expected);
}

#[test]
fn test_song_codec_rejects_garbage() {
    assert_eq!(decode_song(&vec![]), None);
    assert_eq!(decode_song(&vec![1, 2, 3]), None);
    let song = SongData::new(42, "Foobar".to_string(), "The Sillys".to_string());
    let mut bytes = encode_song(&song);
    bytes.push(0);
    assert_eq!(decode_song(&bytes), None, "trailing bytes must be rejected");
}

#[test]
fn test_song_codec_rejects_surrogate_code_point() {
    // id, then a one-character title whose code point is a surrogate.
    let mut bytes = vec![1, 0, 0, 0];
    bytes.extend_from_slice(&[1, 0, 0, 0, 0, 0, 0, 0]);
    bytes.extend_from_slice(&[0x00, 0xD8, 0, 0]);
    bytes.extend_from_slice(&[0, 0, 0, 0, 0, 0, 0, 0]);
    assert_eq!(decode_song(&bytes), None);
}

#[test]
fn test_relationships_codec_round_trip() {
    let rels = vec![
        Relationship::new(
            RelationshipType::Samples,
            SongData::new(1, "One".to_string(), "A".to_string()),
        ),
        Relationship::new(
            RelationshipType::InterpolatedBy,
            SongData::new(2, "Two".to_string(), "B".to_string()),
        ),
    ];
    let bytes = encode_relationships(&rels);
    assert_eq!(decode_relationships(&bytes), Some(rels));
}

#[test]
fn test_relationships_codec_round_trip_empty() {
    let rels: Vec<Relationship> = vec![];
    let bytes = encode_relationships(&rels);
    assert_eq!(decode_relationships(&bytes), Some(rels));
}

#[test]
fn test_relationships_codec_rejects_bad_tag() {
    let bytes = vec![1, 0, 0, 0, 0, 0, 0, 0, 99];
    assert_eq!(decode_relationships(&bytes), None);
}

#[test]
fn test_songs_codec_round_trip() {
    let songs = vec![
        SongData::new(1, "One".to_string(), "A".to_string()),
        SongData::new(2, "Two".to_string(), "B".to_string()),
        SongData::new(3, String::new(), String::new()),
    ];
    let bytes = encode_songs(&songs);
    assert_eq!(decode_songs(&bytes), Some(songs));
}

#[test]
fn test_songs_codec_round_trip_empty() {
    let songs: Vec<SongData> = vec![];
    let bytes = encode_songs(&songs);
    assert_eq!(decode_songs(&bytes), Some(songs));
}

#[test]
fn test_codec_distinguishes_lists_and_records() {
    let song = SongData::new(9, "Nine".to_string(), "N".to_string());
    let record = encode_song(&song);
    assert_eq!(decode_songs(&record), None, "a bare record is not a list");
}
