//! Tests for the relationship taxonomy: parsing, labels, relevance and
//! inversion.

use sample_graph::RelationshipType;

fn all_kinds() -> Vec<RelationshipType> {
    vec![
        RelationshipType::Samples,
        RelationshipType::SampledIn,
        RelationshipType::Interpolates,
        RelationshipType::InterpolatedBy,
        RelationshipType::CoverOf,
        RelationshipType::CoveredBy,
        RelationshipType::RemixOf,
        RelationshipType::RemixedBy,
        RelationshipType::LiveVersionOf,
        RelationshipType::PerformedLiveAs,
        RelationshipType::TranslationOf,
        RelationshipType::Translations,
        RelationshipType::Unknown,
    ]
}

#[test]
fn test_relationship_type_parse_known() {
    let cases = [
        ("samples", RelationshipType::Samples),
        ("sampled_in", RelationshipType::SampledIn),
        ("interpolates", RelationshipType::Interpolates),
        ("interpolated_by", RelationshipType::InterpolatedBy),
        ("cover_of", RelationshipType::CoverOf),
        ("covered_by", RelationshipType::CoveredBy),
        ("remix_of", RelationshipType::RemixOf),
        ("remixed_by", RelationshipType::RemixedBy),
        ("live_version_of", RelationshipType::LiveVersionOf),
        ("performed_live_as", RelationshipType::PerformedLiveAs),
        ("translation_of", RelationshipType::TranslationOf),
        ("translations", RelationshipType::Translations),
        ("unknown", RelationshipType::Unknown),
    ];
    for (label, expected) in cases {
        assert_eq!(RelationshipType::parse(label), expected);
    }
}

#[test]
fn test_relationship_type_parse_unrecognized() {
    for junk in ["foobar", "", "Samples", "samples ", "sampled-in", "sample"] {
        assert_eq!(RelationshipType::parse(junk), RelationshipType::Unknown);
    }
}

#[test]
fn test_relationship_type_label_round_trip() {
    for kind in all_kinds() {
        assert_eq!(RelationshipType::parse(kind.label()), kind);
    }
}

#[test]
fn test_relationship_type_label_strings() {
    assert_eq!(RelationshipType::Samples.label(), "samples");
    assert_eq!(RelationshipType::InterpolatedBy.label(), "interpolated_by");
    assert_eq!(RelationshipType::Unknown.label(), "unknown");
}

#[test]
fn test_relationship_type_is_relevant() {
    let relevant = [
        RelationshipType::Samples,
        RelationshipType::SampledIn,
        RelationshipType::Interpolates,
        RelationshipType::InterpolatedBy,
    ];
    for kind in all_kinds() {
        assert_eq!(kind.is_relevant(), relevant.contains(&kind));
    }
}

#[test]
fn test_relationship_type_invert() {
    let cases = [
        (RelationshipType::Samples, RelationshipType::SampledIn),
        (RelationshipType::Interpolates, RelationshipType::InterpolatedBy),
        (RelationshipType::CoverOf, RelationshipType::CoveredBy),
        (RelationshipType::RemixOf, RelationshipType::RemixedBy),
        (RelationshipType::LiveVersionOf, RelationshipType::PerformedLiveAs),
        (RelationshipType::TranslationOf, RelationshipType::Translations),
    ];
    for (a, b) in cases {
        assert_eq!(a.invert(), b);
        assert_eq!(b.invert(), a);
    }
    assert_eq!(RelationshipType::Unknown.invert(), RelationshipType::Unknown);
}

#[test]
fn test_relationship_type_invert_involution() {
    for kind in all_kinds() {
        assert_eq!(kind.invert().invert(), kind);
    }
}
