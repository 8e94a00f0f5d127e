//! The closed taxonomy of relationship kinds between two songs, with
//! relevance filtering, direction inversion and label parsing.

use vstd::prelude::*;

use crate::text::str_eq;

verus! {

/// Possible relationships between songs.
#[derive(Debug, Clone, Copy, PartialEq, Eq, Hash, Structural)]
pub enum RelationshipType {
    /// Samples another song.
    Samples,
    /// Sampled in another song.
    SampledIn,
    /// Interpolates another song.
    Interpolates,
    /// Interpolated by another song.
    InterpolatedBy,
    /// Cover of another song.
    CoverOf,
    /// Covered by another song.
    CoveredBy,
    /// Remix of another song.
    RemixOf,
    /// Remixed by another song.
    RemixedBy,
    /// Live version of another song.
    LiveVersionOf,
    /// Performed live as another song.
    PerformedLiveAs,
    /// Translation of another song.
    TranslationOf,
    /// Translated by another song.
    Translations,
    /// Unknown relationship.
    Unknown,
}

/// The canonical label of a relationship kind, as the external metadata
/// source spells it.
pub open spec fn spec_label(t: RelationshipType) -> Seq<char> {
    match t {
        RelationshipType::Samples => "samples"@,
        RelationshipType::SampledIn => "sampled_in"@,
        RelationshipType::Interpolates => "interpolates"@,
        RelationshipType::InterpolatedBy => "interpolated_by"@,
        RelationshipType::CoverOf => "cover_of"@,
        RelationshipType::CoveredBy => "covered_by"@,
        RelationshipType::RemixOf => "remix_of"@,
        RelationshipType::RemixedBy => "remixed_by"@,
        RelationshipType::LiveVersionOf => "live_version_of"@,
        RelationshipType::PerformedLiveAs => "performed_live_as"@,
        RelationshipType::TranslationOf => "translation_of"@,
        RelationshipType::Translations => "translations"@,
        RelationshipType::Unknown => "unknown"@,
    }
}

/// What a label string parses to: one of the twelve known canonical labels
/// yields its kind, anything else yields `Unknown`.
pub open spec fn spec_parse(s: Seq<char>) -> RelationshipType {
    if s == spec_label(RelationshipType::Samples) {
        RelationshipType::Samples
    } else if s == spec_label(RelationshipType::SampledIn) {
        RelationshipType::SampledIn
    } else if s == spec_label(RelationshipType::Interpolates) {
        RelationshipType::Interpolates
    } else if s == spec_label(RelationshipType::InterpolatedBy) {
        RelationshipType::InterpolatedBy
    } else if s == spec_label(RelationshipType::CoverOf) {
        RelationshipType::CoverOf
    } else if s == spec_label(RelationshipType::CoveredBy) {
        RelationshipType::CoveredBy
    } else if s == spec_label(RelationshipType::RemixOf) {
        RelationshipType::RemixOf
    } else if s == spec_label(RelationshipType::RemixedBy) {
        RelationshipType::RemixedBy
    } else if s == spec_label(RelationshipType::LiveVersionOf) {
        RelationshipType::LiveVersionOf
    } else if s == spec_label(RelationshipType::PerformedLiveAs) {
        RelationshipType::PerformedLiveAs
    } else if s == spec_label(RelationshipType::TranslationOf) {
        RelationshipType::TranslationOf
    } else if s == spec_label(RelationshipType::Translations) {
        RelationshipType::Translations
    } else {
        RelationshipType::Unknown
    }
}

/// Whether a relationship kind is surfaced by the service: exactly the four
/// sampling and interpolation kinds.
pub open spec fn spec_is_relevant(t: RelationshipType) -> bool {
    match t {
        RelationshipType::Samples => true,
        RelationshipType::SampledIn => true,
        RelationshipType::Interpolates => true,
        RelationshipType::InterpolatedBy => true,
        _ => false,
    }
}

/// The structural opposite of a relationship kind; `Unknown` is its own
/// opposite.
pub open spec fn spec_invert(t: RelationshipType) -> RelationshipType {
    match t {
        RelationshipType::SampledIn => RelationshipType::Samples,
        RelationshipType::Samples => RelationshipType::SampledIn,
        RelationshipType::Interpolates => RelationshipType::InterpolatedBy,
        RelationshipType::InterpolatedBy => RelationshipType::Interpolates,
        RelationshipType::CoverOf => RelationshipType::CoveredBy,
        RelationshipType::CoveredBy => RelationshipType::CoverOf,
        RelationshipType::RemixOf => RelationshipType::RemixedBy,
        RelationshipType::RemixedBy => RelationshipType::RemixOf,
        RelationshipType::LiveVersionOf => RelationshipType::PerformedLiveAs,
        RelationshipType::PerformedLiveAs => RelationshipType::LiveVersionOf,
        RelationshipType::TranslationOf => RelationshipType::Translations,
        RelationshipType::Translations => RelationshipType::TranslationOf,
        RelationshipType::Unknown => RelationshipType::Unknown,
    }
}

impl RelationshipType {
    /// Parse a label from the external metadata source. An unrecognized
    /// label never fails: it maps to `Unknown`.
    pub fn parse(value: &str) -> (r: RelationshipType)
        ensures
            r == spec_parse(value@),
    {
        if str_eq(value, "samples") {
            RelationshipType::Samples
        } else if str_eq(value, "sampled_in") {
            RelationshipType::SampledIn
        } else if str_eq(value, "interpolates") {
            RelationshipType::Interpolates
        } else if str_eq(value, "interpolated_by") {
            RelationshipType::InterpolatedBy
        } else if str_eq(value, "cover_of") {
            RelationshipType::CoverOf
        } else if str_eq(value, "covered_by") {
            RelationshipType::CoveredBy
        } else if str_eq(value, "remix_of") {
            RelationshipType::RemixOf
        } else if str_eq(value, "remixed_by") {
            RelationshipType::RemixedBy
        } else if str_eq(value, "live_version_of") {
            RelationshipType::LiveVersionOf
        } else if str_eq(value, "performed_live_as") {
            RelationshipType::PerformedLiveAs
        } else if str_eq(value, "translation_of") {
            RelationshipType::TranslationOf
        } else if str_eq(value, "translations") {
            RelationshipType::Translations
        } else {
            RelationshipType::Unknown
        }
    }

    /// The canonical label of this kind, the exact string the parser accepts
    /// for it.
    pub fn label(&self) -> (r: &'static str)
        ensures
            r@ == spec_label(*self),
    {
        match self {
            RelationshipType::Samples => "samples",
            RelationshipType::SampledIn => "sampled_in",
            RelationshipType::Interpolates => "interpolates",
            RelationshipType::InterpolatedBy => "interpolated_by",
            RelationshipType::CoverOf => "cover_of",
            RelationshipType::CoveredBy => "covered_by",
            RelationshipType::RemixOf => "remix_of",
            RelationshipType::RemixedBy => "remixed_by",
            RelationshipType::LiveVersionOf => "live_version_of",
            RelationshipType::PerformedLiveAs => "performed_live_as",
            RelationshipType::TranslationOf => "translation_of",
            RelationshipType::Translations => "translations",
            RelationshipType::Unknown => "unknown",
        }
    }

    /// Determines if a relationship is relevant to the service: exactly the
    /// sampling and interpolation kinds, in both directions.
    pub fn is_relevant(&self) -> (r: bool)
        ensures
            r == spec_is_relevant(*self),
            r == (*self == RelationshipType::Samples || *self == RelationshipType::SampledIn
                || *self == RelationshipType::Interpolates || *self
                == RelationshipType::InterpolatedBy),
    {
        matches!(
            self,
            RelationshipType::SampledIn | RelationshipType::Samples | RelationshipType::Interpolates
                | RelationshipType::InterpolatedBy
        )
    }

    /// Inverts the relationship type. Unknown relationships stay unknown.
    pub fn invert(&self) -> (r: RelationshipType)
        ensures
            r == spec_invert(*self),
    {
        match self {
            RelationshipType::SampledIn => RelationshipType::Samples,
            RelationshipType::Samples => RelationshipType::SampledIn,
            RelationshipType::Interpolates => RelationshipType::InterpolatedBy,
            RelationshipType::InterpolatedBy => RelationshipType::Interpolates,
            RelationshipType::CoverOf => RelationshipType::CoveredBy,
            RelationshipType::CoveredBy => RelationshipType::CoverOf,
            RelationshipType::RemixOf => RelationshipType::RemixedBy,
            RelationshipType::RemixedBy => RelationshipType::RemixOf,
            RelationshipType::LiveVersionOf => RelationshipType::PerformedLiveAs,
            RelationshipType::PerformedLiveAs => RelationshipType::LiveVersionOf,
            RelationshipType::TranslationOf => RelationshipType::Translations,
            RelationshipType::Translations => RelationshipType::TranslationOf,
            RelationshipType::Unknown => RelationshipType::Unknown,
        }
    }
}

/// Inversion is an involution: inverting any relationship kind twice gives
/// the kind back, `Unknown` included.
pub proof fn lemma_invert_involution(t: RelationshipType)
    ensures
        spec_invert(spec_invert(t)) == t,
{
}

/// Every canonical label parses back to the kind it labels, `Unknown`
/// included.
pub proof fn lemma_label_parses_back(t: RelationshipType)
    ensures
        spec_parse(spec_label(t)) == t,
{
    reveal_strlit("samples");
    reveal_strlit("sampled_in");
    reveal_strlit("interpolates");
    reveal_strlit("interpolated_by");
    reveal_strlit("cover_of");
    reveal_strlit("covered_by");
    reveal_strlit("remix_of");
    reveal_strlit("remixed_by");
    reveal_strlit("live_version_of");
    reveal_strlit("performed_live_as");
    reveal_strlit("translation_of");
    reveal_strlit("translations");
    reveal_strlit("unknown");
    assert("samples"@.len() == 7);
    assert("sampled_in"@.len() == 10);
    assert("interpolates"@.len() == 12);
    assert("interpolated_by"@.len() == 15);
    assert("cover_of"@.len() == 8);
    assert("covered_by"@.len() == 10);
    assert("remix_of"@.len() == 8);
    assert("remixed_by"@.len() == 10);
    assert("live_version_of"@.len() == 15);
    assert("performed_live_as"@.len() == 17);
    assert("translation_of"@.len() == 14);
    assert("translations"@.len() == 12);
    assert("unknown"@.len() == 7);
    assert("sampled_in"@[0] != "covered_by"@[0]);
    assert("sampled_in"@[0] != "remixed_by"@[0]);
    assert("covered_by"@[0] != "remixed_by"@[0]);
    assert("interpolates"@[0] != "translations"@[0]);
    assert("interpolated_by"@[0] != "live_version_of"@[0]);
    assert("cover_of"@[0] != "remix_of"@[0]);
    assert("translation_of"@[0] != "interpolated_by"@[0]);
    assert("translation_of"@[0] != "live_version_of"@[0]);
    assert("unknown"@[0] != "samples"@[0]);
    match t {
        RelationshipType::Samples => assert(spec_parse(spec_label(t)) == t),
        RelationshipType::SampledIn => assert(spec_parse(spec_label(t)) == t),
        RelationshipType::Interpolates => assert(spec_parse(spec_label(t)) == t),
        RelationshipType::InterpolatedBy => assert(spec_parse(spec_label(t)) == t),
        RelationshipType::CoverOf => assert(spec_parse(spec_label(t)) == t),
        RelationshipType::CoveredBy => assert(spec_parse(spec_label(t)) == t),
        RelationshipType::RemixOf => assert(spec_parse(spec_label(t)) == t),
        RelationshipType::RemixedBy => assert(spec_parse(spec_label(t)) == t),
        RelationshipType::LiveVersionOf => assert(spec_parse(spec_label(t)) == t),
        RelationshipType::PerformedLiveAs => assert(spec_parse(spec_label(t)) == t),
        RelationshipType::TranslationOf => assert(spec_parse(spec_label(t)) == t),
        RelationshipType::Translations => assert(spec_parse(spec_label(t)) == t),
        RelationshipType::Unknown => assert(spec_parse(spec_label(t)) == t),
    }
}

/// Every string that parses to a known kind is that kind's canonical label,
/// so parsing and serializing a known label gives the same string back.
pub proof fn lemma_parse_labels_back(s: Seq<char>)
    ensures
        spec_parse(s) != RelationshipType::Unknown ==> spec_label(spec_parse(s)) == s,
{
}

} // verus!
