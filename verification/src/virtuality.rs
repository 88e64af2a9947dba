//! The virtuality classifier: decides whether a triplet is virtual
//! (non-indicative mood) or real, and classifies the location role of
//! its object.

use vstd::prelude::*;
use crate::records::{
    FeatureTag, FeatureValue, InputExemptFeature, InputWordFeature, InputWordRelation, UdTag,
    MOOD_INDICATIVE,
};

verus! {

/// Location type codes of an event's object.
pub const LOCATION_VIRTUAL: i32 = 1;

pub const LOCATION_GEOGRAPHIC: i32 = 2;

pub const LOCATION_TEMPORAL: i32 = 3;

pub const LOCATION_TEMPORAL_TERMINATIVE: i32 = 4;

/// A feature that marks a non-indicative mood.
pub open spec fn is_nonind_mood_feature(f: InputWordFeature) -> bool {
    f.ud_relation == UdTag::Mood && match f.ud_feature_value {
        FeatureValue::Mood(m) => m != MOOD_INDICATIVE,
        _ => false,
    }
}

/// The mood code of the first non-indicative mood feature, if any.
pub open spec fn first_nonind_mood(fs: Seq<InputWordFeature>) -> Option<u32>
    decreases fs.len(),
{
    if fs.len() == 0 {
        None
    } else if is_nonind_mood_feature(fs[0]) {
        match fs[0].ud_feature_value {
            FeatureValue::Mood(m) => Some(m),
            _ => None,
        }
    } else {
        first_nonind_mood(fs.skip(1))
    }
}

/// Whether a discourse-level exemption names the given mood code.
pub open spec fn mood_exempt(exempt_tags: Seq<InputExemptFeature>, m: u32) -> bool {
    exists|i: int|
        0 <= i < exempt_tags.len() && (#[trigger] exempt_tags[i]).ud_feature == FeatureTag::Mood
            && exempt_tags[i].ud_feature_value == FeatureValue::Mood(m)
}

fn is_mood_exempted(exempt_tags: &Vec<InputExemptFeature>, m: u32) -> (r: bool)
    ensures
        r == mood_exempt(exempt_tags@, m),
{
    let mut i: usize = 0;
    while i < exempt_tags.len()
        invariant
            i <= exempt_tags@.len(),
            !mood_exempt(exempt_tags@.take(i as int), m),
        decreases exempt_tags@.len() - i,
    {
        let e = exempt_tags[i];
        let matched = match (e.ud_feature, e.ud_feature_value) {
            (FeatureTag::Mood, FeatureValue::Mood(code)) => code == m,
            _ => false,
        };
        if matched {
            proof {
                assert(exempt_tags@[i as int].ud_feature == FeatureTag::Mood
                    && exempt_tags@[i as int].ud_feature_value == FeatureValue::Mood(m));
            }
            return true;
        }
        proof {
            assert forall|k: int| 0 <= k < i + 1 implies !((#[trigger] exempt_tags@.take(
                i + 1,
            )[k]).ud_feature == FeatureTag::Mood && exempt_tags@.take(i + 1)[k].ud_feature_value
                == FeatureValue::Mood(m)) by {
                if k < i {
                    assert(exempt_tags@.take(i as int)[k] == exempt_tags@.take(i + 1)[k]);
                    assert(!mood_exempt(exempt_tags@.take(i as int), m));
                } else {
                    assert(exempt_tags@.take(i + 1)[k] == exempt_tags@[i as int]);
                }
            }
        }
        i = i + 1;
    }
    proof {
        assert(exempt_tags@.take(exempt_tags@.len() as int) =~= exempt_tags@);
    }
    false
}

/// Checks whether a triplet is virtual or real from its word features.
/// Returns the virtuality flag and the mood code.  The first feature
/// whose relation is the mood relation and whose value is not the
/// indicative mood makes the triplet virtual with that mood, unless a
/// discourse-level exemption names the same mood code, in which case
/// the triplet stays real but the exempted mood code is still recorded.
/// Without such a feature the triplet is real with the indicative mood.
pub fn is_virtual(
    input_features: &Vec<InputWordFeature>,
    exempt_tags: &Vec<InputExemptFeature>,
) -> (r: (bool, u32))
    ensures
        first_nonind_mood(input_features@) is None ==> r == (false, MOOD_INDICATIVE),
        first_nonind_mood(input_features@) matches Some(m) ==> r == (
            !mood_exempt(exempt_tags@, m),
            m,
        ),
{
    let mut i: usize = 0;
    proof {
        assert(input_features@.skip(0) =~= input_features@);
    }
    while i < input_features.len()
        invariant
            i <= input_features@.len(),
            first_nonind_mood(input_features@) == first_nonind_mood(
                input_features@.skip(i as int),
            ),
        decreases input_features@.len() - i,
    {
        let f = input_features[i];
        let mood_code: Option<u32> = match (f.ud_relation, f.ud_feature_value) {
            (UdTag::Mood, FeatureValue::Mood(m)) => if m != MOOD_INDICATIVE {
                Some(m)
            } else {
                None
            },
            _ => None,
        };
        proof {
            assert(input_features@.skip(i as int)[0] == input_features@[i as int]);
            assert(input_features@.skip(i as int).skip(1) =~= input_features@.skip(i + 1));
        }
        if let Some(m) = mood_code {
            let exempted = is_mood_exempted(exempt_tags, m);
            return (!exempted, m);
        }
        i = i + 1;
    }
    proof {
        assert(input_features@.skip(input_features@.len() as int) =~= Seq::<
            InputWordFeature,
        >::empty());
    }
    (false, MOOD_INDICATIVE)
}

/// Whether a dependency edge directly connects two words, in either
/// direction.
pub open spec fn words_connected(rels: Seq<InputWordRelation>, a: i32, b: i32) -> bool {
    exists|i: int|
        0 <= i < rels.len() && (((#[trigger] rels[i]).word_id == a && rels[i].word_id_modified == b)
            || (rels[i].word_id_modified == a && rels[i].word_id == b))
}

fn words_connected_exec(rels: &Vec<InputWordRelation>, a: i32, b: i32) -> (r: bool)
    ensures
        r == words_connected(rels@, a, b),
{
    let mut i: usize = 0;
    while i < rels.len()
        invariant
            i <= rels@.len(),
            !words_connected(rels@.take(i as int), a, b),
        decreases rels@.len() - i,
    {
        let e = rels[i];
        if (e.word_id == a && e.word_id_modified == b) || (e.word_id_modified == a && e.word_id
            == b) {
            proof {
                assert((rels@[i as int].word_id == a && rels@[i as int].word_id_modified == b) || (
                rels@[i as int].word_id_modified == a && rels@[i as int].word_id == b));
            }
            return true;
        }
        proof {
            assert forall|k: int| 0 <= k < i + 1 implies !(((#[trigger] rels@.take(i + 1)[k]).word_id
                == a && rels@.take(i + 1)[k].word_id_modified == b) || (rels@.take(
                i + 1,
            )[k].word_id_modified == a && rels@.take(i + 1)[k].word_id == b)) by {
                if k < i {
                    assert(rels@.take(i as int)[k] == rels@.take(i + 1)[k]);
                    assert(!words_connected(rels@.take(i as int), a, b));
                } else {
                    assert(rels@.take(i + 1)[k] == rels@[i as int]);
                }
            }
        }
        i = i + 1;
    }
    proof {
        assert(rels@.take(rels@.len() as int) =~= rels@);
    }
    false
}

/// The location type that a sequence of section features settles on:
/// each case feature whose word is directly related to the object word
/// maps its value (geographic, temporal, terminative) onto the result;
/// features without a connecting edge, and case values outside the
/// three location classes, leave the result unchanged.  The default is
/// the virtual location.
pub open spec fn spec_location_type(
    fs: Seq<InputWordFeature>,
    rels: Seq<InputWordRelation>,
    object_word_id: i32,
) -> i32
    decreases fs.len(),
{
    if fs.len() == 0 {
        LOCATION_VIRTUAL
    } else {
        let prev = spec_location_type(fs.drop_last(), rels, object_word_id);
        let f = fs.last();
        if f.ud_feature == FeatureTag::Case && words_connected(rels, f.word_id, object_word_id) {
            if f.ud_feature_value == FeatureValue::CaseGeographic {
                LOCATION_GEOGRAPHIC
            } else if f.ud_feature_value == FeatureValue::CaseTemporal {
                LOCATION_TEMPORAL
            } else if f.ud_feature_value == FeatureValue::CaseTerminative {
                LOCATION_TEMPORAL_TERMINATIVE
            } else {
                prev
            }
        } else {
            prev
        }
    }
}

/// Classifies the location role of a triplet's object from the case
/// features of the object's section words and the sentence's
/// dependency edges.
pub fn get_location_type(
    features_by_section: &Vec<InputWordFeature>,
    input_word_relations: &Vec<InputWordRelation>,
    object_word_id: i32,
) -> (r: i32)
    ensures
        r == spec_location_type(features_by_section@, input_word_relations@, object_word_id),
{
    let mut result: i32 = LOCATION_VIRTUAL;
    let mut i: usize = 0;
    while i < features_by_section.len()
        invariant
            i <= features_by_section@.len(),
            result == spec_location_type(
                features_by_section@.take(i as int),
                input_word_relations@,
                object_word_id,
            ),
        decreases features_by_section@.len() - i,
    {
        let f = features_by_section[i];
        let is_case = match f.ud_feature {
            FeatureTag::Case => true,
            _ => false,
        };
        if is_case {
            if words_connected_exec(input_word_relations, f.word_id, object_word_id) {
                match f.ud_feature_value {
                    FeatureValue::CaseGeographic => result = LOCATION_GEOGRAPHIC,
                    FeatureValue::CaseTemporal => result = LOCATION_TEMPORAL,
                    FeatureValue::CaseTerminative => result = LOCATION_TEMPORAL_TERMINATIVE,
                    _ => {},
                }
            }
        }
        proof {
            assert(features_by_section@.take(i + 1).drop_last() =~= features_by_section@.take(
                i as int,
            ));
            assert(features_by_section@.take(i + 1).last() == features_by_section@[i as int]);
        }
        i = i + 1;
    }
    proof {
        assert(features_by_section@.take(features_by_section@.len() as int)
            =~= features_by_section@);
    }
    result
}

} // verus!
