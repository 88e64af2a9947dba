//! The triplet resolver: picks the focus word of each section of a
//! triplet, refines the choice by feature weights, applies the
//! passive-voice correction, and prunes and orders triplets.

use vstd::prelude::*;
use crate::records::{
    AnimacyClass, FeatureTag, FeatureValue, InputSection, InputTriplet, InputWordFeature,
    InputWordRelation, UdTag,
};

verus! {

broadcast use vstd::seq_lib::group_to_multiset_ensures;

/// The relation-grade table: core argument relations grade highest,
/// clausal arguments next, nominal modifiers after them.
pub open spec fn relation_grade(tag: UdTag) -> int {
    match tag {
        UdTag::NSubj => 40,
        UdTag::Obj => 40,
        UdTag::IObj => 40,
        UdTag::CSubj => 39,
        UdTag::CComp => 39,
        UdTag::XComp => 39,
        UdTag::NMod => 38,
        UdTag::Appos => 38,
        UdTag::NumMod => 38,
        UdTag::AMod => 38,
        UdTag::Acl => 38,
        _ => 0,
    }
}

fn relation_grade_exec(tag: UdTag) -> (r: i32)
    ensures
        r == relation_grade(tag),
{
    match tag {
        UdTag::NSubj => 40,
        UdTag::Obj => 40,
        UdTag::IObj => 40,
        UdTag::CSubj => 39,
        UdTag::CComp => 39,
        UdTag::XComp => 39,
        UdTag::NMod => 38,
        UdTag::Appos => 38,
        UdTag::NumMod => 38,
        UdTag::AMod => 38,
        UdTag::Acl => 38,
        _ => 0,
    }
}

/// The grade of a word: the best relation grade among the dependency
/// edges it heads.
pub open spec fn word_grade(rels: Seq<InputWordRelation>, word_id: i32) -> int
    decreases rels.len(),
{
    if rels.len() == 0 {
        0
    } else {
        let prev = word_grade(rels.drop_last(), word_id);
        let g = if rels.last().word_id == word_id {
            relation_grade(rels.last().ud_relation)
        } else {
            0
        };
        if g > prev {
            g
        } else {
            prev
        }
    }
}

fn word_grade_exec(rels: &Vec<InputWordRelation>, word_id: i32) -> (r: i32)
    ensures
        r == word_grade(rels@, word_id),
{
    let mut result: i32 = 0;
    let mut i: usize = 0;
    while i < rels.len()
        invariant
            i <= rels@.len(),
            result == word_grade(rels@.take(i as int), word_id),
        decreases rels@.len() - i,
    {
        let e = rels[i];
        if e.word_id == word_id {
            let g = relation_grade_exec(e.ud_relation);
            if g > result {
                result = g;
            }
        }
        proof {
            assert(rels@.take(i + 1).drop_last() =~= rels@.take(i as int));
            assert(rels@.take(i + 1).last() == rels@[i as int]);
        }
        i = i + 1;
    }
    proof {
        assert(rels@.take(rels@.len() as int) =~= rels@);
    }
    result
}

/// The top-graded section row of a triplet's section group; among rows
/// of equal grade the earliest row wins.
pub open spec fn best_section(
    secs: Seq<InputSection>,
    rels: Seq<InputWordRelation>,
    triplet_id: i32,
    section_type: i32,
) -> Option<InputSection>
    decreases secs.len(),
{
    if secs.len() == 0 {
        None
    } else {
        let prev = best_section(secs.drop_last(), rels, triplet_id, section_type);
        let s = secs.last();
        if s.triplet_id == triplet_id && s.section_type == section_type {
            match prev {
                None => Some(s),
                Some(b) => if word_grade(rels, s.word_id) > word_grade(rels, b.word_id) {
                    Some(s)
                } else {
                    Some(b)
                },
            }
        } else {
            prev
        }
    }
}

fn best_section_exec(
    secs: &Vec<InputSection>,
    rels: &Vec<InputWordRelation>,
    triplet_id: i32,
    section_type: i32,
) -> (r: Option<InputSection>)
    ensures
        r == best_section(secs@, rels@, triplet_id, section_type),
{
    let mut result: Option<InputSection> = None;
    let mut i: usize = 0;
    while i < secs.len()
        invariant
            i <= secs@.len(),
            result == best_section(secs@.take(i as int), rels@, triplet_id, section_type),
        decreases secs@.len() - i,
    {
        let s = secs[i];
        if s.triplet_id == triplet_id && s.section_type == section_type {
            match result {
                None => {
                    result = Some(s);
                },
                Some(b) => {
                    if word_grade_exec(rels, s.word_id) > word_grade_exec(rels, b.word_id) {
                        result = Some(s);
                    }
                },
            }
        }
        proof {
            assert(secs@.take(i + 1).drop_last() =~= secs@.take(i as int));
            assert(secs@.take(i + 1).last() == secs@[i as int]);
        }
        i = i + 1;
    }
    proof {
        assert(secs@.take(secs@.len() as int) =~= secs@);
    }
    result
}

/// The feature-weight ranking: person outranks possession, pronoun
/// type, reflexivity and animacy, in that order.
pub open spec fn feature_weight(tag: FeatureTag) -> int {
    match tag {
        FeatureTag::Person => 5,
        FeatureTag::Poss => 4,
        FeatureTag::PronType => 3,
        FeatureTag::Reflex => 2,
        FeatureTag::Animacy => 1,
        _ => 0,
    }
}

/// The heaviest feature weight among a word's features.
pub open spec fn max_feature_weight(fs: Seq<InputWordFeature>) -> int
    decreases fs.len(),
{
    if fs.len() == 0 {
        0
    } else {
        let prev = max_feature_weight(fs.drop_last());
        let w = feature_weight(fs.last().ud_feature);
        if w > prev {
            w
        } else {
            prev
        }
    }
}

fn max_feature_weight_exec(fs: &Vec<InputWordFeature>) -> (r: i32)
    ensures
        r == max_feature_weight(fs@),
{
    let mut result: i32 = 0;
    let mut i: usize = 0;
    while i < fs.len()
        invariant
            i <= fs@.len(),
            result == max_feature_weight(fs@.take(i as int)),
        decreases fs@.len() - i,
    {
        let w: i32 = match fs[i].ud_feature {
            FeatureTag::Person => 5,
            FeatureTag::Poss => 4,
            FeatureTag::PronType => 3,
            FeatureTag::Reflex => 2,
            FeatureTag::Animacy => 1,
            _ => 0,
        };
        if w > result {
            result = w;
        }
        proof {
            assert(fs@.take(i + 1).drop_last() =~= fs@.take(i as int));
            assert(fs@.take(i + 1).last() == fs@[i as int]);
        }
        i = i + 1;
    }
    proof {
        assert(fs@.take(fs@.len() as int) =~= fs@);
    }
    result
}

/// The animacy ordinal: human, animate, non-human, inanimate; a lower
/// ordinal wins a tie.
pub open spec fn animacy_ordinal(a: AnimacyClass) -> int {
    match a {
        AnimacyClass::Human => 0,
        AnimacyClass::Animate => 1,
        AnimacyClass::NonHuman => 2,
        AnimacyClass::Inanimate => 3,
    }
}

fn animacy_ordinal_exec(a: AnimacyClass) -> (r: i32)
    ensures
        r == animacy_ordinal(a),
{
    match a {
        AnimacyClass::Human => 0,
        AnimacyClass::Animate => 1,
        AnimacyClass::NonHuman => 2,
        AnimacyClass::Inanimate => 3,
    }
}

/// The grammatical person of a word's first person feature.
pub open spec fn first_person_value(fs: Seq<InputWordFeature>) -> Option<u8>
    decreases fs.len(),
{
    if fs.len() == 0 {
        None
    } else if fs[0].ud_feature == FeatureTag::Person && (fs[0].ud_feature_value matches
        FeatureValue::Person(_)) {
        match fs[0].ud_feature_value {
            FeatureValue::Person(p) => Some(p),
            _ => None,
        }
    } else {
        first_person_value(fs.skip(1))
    }
}

/// The animacy class of a word's first animacy feature.
pub open spec fn first_animacy_value(fs: Seq<InputWordFeature>) -> Option<AnimacyClass>
    decreases fs.len(),
{
    if fs.len() == 0 {
        None
    } else if fs[0].ud_feature == FeatureTag::Animacy && (fs[0].ud_feature_value matches
        FeatureValue::Animacy(_)) {
        match fs[0].ud_feature_value {
            FeatureValue::Animacy(a) => Some(a),
            _ => None,
        }
    } else {
        first_animacy_value(fs.skip(1))
    }
}

/// The word of the first candidate feature marking a personal pronoun.
pub open spec fn first_prs_word(fs: Seq<InputWordFeature>) -> Option<i32>
    decreases fs.len(),
{
    if fs.len() == 0 {
        None
    } else if fs[0].ud_feature == FeatureTag::PronType && fs[0].ud_feature_value
        == FeatureValue::PersonalPronoun {
        Some(fs[0].word_id)
    } else {
        first_prs_word(fs.skip(1))
    }
}

/// The word of the first candidate person feature whose ordinal beats
/// the provisional word's person ordinal.
pub open spec fn first_person_better_word(fs: Seq<InputWordFeature>, q: u8) -> Option<i32>
    decreases fs.len(),
{
    if fs.len() == 0 {
        None
    } else if fs[0].ud_feature == FeatureTag::Person && (match fs[0].ud_feature_value {
        FeatureValue::Person(p) => p < q,
        _ => false,
    }) {
        Some(fs[0].word_id)
    } else {
        first_person_better_word(fs.skip(1), q)
    }
}

/// The word of the first candidate animacy feature whose ordinal beats
/// the provisional word's animacy ordinal.
pub open spec fn first_animacy_better_word(fs: Seq<InputWordFeature>, b: AnimacyClass) -> Option<
    i32,
>
    decreases fs.len(),
{
    if fs.len() == 0 {
        None
    } else if fs[0].ud_feature == FeatureTag::Animacy && (match fs[0].ud_feature_value {
        FeatureValue::Animacy(a) => animacy_ordinal(a) < animacy_ordinal(b),
        _ => false,
    }) {
        Some(fs[0].word_id)
    } else {
        first_animacy_better_word(fs.skip(1), b)
    }
}

fn first_prs_word_exec(fs: &Vec<InputWordFeature>) -> (r: Option<i32>)
    ensures
        r == first_prs_word(fs@),
{
    let mut i: usize = 0;
    proof {
        assert(fs@.skip(0) =~= fs@);
    }
    while i < fs.len()
        invariant
            i <= fs@.len(),
            first_prs_word(fs@) == first_prs_word(fs@.skip(i as int)),
        decreases fs@.len() - i,
    {
        let f = fs[i];
        proof {
            assert(fs@.skip(i as int)[0] == fs@[i as int]);
            assert(fs@.skip(i as int).skip(1) =~= fs@.skip(i + 1));
        }
        let matched = match (f.ud_feature, f.ud_feature_value) {
            (FeatureTag::PronType, FeatureValue::PersonalPronoun) => true,
            _ => false,
        };
        if matched {
            return Some(f.word_id);
        }
        i = i + 1;
    }
    proof {
        assert(fs@.skip(fs@.len() as int) =~= Seq::<InputWordFeature>::empty());
    }
    None
}

fn first_person_better_word_exec(fs: &Vec<InputWordFeature>, q: u8) -> (r: Option<i32>)
    ensures
        r == first_person_better_word(fs@, q),
{
    let mut i: usize = 0;
    proof {
        assert(fs@.skip(0) =~= fs@);
    }
    while i < fs.len()
        invariant
            i <= fs@.len(),
            first_person_better_word(fs@, q) == first_person_better_word(fs@.skip(i as int), q),
        decreases fs@.len() - i,
    {
        let f = fs[i];
        proof {
            assert(fs@.skip(i as int)[0] == fs@[i as int]);
            assert(fs@.skip(i as int).skip(1) =~= fs@.skip(i + 1));
        }
        let matched = match (f.ud_feature, f.ud_feature_value) {
            (FeatureTag::Person, FeatureValue::Person(p)) => p < q,
            _ => false,
        };
        if matched {
            return Some(f.word_id);
        }
        i = i + 1;
    }
    proof {
        assert(fs@.skip(fs@.len() as int) =~= Seq::<InputWordFeature>::empty());
    }
    None
}

fn first_animacy_better_word_exec(fs: &Vec<InputWordFeature>, b: AnimacyClass) -> (r: Option<i32>)
    ensures
        r == first_animacy_better_word(fs@, b),
{
    let mut i: usize = 0;
    proof {
        assert(fs@.skip(0) =~= fs@);
    }
    while i < fs.len()
        invariant
            i <= fs@.len(),
            first_animacy_better_word(fs@, b) == first_animacy_better_word(fs@.skip(i as int), b),
        decreases fs@.len() - i,
    {
        let f = fs[i];
        proof {
            assert(fs@.skip(i as int)[0] == fs@[i as int]);
            assert(fs@.skip(i as int).skip(1) =~= fs@.skip(i + 1));
        }
        let matched = match (f.ud_feature, f.ud_feature_value) {
            (FeatureTag::Animacy, FeatureValue::Animacy(a)) => animacy_ordinal_exec(a)
                < animacy_ordinal_exec(b),
            _ => false,
        };
        if matched {
            return Some(f.word_id);
        }
        i = i + 1;
    }
    proof {
        assert(fs@.skip(fs@.len() as int) =~= Seq::<InputWordFeature>::empty());
    }
    None
}

fn first_person_value_exec(fs: &Vec<InputWordFeature>) -> (r: Option<u8>)
    ensures
        r == first_person_value(fs@),
{
    let mut i: usize = 0;
    proof {
        assert(fs@.skip(0) =~= fs@);
    }
    while i < fs.len()
        invariant
            i <= fs@.len(),
            first_person_value(fs@) == first_person_value(fs@.skip(i as int)),
        decreases fs@.len() - i,
    {
        let f = fs[i];
        proof {
            assert(fs@.skip(i as int)[0] == fs@[i as int]);
            assert(fs@.skip(i as int).skip(1) =~= fs@.skip(i + 1));
        }
        match (f.ud_feature, f.ud_feature_value) {
            (FeatureTag::Person, FeatureValue::Person(p)) => {
                return Some(p);
            },
            _ => {},
        }
        i = i + 1;
    }
    proof {
        assert(fs@.skip(fs@.len() as int) =~= Seq::<InputWordFeature>::empty());
    }
    None
}

fn first_animacy_value_exec(fs: &Vec<InputWordFeature>) -> (r: Option<AnimacyClass>)
    ensures
        r == first_animacy_value(fs@),
{
    let mut i: usize = 0;
    proof {
        assert(fs@.skip(0) =~= fs@);
    }
    while i < fs.len()
        invariant
            i <= fs@.len(),
            first_animacy_value(fs@) == first_animacy_value(fs@.skip(i as int)),
        decreases fs@.len() - i,
    {
        let f = fs[i];
        proof {
            assert(fs@.skip(i as int)[0] == fs@[i as int]);
            assert(fs@.skip(i as int).skip(1) =~= fs@.skip(i + 1));
        }
        match (f.ud_feature, f.ud_feature_value) {
            (FeatureTag::Animacy, FeatureValue::Animacy(a)) => {
                return Some(a);
            },
            _ => {},
        }
        i = i + 1;
    }
    proof {
        assert(fs@.skip(fs@.len() as int) =~= Seq::<InputWordFeature>::empty());
    }
    None
}

/// The focus word after the feature-weight refinement.  With the
/// provisional word's heaviest feature weight as the bar:
/// a candidate personal pronoun overrides a bar below the pronoun-type
/// weight; at a person-weight bar the first candidate with a lower
/// person ordinal than the provisional word wins; at an animacy-weight
/// bar a personal pronoun wins first, then the first candidate with a
/// lower animacy ordinal; any other bar keeps the provisional word.
pub open spec fn spec_further_checks(
    temporary_word_id: i32,
    temp_features: Seq<InputWordFeature>,
    candidate_features: Seq<InputWordFeature>,
) -> i32 {
    let bar = max_feature_weight(temp_features);
    if bar == 5 {
        match first_person_value(temp_features) {
            Some(q) => match first_person_better_word(candidate_features, q) {
                Some(w) => w,
                None => temporary_word_id,
            },
            None => temporary_word_id,
        }
    } else if bar == 4 || bar == 3 {
        temporary_word_id
    } else if bar == 2 || bar == 0 {
        match first_prs_word(candidate_features) {
            Some(w) => w,
            None => temporary_word_id,
        }
    } else {
        match first_prs_word(candidate_features) {
            Some(w) => w,
            None => match first_animacy_value(temp_features) {
                Some(b) => match first_animacy_better_word(candidate_features, b) {
                    Some(w) => w,
                    None => temporary_word_id,
                },
                None => temporary_word_id,
            },
        }
    }
}

/// Returns the best candidate word for the focus of a section, testing
/// the candidate features of the section's other words against the
/// provisional word's heaviest feature weight.
pub fn further_subject_predicate_object_checks(
    temporary_word_id: i32,
    temp_features: &Vec<InputWordFeature>,
    candidate_features: &Vec<InputWordFeature>,
) -> (r: i32)
    ensures
        r == spec_further_checks(temporary_word_id, temp_features@, candidate_features@),
{
    let bar = max_feature_weight_exec(temp_features);
    if bar == 5 {
        match first_person_value_exec(temp_features) {
            Some(q) => match first_person_better_word_exec(candidate_features, q) {
                Some(w) => w,
                None => temporary_word_id,
            },
            None => temporary_word_id,
        }
    } else if bar == 4 || bar == 3 {
        temporary_word_id
    } else if bar == 2 || bar == 0 {
        match first_prs_word_exec(candidate_features) {
            Some(w) => w,
            None => temporary_word_id,
        }
    } else {
        match first_prs_word_exec(candidate_features) {
            Some(w) => w,
            None => match first_animacy_value_exec(temp_features) {
                Some(b) => match first_animacy_better_word_exec(candidate_features, b) {
                    Some(w) => w,
                    None => temporary_word_id,
                },
                None => temporary_word_id,
            },
        }
    }
}

/// The features of one word, in input order.
pub open spec fn features_of_word(fs: Seq<InputWordFeature>, word_id: i32) -> Seq<InputWordFeature>
    decreases fs.len(),
{
    if fs.len() == 0 {
        Seq::empty()
    } else {
        let prev = features_of_word(fs.drop_last(), word_id);
        if fs.last().word_id == word_id {
            prev.push(fs.last())
        } else {
            prev
        }
    }
}

/// Collects the features of every word of the given word list in
/// word-list order.
pub open spec fn gather_word_features(
    words: Seq<i32>,
    fs: Seq<InputWordFeature>,
) -> Seq<InputWordFeature>
    decreases words.len(),
{
    if words.len() == 0 {
        Seq::empty()
    } else {
        gather_word_features(words.drop_last(), fs) + features_of_word(fs, words.last())
    }
}

/// The words of a triplet's section group, excluding one word, in
/// section-row order.
pub open spec fn section_group_words(
    secs: Seq<InputSection>,
    triplet_id: i32,
    section_type: i32,
    excluded_word_id: i32,
) -> Seq<i32>
    decreases secs.len(),
{
    if secs.len() == 0 {
        Seq::empty()
    } else {
        let prev = section_group_words(secs.drop_last(), triplet_id, section_type, excluded_word_id);
        let s = secs.last();
        if s.triplet_id == triplet_id && s.section_type == section_type && s.word_id
            != excluded_word_id {
            prev.push(s.word_id)
        } else {
            prev
        }
    }
}

fn features_of_word_exec(fs: &Vec<InputWordFeature>, word_id: i32) -> (r: Vec<InputWordFeature>)
    ensures
        r@ == features_of_word(fs@, word_id),
{
    let mut result: Vec<InputWordFeature> = Vec::new();
    let mut i: usize = 0;
    while i < fs.len()
        invariant
            i <= fs@.len(),
            result@ == features_of_word(fs@.take(i as int), word_id),
        decreases fs@.len() - i,
    {
        if fs[i].word_id == word_id {
            result.push(fs[i]);
        }
        proof {
            assert(fs@.take(i + 1).drop_last() =~= fs@.take(i as int));
            assert(fs@.take(i + 1).last() == fs@[i as int]);
        }
        i = i + 1;
    }
    proof {
        assert(fs@.take(fs@.len() as int) =~= fs@);
    }
    result
}

/// Collects the candidate features for a section choice: the features
/// of every other word in the same section group of the triplet.
fn gather_candidate_features(
    secs: &Vec<InputSection>,
    fs: &Vec<InputWordFeature>,
    triplet_id: i32,
    section_type: i32,
    excluded_word_id: i32,
) -> (r: Vec<InputWordFeature>)
    ensures
        r@ == gather_word_features(
            section_group_words(secs@, triplet_id, section_type, excluded_word_id),
            fs@,
        ),
{
    let mut result: Vec<InputWordFeature> = Vec::new();
    let mut i: usize = 0;
    while i < secs.len()
        invariant
            i <= secs@.len(),
            result@ == gather_word_features(
                section_group_words(secs@.take(i as int), triplet_id, section_type, excluded_word_id),
                fs@,
            ),
        decreases secs@.len() - i,
    {
        let s = secs[i];
        proof {
            assert(secs@.take(i + 1).drop_last() =~= secs@.take(i as int));
            assert(secs@.take(i + 1).last() == secs@[i as int]);
        }
        if s.triplet_id == triplet_id && s.section_type == section_type && s.word_id
            != excluded_word_id {
            let mut word_fs = features_of_word_exec(fs, s.word_id);
            let ghost before = result@;
            let mut k: usize = 0;
            while k < word_fs.len()
                invariant
                    k <= word_fs@.len(),
                    word_fs@ == features_of_word(fs@, s.word_id),
                    result@ == before + word_fs@.take(k as int),
                decreases word_fs@.len() - k,
            {
                result.push(word_fs[k]);
                proof {
                    assert(word_fs@.take(k + 1) =~= word_fs@.take(k as int).push(
                        word_fs@[k as int],
                    ));
                    assert(result@ =~= before + word_fs@.take(k + 1));
                }
                k = k + 1;
            }
            proof {
                assert(word_fs@.take(word_fs@.len() as int) =~= word_fs@);
                let ws = section_group_words(secs@.take(i + 1), triplet_id, section_type,
                    excluded_word_id);
                assert(ws =~= section_group_words(secs@.take(i as int), triplet_id, section_type,
                    excluded_word_id).push(s.word_id));
                assert(ws.drop_last() =~= section_group_words(secs@.take(i as int), triplet_id,
                    section_type, excluded_word_id));
                assert(result@ == gather_word_features(ws, fs@));
            }
        }
        i = i + 1;
    }
    proof {
        assert(secs@.take(secs@.len() as int) =~= secs@);
    }
    result
}

/// The words of every section of a triplet, in section-row order.
pub open spec fn triplet_section_words(secs: Seq<InputSection>, triplet_id: i32) -> Seq<i32>
    decreases secs.len(),
{
    if secs.len() == 0 {
        Seq::empty()
    } else {
        let prev = triplet_section_words(secs.drop_last(), triplet_id);
        let s = secs.last();
        if s.triplet_id == triplet_id {
            prev.push(s.word_id)
        } else {
            prev
        }
    }
}

/// Collects the features of every word of a triplet's sections, for
/// the virtuality classification of the triplet.
pub fn select_input_features_by_triplet(
    secs: &Vec<InputSection>,
    fs: &Vec<InputWordFeature>,
    triplet_id: i32,
) -> (r: Vec<InputWordFeature>)
    ensures
        r@ == gather_word_features(triplet_section_words(secs@, triplet_id), fs@),
{
    let mut result: Vec<InputWordFeature> = Vec::new();
    let mut i: usize = 0;
    while i < secs.len()
        invariant
            i <= secs@.len(),
            result@ == gather_word_features(triplet_section_words(secs@.take(i as int), triplet_id),
                fs@),
        decreases secs@.len() - i,
    {
        let s = secs[i];
        proof {
            assert(secs@.take(i + 1).drop_last() =~= secs@.take(i as int));
            assert(secs@.take(i + 1).last() == secs@[i as int]);
        }
        if s.triplet_id == triplet_id {
            let mut word_fs = features_of_word_exec(fs, s.word_id);
            let ghost before = result@;
            let mut k: usize = 0;
            while k < word_fs.len()
                invariant
                    k <= word_fs@.len(),
                    word_fs@ == features_of_word(fs@, s.word_id),
                    result@ == before + word_fs@.take(k as int),
                decreases word_fs@.len() - k,
            {
                result.push(word_fs[k]);
                proof {
                    assert(word_fs@.take(k + 1) =~= word_fs@.take(k as int).push(
                        word_fs@[k as int],
                    ));
                    assert(result@ =~= before + word_fs@.take(k + 1));
                }
                k = k + 1;
            }
            proof {
                assert(word_fs@.take(word_fs@.len() as int) =~= word_fs@);
                let ws = triplet_section_words(secs@.take(i + 1), triplet_id);
                assert(ws =~= triplet_section_words(secs@.take(i as int), triplet_id).push(
                    s.word_id,
                ));
                assert(ws.drop_last() =~= triplet_section_words(secs@.take(i as int), triplet_id));
                assert(result@ == gather_word_features(ws, fs@));
            }
        }
        i = i + 1;
    }
    proof {
        assert(secs@.take(secs@.len() as int) =~= secs@);
    }
    result
}

/// The resolved focus word of one section group of a triplet: the
/// top-graded section row refined by the feature-weight checks, or
/// nothing when the triplet has no row of that section type.
pub open spec fn resolved_focus(
    secs: Seq<InputSection>,
    rels: Seq<InputWordRelation>,
    fs: Seq<InputWordFeature>,
    triplet_id: i32,
    section_type: i32,
) -> Option<i32> {
    match best_section(secs, rels, triplet_id, section_type) {
        None => None,
        Some(b) => Some(
            spec_further_checks(
                b.word_id,
                features_of_word(fs, b.word_id),
                gather_word_features(
                    section_group_words(secs, triplet_id, section_type, b.word_id),
                    fs,
                ),
            ),
        ),
    }
}

fn resolved_focus_exec(
    secs: &Vec<InputSection>,
    rels: &Vec<InputWordRelation>,
    fs: &Vec<InputWordFeature>,
    triplet_id: i32,
    section_type: i32,
) -> (r: Option<i32>)
    ensures
        r == resolved_focus(secs@, rels@, fs@, triplet_id, section_type),
{
    match best_section_exec(secs, rels, triplet_id, section_type) {
        None => None,
        Some(b) => {
            let temp_features = features_of_word_exec(fs, b.word_id);
            let candidates = gather_candidate_features(secs, fs, triplet_id, section_type,
                b.word_id);
            Some(further_subject_predicate_object_checks(b.word_id, &temp_features, &candidates))
        },
    }
}

/// Yields the dominant word of each section of a triplet: the subject,
/// predicate and object focus words, each picked by the relation-grade
/// ranking and refined by the feature-weight checks.  Returns nothing
/// when any section type has no row, so that the caller can skip the
/// unresolvable triplet.
pub fn get_subject_predicate_object(
    triplet_id: i32,
    sections: &Vec<InputSection>,
    relations: &Vec<InputWordRelation>,
    features: &Vec<InputWordFeature>,
) -> (r: Option<(i32, i32, i32)>)
    ensures
        r is Some <==> {
            &&& resolved_focus(sections@, relations@, features@, triplet_id, 1) is Some
            &&& resolved_focus(sections@, relations@, features@, triplet_id, 2) is Some
            &&& resolved_focus(sections@, relations@, features@, triplet_id, 3) is Some
        },
        r matches Some(t) ==> {
            &&& Some(t.0) == resolved_focus(sections@, relations@, features@, triplet_id, 1)
            &&& Some(t.1) == resolved_focus(sections@, relations@, features@, triplet_id, 2)
            &&& Some(t.2) == resolved_focus(sections@, relations@, features@, triplet_id, 3)
        },
{
    let subject = resolved_focus_exec(sections, relations, features, triplet_id, 1);
    let predicate = resolved_focus_exec(sections, relations, features, triplet_id, 2);
    let object = resolved_focus_exec(sections, relations, features, triplet_id, 3);
    match (subject, predicate, object) {
        (Some(s), Some(p), Some(o)) => Some((s, p, o)),
        _ => None,
    }
}

/// Index of the first entry holding the given triplet key.
pub open spec fn find_triplet_key(s: Seq<(i32, (i32, i32, i32))>, triplet_id: i32) -> Option<int>
    decreases s.len(),
{
    if s.len() == 0 {
        None
    } else if s[0].0 == triplet_id {
        Some(0int)
    } else {
        match find_triplet_key(s.skip(1), triplet_id) {
            Some(k) => Some(k + 1),
            None => None,
        }
    }
}

proof fn lemma_find_triplet_key_first(s: Seq<(i32, (i32, i32, i32))>, triplet_id: i32, j: int)
    requires
        0 <= j < s.len(),
        s[j].0 == triplet_id,
        forall|k: int| 0 <= k < j ==> (#[trigger] s[k]).0 != triplet_id,
    ensures
        find_triplet_key(s, triplet_id) == Some(j),
    decreases j,
{
    if j > 0 {
        lemma_find_triplet_key_first(s.skip(1), triplet_id, j - 1);
    }
}

/// Swaps the subject and object word of the resolved sections of a
/// passive-voice triplet: the triple (subject, predicate, object)
/// stored under the triplet becomes (object, predicate, subject).
pub fn swap_passive_subject_object(
    sections: &mut Vec<(i32, (i32, i32, i32))>,
    triplet_id: i32,
) -> (r: Result<(), crate::EncodeError>)
    requires
        find_triplet_key(old(sections)@, triplet_id) is Some,
    ensures
        r is Ok,
        ({
            let j = find_triplet_key(old(sections)@, triplet_id)->Some_0;
            let w = old(sections)@[j].1;
            final(sections)@ == old(sections)@.update(j, (triplet_id, (w.2, w.1, w.0)))
        }),
{
    let mut j: usize = 0;
    while j < sections.len()
        invariant
            j <= sections@.len(),
            sections@ == old(sections)@,
            find_triplet_key(old(sections)@, triplet_id) is Some,
            forall|k: int| 0 <= k < j ==> (#[trigger] sections@[k]).0 != triplet_id,
        decreases sections@.len() - j,
    {
        if sections[j].0 == triplet_id {
            proof {
                lemma_find_triplet_key_first(sections@, triplet_id, j as int);
            }
            let w = sections[j].1;
            sections.set(j, (triplet_id, (w.2, w.1, w.0)));
            return Ok(());
        }
        j = j + 1;
    }
    proof {
        let j0 = find_triplet_key(sections@, triplet_id)->Some_0;
        lemma_find_triplet_key_some(sections@, triplet_id);
        assert(sections@[j0].0 == triplet_id);
        assert(false);
    }
    Ok(())
}

proof fn lemma_find_triplet_key_some(s: Seq<(i32, (i32, i32, i32))>, triplet_id: i32)
    requires
        find_triplet_key(s, triplet_id) is Some,
    ensures
        0 <= find_triplet_key(s, triplet_id)->Some_0 < s.len(),
        s[find_triplet_key(s, triplet_id)->Some_0].0 == triplet_id,
    decreases s.len(),
{
    if s.len() > 0 && s[0].0 != triplet_id {
        lemma_find_triplet_key_some(s.skip(1), triplet_id);
    }
}

/// The first triplet of the input carrying the given id.
pub open spec fn first_with_triplet_id(s: Seq<InputTriplet>, triplet_id: i32) -> Option<
    InputTriplet,
>
    decreases s.len(),
{
    if s.len() == 0 {
        None
    } else if s[0].triplet_id == triplet_id {
        Some(s[0])
    } else {
        first_with_triplet_id(s.skip(1), triplet_id)
    }
}

proof fn lemma_first_with_triplet_id(s: Seq<InputTriplet>, j: int)
    requires
        0 <= j < s.len(),
        forall|k: int| 0 <= k < j ==> (#[trigger] s[k]).triplet_id != s[j].triplet_id,
    ensures
        first_with_triplet_id(s, s[j].triplet_id) == Some(s[j]),
    decreases j,
{
    if j > 0 {
        lemma_first_with_triplet_id(s.skip(1), j - 1);
    }
}

/// Pruned triplets: one entry per distinct triplet id, each the first
/// occurrence of its id, ordered ascending by triplet id so that the
/// chronology of the sentence is preserved.
pub open spec fn pruned_sorted(input: Seq<InputTriplet>, r: Seq<InputTriplet>) -> bool {
    &&& forall|i: int, j: int|
        0 <= i < j < r.len() ==> (#[trigger] r[i]).triplet_id < (#[trigger] r[j]).triplet_id
    &&& forall|i: int|
        0 <= i < r.len() ==> first_with_triplet_id(input, (#[trigger] r[i]).triplet_id) == Some(
            r[i],
        )
    &&& forall|j: int|
        0 <= j < input.len() ==> exists|i: int|
            0 <= i < r.len() && (#[trigger] r[i]).triplet_id == (#[trigger] input[j]).triplet_id
}

fn contains_triplet_id(v: &Vec<InputTriplet>, triplet_id: i32) -> (r: bool)
    ensures
        r == exists|i: int| 0 <= i < v@.len() && (#[trigger] v@[i]).triplet_id == triplet_id,
{
    let mut i: usize = 0;
    while i < v.len()
        invariant
            i <= v@.len(),
            forall|k: int| 0 <= k < i ==> (#[trigger] v@[k]).triplet_id != triplet_id,
        decreases v@.len() - i,
    {
        if v[i].triplet_id == triplet_id {
            return true;
        }
        i = i + 1;
    }
    false
}

/// Eliminates duplicate triplets, keeping the first occurrence of each
/// triplet id, and sorts the survivors ascending by triplet id.
/// The duplicate-free triplet list: the first occurrence of every
/// triplet id, in first-seen order.
pub open spec fn spec_dedup_triplets(ts: Seq<InputTriplet>) -> Seq<InputTriplet>
    decreases ts.len(),
{
    if ts.len() == 0 {
        Seq::empty()
    } else {
        let prev = spec_dedup_triplets(ts.drop_last());
        if exists|k: int|
            0 <= k < prev.len() && (#[trigger] prev[k]).triplet_id == ts.last().triplet_id {
            prev
        } else {
            prev.push(ts.last())
        }
    }
}

/// Index of the first triplet carrying the minimal triplet id.
pub open spec fn first_min_tid_index(s: Seq<InputTriplet>) -> int
    decreases s.len(),
{
    if s.len() <= 1 {
        0
    } else {
        let r = first_min_tid_index(s.skip(1)) + 1;
        if s[0].triplet_id <= s[r].triplet_id {
            0
        } else {
            r
        }
    }
}

proof fn lemma_first_min_in_range(s: Seq<InputTriplet>)
    requires
        s.len() > 0,
    ensures
        0 <= first_min_tid_index(s) < s.len(),
    decreases s.len(),
{
    if s.len() > 1 {
        lemma_first_min_in_range(s.skip(1));
    }
}

proof fn lemma_first_min_is(s: Seq<InputTriplet>, m: int)
    requires
        0 <= m < s.len(),
        forall|j: int| 0 <= j < m ==> (#[trigger] s[j]).triplet_id > s[m].triplet_id,
        forall|j: int| 0 <= j < s.len() ==> (#[trigger] s[j]).triplet_id >= s[m].triplet_id,
    ensures
        first_min_tid_index(s) == m,
    decreases s.len(),
{
    if s.len() > 1 {
        lemma_first_min_in_range(s.skip(1));
        let r = first_min_tid_index(s.skip(1)) + 1;
        assert(s.skip(1)[r - 1] == s[r]);
        if m == 0 {
            assert(s[0].triplet_id <= s[r].triplet_id);
        } else {
            assert forall|j: int| 0 <= j < m - 1 implies (#[trigger] s.skip(1)[j]).triplet_id
                > s.skip(1)[m - 1].triplet_id by {
                assert(s.skip(1)[j] == s[j + 1]);
            }
            assert forall|j: int| 0 <= j < s.skip(1).len() implies (
            #[trigger] s.skip(1)[j]).triplet_id >= s.skip(1)[m - 1].triplet_id by {
                assert(s.skip(1)[j] == s[j + 1]);
            }
            lemma_first_min_is(s.skip(1), m - 1);
            assert(!(s[0].triplet_id <= s[m].triplet_id));
        }
    }
}

/// Ascending order by triplet id, by selection of the first minimum
/// at each step.
pub open spec fn spec_sort_triplets_by_id(s: Seq<InputTriplet>) -> Seq<InputTriplet>
    decreases s.len(),
{
    if s.len() == 0 {
        Seq::empty()
    } else {
        let m0 = first_min_tid_index(s);
        let m = if 0 <= m0 < s.len() {
            m0
        } else {
            0int
        };
        seq![s[m]] + spec_sort_triplets_by_id(s.remove(m))
    }
}

/// The pruned triplet list of a sentence: the first occurrence of
/// every triplet id, ordered ascending by triplet id.
pub open spec fn spec_prune(ts: Seq<InputTriplet>) -> Seq<InputTriplet> {
    spec_sort_triplets_by_id(spec_dedup_triplets(ts))
}

#[verifier::rlimit(60)]
pub fn prune_triplets(triplets: &Vec<InputTriplet>) -> (r: Vec<InputTriplet>)
    ensures
        r@ == spec_prune(triplets@),
        pruned_sorted(triplets@, r@),
        r@.len() <= triplets@.len(),
{
    let mut deduped: Vec<InputTriplet> = Vec::new();
    let mut i: usize = 0;
    while i < triplets.len()
        invariant
            i <= triplets@.len(),
            deduped@.len() <= i,
            deduped@ == spec_dedup_triplets(triplets@.take(i as int)),
            forall|a: int, b: int|
                0 <= a < b < deduped@.len() ==> (#[trigger] deduped@[a]).triplet_id != (
                #[trigger] deduped@[b]).triplet_id,
            forall|a: int|
                0 <= a < deduped@.len() ==> first_with_triplet_id(
                    triplets@,
                    (#[trigger] deduped@[a]).triplet_id,
                ) == Some(deduped@[a]),
            forall|j: int|
                0 <= j < i ==> exists|a: int|
                    0 <= a < deduped@.len() && (#[trigger] deduped@[a]).triplet_id == (
                    #[trigger] triplets@[j]).triplet_id,
        decreases triplets@.len() - i,
    {
        let t = triplets[i];
        let ghost old_deduped = deduped@;
        let present = contains_triplet_id(&deduped, t.triplet_id);
        if !present {
            proof {
                assert forall|k: int| 0 <= k < i implies (#[trigger] triplets@[k]).triplet_id
                    != t.triplet_id by {
                    if triplets@[k].triplet_id == t.triplet_id {
                        let a = choose|a: int|
                            0 <= a < deduped@.len() && deduped@[a].triplet_id
                                == triplets@[k].triplet_id;
                        assert(deduped@[a].triplet_id == t.triplet_id);
                    }
                }
                lemma_first_with_triplet_id(triplets@, i as int);
            }
            deduped.push(t);
        }
        proof {
            assert(triplets@.take(i + 1).drop_last() =~= triplets@.take(i as int));
            assert(triplets@.take(i + 1).last() == triplets@[i as int]);
            if !present {
                assert(deduped@[deduped@.len() - 1].triplet_id == t.triplet_id);
            }
            assert(deduped@ == spec_dedup_triplets(triplets@.take(i + 1)));
            assert(exists|a: int|
                0 <= a < deduped@.len() && (#[trigger] deduped@[a]).triplet_id == t.triplet_id);
            assert forall|j: int| 0 <= j < i + 1 implies exists|a: int|
                0 <= a < deduped@.len() && (#[trigger] deduped@[a]).triplet_id == (
                #[trigger] triplets@[j]).triplet_id by {
                if j < i {
                    let a = choose|a: int|
                        0 <= a < old_deduped.len() && (#[trigger] old_deduped[a]).triplet_id
                            == triplets@[j].triplet_id;
                    assert(deduped@[a].triplet_id == triplets@[j].triplet_id);
                } else {
                    let a = choose|a: int|
                        0 <= a < deduped@.len() && (#[trigger] deduped@[a]).triplet_id
                            == t.triplet_id;
                    assert(deduped@[a].triplet_id == triplets@[j].triplet_id);
                }
            }
        }
        i = i + 1;
    }
    // Selection sort ascending by triplet id.
    let mut remaining = deduped;
    let ghost dd = remaining@;
    let mut result: Vec<InputTriplet> = Vec::new();
    while remaining.len() > 0
        invariant
            spec_sort_triplets_by_id(dd) == result@ + spec_sort_triplets_by_id(remaining@),
            result@.to_multiset().add(remaining@.to_multiset()) == dd.to_multiset(),
            result@.len() + remaining@.len() == dd.len(),
            forall|a: int, b: int|
                0 <= a < b < result@.len() ==> (#[trigger] result@[a]).triplet_id < (
                #[trigger] result@[b]).triplet_id,
            forall|a: int, b: int|
                0 <= a < result@.len() && 0 <= b < remaining@.len() ==> (
                #[trigger] result@[a]).triplet_id < (#[trigger] remaining@[b]).triplet_id,
            forall|a: int, b: int|
                0 <= a < b < remaining@.len() ==> (#[trigger] remaining@[a]).triplet_id != (
                #[trigger] remaining@[b]).triplet_id,
            forall|a: int|
                0 <= a < result@.len() ==> dd.contains(#[trigger] result@[a]),
            forall|a: int|
                0 <= a < remaining@.len() ==> dd.contains(#[trigger] remaining@[a]),
            forall|x: InputTriplet| dd.contains(x) ==> result@.contains(x) || remaining@.contains(
                x,
            ),
        decreases remaining@.len(),
    {
        let mut best: usize = 0;
        let mut k: usize = 1;
        while k < remaining.len()
            invariant
                0 < remaining@.len(),
                best < k <= remaining@.len(),
                forall|j: int|
                    0 <= j < k && j != best ==> (#[trigger] remaining@[j]).triplet_id
                        > remaining@[best as int].triplet_id,
                forall|a: int, b: int|
                    0 <= a < b < remaining@.len() ==> (#[trigger] remaining@[a]).triplet_id != (
                    #[trigger] remaining@[b]).triplet_id,
            decreases remaining@.len() - k,
        {
            if remaining[k].triplet_id < remaining[best].triplet_id {
                best = k;
            }
            k = k + 1;
        }
        let ghost old_result = result@;
        let ghost old_remaining = remaining@;
        proof {
            assert forall|j: int| 0 <= j < old_remaining.len() implies (
            #[trigger] old_remaining[j]).triplet_id >= old_remaining[best as int].triplet_id by {
                if j != best {
                    assert(old_remaining[j].triplet_id > old_remaining[best as int].triplet_id);
                }
            }
            lemma_first_min_is(old_remaining, best as int);
        }
        let item = remaining.remove(best);
        result.push(item);
        proof {
            assert(spec_sort_triplets_by_id(old_remaining) =~= seq![item]
                + spec_sort_triplets_by_id(remaining@));
            assert(result@ + spec_sort_triplets_by_id(remaining@) =~= old_result
                + spec_sort_triplets_by_id(old_remaining));
            assert(old_remaining[best as int] == item);
            assert(old_remaining.contains(item));
            assert(old_remaining.to_multiset().count(item) > 0);
            assert(result@.to_multiset() =~= old_result.to_multiset().insert(item));
            assert(remaining@.to_multiset() =~= old_remaining.to_multiset().remove(item));
            assert(result@.to_multiset().add(remaining@.to_multiset()) =~= dd.to_multiset());
            assert forall|b: int| 0 <= b < remaining@.len() implies item.triplet_id < (
                #[trigger] remaining@[b]).triplet_id by {
                if b < best {
                    assert(remaining@[b] == old_remaining[b]);
                } else {
                    assert(remaining@[b] == old_remaining[b + 1]);
                }
            }
            assert forall|x: InputTriplet| dd.contains(x) implies result@.contains(x)
                || remaining@.contains(x) by {
                if old_result.contains(x) {
                    let j = choose|j: int| 0 <= j < old_result.len() && old_result[j] == x;
                    assert(result@[j] == x);
                } else if old_remaining.contains(x) {
                    if x == item {
                        assert(result@[result@.len() - 1] == x);
                    } else {
                        let j = choose|j: int|
                            0 <= j < old_remaining.len() && old_remaining[j] == x;
                        if j < best {
                            assert(remaining@[j] == x);
                        } else {
                            assert(remaining@[j - 1] == x);
                        }
                    }
                }
            }
        }
    }
    proof {
        assert forall|j: int| 0 <= j < triplets@.len() implies exists|a: int|
            0 <= a < result@.len() && (#[trigger] result@[a]).triplet_id == (
            #[trigger] triplets@[j]).triplet_id by {
            let a0 = choose|a: int|
                0 <= a < dd.len() && (#[trigger] dd[a]).triplet_id == triplets@[j].triplet_id;
            assert(dd.contains(dd[a0]));
            assert(result@.contains(dd[a0]));
            let a1 = choose|a: int| 0 <= a < result@.len() && result@[a] == dd[a0];
            assert(result@[a1].triplet_id == triplets@[j].triplet_id);
        }
        assert forall|a: int| 0 <= a < result@.len() implies first_with_triplet_id(
            triplets@,
            (#[trigger] result@[a]).triplet_id,
        ) == Some(result@[a]) by {
            assert(dd.contains(result@[a]));
            let b = choose|b: int| 0 <= b < dd.len() && dd[b] == result@[a];
            assert(first_with_triplet_id(triplets@, dd[b].triplet_id) == Some(dd[b]));
        }
        assert(triplets@.take(triplets@.len() as int) =~= triplets@);
        assert(spec_sort_triplets_by_id(remaining@) =~= Seq::<InputTriplet>::empty());
        assert(result@ =~= result@ + spec_sort_triplets_by_id(remaining@));
        assert(result@ == spec_prune(triplets@));
    }
    result
}

/// Groups resolved sections by their word triple: each distinct
/// (subject, predicate, object) triple maps to the triplet ids that
/// resolved to it, groups in first-seen order, ids in input order.
pub open spec fn spec_section_groups(s: Seq<(i32, (i32, i32, i32))>) -> Seq<
    ((i32, i32, i32), Seq<i32>),
>
    decreases s.len(),
{
    if s.len() == 0 {
        Seq::empty()
    } else {
        let prev = spec_section_groups(s.drop_last());
        let id = s.last().0;
        let key = s.last().1;
        match find_group(prev, key) {
            Some(j) => prev.update(j, (key, prev[j].1.push(id))),
            None => prev.push((key, seq![id])),
        }
    }
}

/// Index of the group with the given key.
pub open spec fn find_group(gs: Seq<((i32, i32, i32), Seq<i32>)>, key: (i32, i32, i32)) -> Option<
    int,
>
    decreases gs.len(),
{
    if gs.len() == 0 {
        None
    } else if gs[0].0 == key {
        Some(0int)
    } else {
        match find_group(gs.skip(1), key) {
            Some(k) => Some(k + 1),
            None => None,
        }
    }
}

proof fn lemma_find_group_first(gs: Seq<((i32, i32, i32), Seq<i32>)>, key: (i32, i32, i32), j: int)
    requires
        0 <= j < gs.len(),
        gs[j].0 == key,
        forall|k: int| 0 <= k < j ==> (#[trigger] gs[k]).0 != key,
    ensures
        find_group(gs, key) == Some(j),
    decreases j,
{
    if j > 0 {
        lemma_find_group_first(gs.skip(1), key, j - 1);
    }
}

proof fn lemma_find_group_none(gs: Seq<((i32, i32, i32), Seq<i32>)>, key: (i32, i32, i32))
    requires
        forall|k: int| 0 <= k < gs.len() ==> (#[trigger] gs[k]).0 != key,
    ensures
        find_group(gs, key) is None,
    decreases gs.len(),
{
    if gs.len() > 0 {
        lemma_find_group_none(gs.skip(1), key);
    }
}

proof fn lemma_find_group_some(gs: Seq<((i32, i32, i32), Seq<i32>)>, key: (i32, i32, i32))
    requires
        find_group(gs, key) is Some,
    ensures
        0 <= find_group(gs, key)->Some_0 < gs.len(),
        gs[find_group(gs, key)->Some_0].0 == key,
    decreases gs.len(),
{
    if gs.len() > 0 && gs[0].0 != key {
        lemma_find_group_some(gs.skip(1), key);
    }
}

fn find_group_exec(groups: &Vec<((i32, i32, i32), Vec<i32>)>, key: (i32, i32, i32)) -> (r: Option<
    usize,
>)
    ensures
        r matches Some(j) ==> 0 <= j < groups@.len() && find_group(groups_view(groups@), key)
            == Some(j as int),
        r is None ==> find_group(groups_view(groups@), key) is None,
{
    let mut j: usize = 0;
    while j < groups.len()
        invariant
            j <= groups@.len(),
            forall|k: int| 0 <= k < j ==> (#[trigger] groups_view(groups@)[k]).0 != key,
        decreases groups@.len() - j,
    {
        let g = &groups[j];
        if g.0.0 == key.0 && g.0.1 == key.1 && g.0.2 == key.2 {
            proof {
                assert(groups_view(groups@)[j as int].0 == key);
                lemma_find_group_first(groups_view(groups@), key, j as int);
            }
            return Some(j);
        }
        proof {
            assert(groups_view(groups@)[j as int].0 == groups@[j as int].0);
        }
        j = j + 1;
    }
    proof {
        lemma_find_group_none(groups_view(groups@), key);
    }
    None
}

/// The view of built groups.
pub open spec fn groups_view(v: Seq<((i32, i32, i32), Vec<i32>)>) -> Seq<
    ((i32, i32, i32), Seq<i32>),
> {
    v.map_values(|g: ((i32, i32, i32), Vec<i32>)| (g.0, g.1@))
}

/// Groups sections by subject, predicate and object: a list from each
/// distinct word triple to the triplet ids that resolved to it.
pub fn get_section_groups(subject_predicate_object: &Vec<(i32, (i32, i32, i32))>) -> (r: Result<
    Vec<((i32, i32, i32), Vec<i32>)>,
    crate::EncodeError,
>)
    ensures
        r matches Ok(groups) && groups_view(groups@) == spec_section_groups(
            subject_predicate_object@,
        ),
{
    let mut result: Vec<((i32, i32, i32), Vec<i32>)> = Vec::new();
    let mut i: usize = 0;
    while i < subject_predicate_object.len()
        invariant
            i <= subject_predicate_object@.len(),
            groups_view(result@) == spec_section_groups(subject_predicate_object@.take(i as int)),
        decreases subject_predicate_object@.len() - i,
    {
        let entry = subject_predicate_object[i];
        let id = entry.0;
        let key = entry.1;
        proof {
            assert(subject_predicate_object@.take(i + 1).drop_last()
                =~= subject_predicate_object@.take(i as int));
            assert(subject_predicate_object@.take(i + 1).last()
                == subject_predicate_object@[i as int]);
        }
        let found_at = find_group_exec(&result, key);
        if let Some(j) = found_at {
            let ghost old_result_v = result@;
            let ghost old_view = groups_view(result@);
            proof {
                lemma_find_group_some(old_view, key);
            }
            let entry_j = result.remove(j);
            let key_j = entry_j.0;
            let mut ids = entry_j.1;
            ids.push(id);
            result.insert(j, (key_j, ids));
            proof {
                assert(key_j == old_result_v[j as int].0);
                assert(result@ =~= old_result_v.update(j as int, (key_j, ids)));
                assert(groups_view(result@) =~= old_view.update(
                    j as int,
                    (key, old_view[j as int].1.push(id)),
                ));
                assert(groups_view(result@) =~= spec_section_groups(
                    subject_predicate_object@.take(i + 1),
                ));
            }
        } else {
            let mut ids: Vec<i32> = Vec::new();
            ids.push(id);
            result.push((key, ids));
            proof {
                assert(ids@ =~= seq![id]);
                assert(groups_view(result@) =~= spec_section_groups(
                    subject_predicate_object@.take(i + 1),
                ));
            }
        }
        i = i + 1;
    }
    proof {
        assert(subject_predicate_object@.take(subject_predicate_object@.len() as int)
            =~= subject_predicate_object@);
    }
    Ok(result)
}

} // verus!
