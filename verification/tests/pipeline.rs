use okeuvo::encode::{encode_discourse, ordered_hash_items, DiscourseInput};
use okeuvo::entities::{Entity, EntityStore};
use okeuvo::events::{create_unit_tensor, EventGraph};
use okeuvo::excitation::{get_excitation, unit_tensor_centrality};
use okeuvo::hashing::HashItem;
use okeuvo::records::{
    AnimacyClass, FeatureTag, FeatureValue, InputDiscourse, InputDiscourseTitle,
    InputExemptFeature, InputSection, InputSentence, InputTriplet, InputWord, InputWordFeature,
    InputWordRelation, UdTag, MOOD_INDICATIVE,
};
use okeuvo::records::{InputNewWordDef, MeaningGridItem};
use okeuvo::resolver::{
    further_subject_predicate_object_checks, get_section_groups, get_subject_predicate_object,
    prune_triplets, swap_passive_subject_object,
};
use okeuvo::virtuality::{get_location_type, is_virtual};
use okeuvo::EncodeError;

fn word(word_id: i32, sentence_id: i32, instance_index: i32, x: i64, y: i64) -> InputWord {
    InputWord {
        word_id,
        sentence_id,
        synset_id: 100000000 + word_id,
        index_of_word: word_id,
        lexeme: String::new(),
        instance_name: String::new(),
        instance_index,
        pos: String::new(),
        x,
        y,
        is_transition: false,
        new_word_id: -1,
    }
}

fn entity(instance_index: i32, x: i64, y: i64) -> Entity {
    Entity {
        entity_id: -1,
        instance_index,
        discourse_id: 1,
        synset_id: 0,
        word_id: 0,
        rank: 0,
        x,
        y,
        triplet_id: 0,
    }
}

fn feature(word_id: i32, rel: UdTag, tag: FeatureTag, value: FeatureValue) -> InputWordFeature {
    InputWordFeature {
        word_id,
        ud_relation: rel,
        ud_feature: tag,
        ud_feature_value: value,
    }
}

fn tensor_template(subject: i64, predicate: i64, object: i64) -> okeuvo::events::UnitTensor {
    create_unit_tensor(1, 1, object, subject, -1, -1, predicate, 1, MOOD_INDICATIVE, 0, 0)
}

#[test]
fn coreference_folds_to_the_same_id() {
    let mut store = EntityStore::new();
    let first = store.insert_or_update_entity(&entity(5, 1, 2));
    let second = store.insert_or_update_entity(&entity(5, 9, 9));
    assert_eq!(first, 1);
    assert_eq!(second, 1);
    assert_eq!(store.entities.len(), 1);
    // The fold overwrote the position in place.
    assert_eq!(store.entities[0].x, 9);
    // Anonymous entities never merge.
    let third = store.insert_or_update_entity(&entity(0, 1, 1));
    let fourth = store.insert_or_update_entity(&entity(0, 1, 1));
    assert_eq!(third, 2);
    assert_eq!(fourth, 3);
}

#[test]
fn interval_opens_at_first_virtual_and_rejoins_at_next_real() {
    let mut graph = EventGraph::new();
    let t = tensor_template(1, 2, 3);
    for is_virtual_event in [false, false, true, true, false] {
        graph.append_event(&t, is_virtual_event);
    }
    assert_eq!(graph.intervals.len(), 1);
    assert_eq!(graph.intervals[0].branch_id, 3);
    assert_eq!(graph.intervals[0].rejoin_id, 5);
}

#[test]
fn trailing_virtual_run_stays_open() {
    let mut graph = EventGraph::new();
    let t = tensor_template(1, 2, 3);
    for is_virtual_event in [false, true, true] {
        graph.append_event(&t, is_virtual_event);
    }
    assert_eq!(graph.intervals.len(), 1);
    assert_eq!(graph.intervals[0].branch_id, 2);
    assert_eq!(graph.intervals[0].rejoin_id, -1);
}

#[test]
fn consecutive_virtual_runs_open_separate_intervals() {
    let mut graph = EventGraph::new();
    let t = tensor_template(1, 2, 3);
    for is_virtual_event in [true, false, true, false] {
        graph.append_event(&t, is_virtual_event);
    }
    assert_eq!(graph.intervals.len(), 2);
    assert_eq!(graph.intervals[0].branch_id, 1);
    assert_eq!(graph.intervals[0].rejoin_id, 2);
    assert_eq!(graph.intervals[1].branch_id, 3);
    assert_eq!(graph.intervals[1].rejoin_id, 4);
}

#[test]
fn passive_voice_swaps_subject_and_object() {
    let mut sections = vec![(7, (1, 2, 3)), (8, (4, 5, 6))];
    swap_passive_subject_object(&mut sections, 7).unwrap();
    assert_eq!(sections[0], (7, (3, 2, 1)));
    assert_eq!(sections[1], (8, (4, 5, 6)));
}

#[test]
fn non_indicative_mood_makes_a_triplet_virtual() {
    let fs = vec![feature(1, UdTag::Mood, FeatureTag::Mood, FeatureValue::Mood(5))];
    assert_eq!(is_virtual(&fs, &Vec::new()), (true, 5));
}

#[test]
fn exempted_mood_stays_real_but_is_recorded() {
    let fs = vec![feature(1, UdTag::Mood, FeatureTag::Mood, FeatureValue::Mood(5))];
    let exempt = vec![InputExemptFeature {
        discourse_id: 1,
        ud_feature: FeatureTag::Mood,
        ud_feature_value: FeatureValue::Mood(5),
    }];
    assert_eq!(is_virtual(&fs, &exempt), (false, 5));
}

#[test]
fn without_mood_features_a_triplet_is_real_and_indicative() {
    let fs = vec![feature(1, UdTag::Other, FeatureTag::Other, FeatureValue::Other)];
    assert_eq!(is_virtual(&fs, &Vec::new()), (false, MOOD_INDICATIVE));
}

#[test]
fn location_honours_case_only_with_a_connecting_edge() {
    let fs = vec![feature(7, UdTag::Case, FeatureTag::Case, FeatureValue::CaseTemporal)];
    let edge = vec![InputWordRelation {
        word_id: 7,
        word_id_modified: 3,
        ud_relation: UdTag::Case,
    }];
    assert_eq!(get_location_type(&fs, &edge, 3), 3);
    // Without an edge between the case marker and the object the
    // default virtual location stands.
    assert_eq!(get_location_type(&fs, &Vec::new(), 3), 1);
    let geo = vec![feature(7, UdTag::Case, FeatureTag::Case, FeatureValue::CaseGeographic)];
    assert_eq!(get_location_type(&geo, &edge, 3), 2);
    let ter = vec![feature(7, UdTag::Case, FeatureTag::Case, FeatureValue::CaseTerminative)];
    assert_eq!(get_location_type(&ter, &edge, 3), 4);
}

#[test]
fn personal_pronoun_candidate_overrides_animacy_bar() {
    let temp = vec![feature(
        100,
        UdTag::Other,
        FeatureTag::Animacy,
        FeatureValue::Animacy(AnimacyClass::Inanimate),
    )];
    let cands = vec![feature(
        101,
        UdTag::Other,
        FeatureTag::PronType,
        FeatureValue::PersonalPronoun,
    )];
    assert_eq!(further_subject_predicate_object_checks(100, &temp, &cands), 101);
}

#[test]
fn lower_person_ordinal_wins_the_tie() {
    let temp = vec![feature(100, UdTag::Other, FeatureTag::Person, FeatureValue::Person(2))];
    let better = vec![feature(102, UdTag::Other, FeatureTag::Person, FeatureValue::Person(1))];
    assert_eq!(further_subject_predicate_object_checks(100, &temp, &better), 102);
    let worse = vec![feature(103, UdTag::Other, FeatureTag::Person, FeatureValue::Person(3))];
    assert_eq!(further_subject_predicate_object_checks(100, &temp, &worse), 100);
}

#[test]
fn lower_animacy_ordinal_wins_the_tie() {
    let temp = vec![feature(
        100,
        UdTag::Other,
        FeatureTag::Animacy,
        FeatureValue::Animacy(AnimacyClass::NonHuman),
    )];
    let cands = vec![feature(
        104,
        UdTag::Other,
        FeatureTag::Animacy,
        FeatureValue::Animacy(AnimacyClass::Human),
    )];
    assert_eq!(further_subject_predicate_object_checks(100, &temp, &cands), 104);
}

#[test]
fn sections_resolve_by_relation_grade() {
    let sections = vec![
        InputSection { section_id: 1, triplet_id: 9, word_id: 11, section_type: 1 },
        InputSection { section_id: 2, triplet_id: 9, word_id: 12, section_type: 1 },
        InputSection { section_id: 3, triplet_id: 9, word_id: 13, section_type: 2 },
        InputSection { section_id: 4, triplet_id: 9, word_id: 14, section_type: 3 },
    ];
    let relations = vec![
        InputWordRelation { word_id: 11, word_id_modified: 13, ud_relation: UdTag::NMod },
        InputWordRelation { word_id: 12, word_id_modified: 13, ud_relation: UdTag::NSubj },
        InputWordRelation { word_id: 14, word_id_modified: 13, ud_relation: UdTag::Obj },
    ];
    let resolved = get_subject_predicate_object(9, &sections, &relations, &Vec::new());
    // Word 12 carries the core-argument relation and outgrades word 11.
    assert_eq!(resolved, Some((12, 13, 14)));
    // A triplet without an object section is unresolvable.
    let partial = vec![
        InputSection { section_id: 1, triplet_id: 9, word_id: 11, section_type: 1 },
        InputSection { section_id: 3, triplet_id: 9, word_id: 13, section_type: 2 },
    ];
    assert_eq!(get_subject_predicate_object(9, &partial, &relations, &Vec::new()), None);
}

#[test]
fn pruning_keeps_first_occurrences_in_ascending_order() {
    let t = |id: i32| InputTriplet {
        triplet_id: id,
        sentence_id: 1,
        tense: id,
        is_virtual: false,
        is_passive: false,
    };
    let mut duplicate = t(3);
    duplicate.tense = 99;
    let pruned = prune_triplets(&vec![t(3), t(1), duplicate, t(2)]);
    let ids: Vec<i32> = pruned.iter().map(|x| x.triplet_id).collect();
    assert_eq!(ids, vec![1, 2, 3]);
    // The first occurrence of id 3 survives, not the duplicate.
    assert_eq!(pruned[2].tense, 3);
}

#[test]
fn section_groups_collect_triplet_ids_by_triple() {
    let groups = get_section_groups(&vec![
        (1, (10, 20, 30)),
        (2, (10, 20, 30)),
        (3, (40, 50, 60)),
    ])
    .unwrap();
    assert_eq!(groups.len(), 2);
    assert_eq!(groups[0].0, (10, 20, 30));
    assert_eq!(groups[0].1, vec![1, 2]);
    assert_eq!(groups[1].0, (40, 50, 60));
    assert_eq!(groups[1].1, vec![3]);
}

#[test]
fn excitation_sums_all_words_but_the_subject() {
    let words = vec![word(1, 1, 0, 1, 2), word(2, 1, 0, 3, 4), word(3, 1, 0, 5, 6)];
    let e = get_excitation(&words, 1);
    assert_eq!((e.x, e.y), (8, 10));
    assert_eq!(e.magnitude_squared, 164);
}

#[test]
fn centrality_lists_coreferenced_participants_once() {
    let mut store = EntityStore::new();
    store.insert_or_update_entity(&entity(1, 0, 0));
    store.insert_or_update_entity(&entity(0, 0, 0));
    let tensors = vec![
        okeuvo::events::UnitTensor { unit_tensor_id: 1, ..tensor_template(1, 2, 2) },
        okeuvo::events::UnitTensor { unit_tensor_id: 2, ..tensor_template(1, 2, 1) },
    ];
    let cents = unit_tensor_centrality(&tensors, &store);
    assert_eq!(cents, vec![1]);
}

#[test]
fn new_word_sense_combines_definition_and_hypernym() {
    let new_words = vec![InputNewWordDef {
        new_word_id: 7,
        hypernym_synset_id: 42,
        discourse_id: 1,
        lexeme: "blorf".to_string(),
        x: 0,
        y: 0,
    }];
    let defined = InputWord {
        lexeme: "blorf".to_string(),
        new_word_id: 7,
        ..word(10, 1, 0, 100, 100)
    };
    let helper = InputWord {
        lexeme: "small".to_string(),
        new_word_id: 7,
        ..word(11, 1, 0, 50, 30)
    };
    let grid = vec![MeaningGridItem { x: 10, y: 5, synset_id: 42 }];
    let coords =
        okeuvo::senses::batch_define_new_word_sense(&new_words, &vec![defined.clone(), helper.clone()], &grid, true)
            .unwrap();
    // The defined word's own vector is left out; the helper's x
    // contributes a fifth of itself: (10 + 50/5, 5 + 30).
    assert_eq!(coords, vec![(7, okeuvo::geometry::Point2D { x: 20, y: 35 })]);
    // A hypernym missing from the grid is a record-store failure.
    let empty_grid: Vec<MeaningGridItem> = Vec::new();
    assert_eq!(
        okeuvo::senses::batch_define_new_word_sense(&new_words, &vec![defined, helper], &empty_grid, true),
        Err(EncodeError::CollaboratorFailure)
    );
    // Refusing the policy fails before anything is computed.
    assert_eq!(
        okeuvo::senses::batch_define_new_word_sense(&new_words, &Vec::new(), &grid, false),
        Err(EncodeError::ConsentDenied)
    );
}

#[test]
fn transition_words_are_detected() {
    let mut plain = word(1, 1, 0, 0, 0);
    assert!(!okeuvo::encode::is_triplet_transitional(&vec![plain.clone()]));
    plain.is_transition = true;
    assert!(okeuvo::encode::is_triplet_transitional(&vec![plain]));
}

#[test]
fn partition_splits_events_by_interval_membership() {
    let mut graph = EventGraph::new();
    let t = tensor_template(1, 2, 3);
    for is_virtual_event in [false, true, true, false] {
        graph.append_event(&t, is_virtual_event);
    }
    let real = okeuvo::events::select_unit_tensor(&graph, false);
    let virt = okeuvo::events::select_unit_tensor(&graph, true);
    let real_ids: Vec<i64> = real.iter().map(|x| x.unit_tensor_id).collect();
    let virt_ids: Vec<i64> = virt.iter().map(|x| x.unit_tensor_id).collect();
    // Membership is inclusive containment in the branch/rejoin range,
    // so the rejoining event itself queries as part of the virtual run.
    assert_eq!(real_ids, vec![1]);
    assert_eq!(virt_ids, vec![2, 3, 4]);
}

fn small_discourse() -> DiscourseInput {
    DiscourseInput {
        discourse: InputDiscourse {
            discourse_id: 1,
            hypernym_synset_id: 100000001,
            document_hash: String::new(),
            author_public_hash: String::new(),
            author_title: String::new(),
            author_first_name: String::new(),
            author_middle_name: String::new(),
            author_surname: String::new(),
            author_zone: String::new(),
            date_unix_epoch: 0,
            x: 10,
            y: 20,
        },
        sentences: vec![InputSentence { sentence_id: 1, discourse_id: 1, is_question: false }],
        words: vec![word(1, 1, 1, 1, 2), word(2, 1, 0, 3, 4), word(3, 1, 0, 5, 6)],
        features: Vec::new(),
        relations: vec![
            InputWordRelation { word_id: 1, word_id_modified: 2, ud_relation: UdTag::NSubj },
            InputWordRelation { word_id: 3, word_id_modified: 2, ud_relation: UdTag::Obj },
        ],
        sections: vec![
            InputSection { section_id: 1, triplet_id: 1, word_id: 1, section_type: 1 },
            InputSection { section_id: 2, triplet_id: 1, word_id: 2, section_type: 2 },
            InputSection { section_id: 3, triplet_id: 1, word_id: 3, section_type: 3 },
        ],
        triplets: vec![InputTriplet {
            triplet_id: 1,
            sentence_id: 1,
            tense: 1,
            is_virtual: false,
            is_passive: false,
        }],
        exempt_features: Vec::new(),
        title: vec![InputDiscourseTitle { discourse_id: 1, word_id: 1 }],
    }
}

#[test]
fn encode_requires_consent() {
    let input = small_discourse();
    assert!(matches!(
        encode_discourse(&input, false),
        Err(EncodeError::ConsentDenied)
    ));
}

#[test]
fn encode_builds_entities_events_and_both_hash_partitions() {
    let input = small_discourse();
    let enc = encode_discourse(&input, true).unwrap();
    assert_eq!(enc.entities.entities.len(), 3);
    assert_eq!(enc.events.tensors.len(), 1);
    assert!(enc.skipped_triplets.is_empty());
    let t = &enc.events.tensors[0];
    assert_eq!(t.unit_tensor_id, 1);
    assert_eq!(t.subject_entity_id, 1);
    assert_eq!(t.predicate_entity_id, 2);
    assert_eq!(t.object_entity_id, 3);
    assert_eq!(t.where_entity_id, -1);
    assert_eq!(t.when_entity_id, -1);
    assert_eq!(t.tense, 1);
    assert_eq!(t.mood, MOOD_INDICATIVE);
    // Excitation excludes the subject word: (3 + 5, 4 + 6).
    assert_eq!((t.excited_x, t.excited_y), (8, 10));
    assert!(enc.events.intervals.is_empty());

    // The real partition carries the one counted event: the subject
    // entity is coreferenced, so its bucket yields one entity item.
    let (isa_real, items_real) = enc.hash_real.clone().unwrap();
    assert_eq!(
        isa_real,
        HashItem { x: 10, y: 20, hash_type: 1, discourse_id: 1, excited_x: 19, excited_y: 32 }
    );
    assert_eq!(
        items_real,
        vec![HashItem { x: 1, y: 2, hash_type: 1, discourse_id: 1, excited_x: 9, excited_y: 12 }]
    );

    // The virtual partition is empty: its hypernym carries no summed
    // excitation.
    let (isa_virtual, items_virtual) = enc.hash_virtual.clone().unwrap();
    assert_eq!(isa_virtual.excited_x, 10);
    assert_eq!(isa_virtual.excited_y, 20);
    assert_eq!(isa_virtual.hash_type, 2);
    assert!(items_virtual.is_empty());
}

#[test]
fn hypernym_item_is_always_first() {
    let input = small_discourse();
    let enc = encode_discourse(&input, true).unwrap();
    let real = enc.hash_real.clone().unwrap();
    let ordered = ordered_hash_items(&real);
    assert_eq!(ordered[0], real.0);
    assert_eq!(ordered.len(), 1 + real.1.len());
}

#[test]
fn re_encoding_folds_entities_to_the_same_ids() {
    let input = small_discourse();
    let first = encode_discourse(&input, true).unwrap();
    let second = encode_discourse(&input, true).unwrap();
    let first_ids: Vec<i64> = first.entities.entities.iter().map(|e| e.entity_id).collect();
    let second_ids: Vec<i64> = second.entities.entities.iter().map(|e| e.entity_id).collect();
    assert_eq!(first_ids, second_ids);
}

#[test]
fn unresolvable_triplets_are_skipped_and_recorded() {
    let mut input = small_discourse();
    // A second triplet with no section rows cannot be resolved.
    input.triplets.push(InputTriplet {
        triplet_id: 2,
        sentence_id: 1,
        tense: 2,
        is_virtual: false,
        is_passive: false,
    });
    let enc = encode_discourse(&input, true).unwrap();
    assert_eq!(enc.events.tensors.len(), 1);
    assert_eq!(enc.skipped_triplets, vec![2]);
}

#[test]
fn passive_triplet_encodes_with_swapped_focus_words() {
    let mut input = small_discourse();
    input.triplets[0].is_passive = true;
    let enc = encode_discourse(&input, true).unwrap();
    // The object word now resolves as the subject entity and carries
    // the subject's excitation-derived rank; excitation excludes the
    // effective subject (word 3): (1 + 3, 2 + 4).
    assert_eq!((enc.events.tensors[0].excited_x, enc.events.tensors[0].excited_y), (4, 6));
    // The subject entity row now holds word 3.
    let sid = enc.events.tensors[0].subject_entity_id;
    let subject_row = &enc.entities.entities[(sid - 1) as usize];
    assert_eq!(subject_row.word_id, 3);
    let oid = enc.events.tensors[0].object_entity_id;
    let object_row = &enc.entities.entities[(oid - 1) as usize];
    assert_eq!(object_row.word_id, 1);
}

#[test]
fn discourse_without_title_has_no_hash_partitions() {
    let mut input = small_discourse();
    input.title = Vec::new();
    let enc = encode_discourse(&input, true).unwrap();
    assert!(enc.hash_real.is_none());
    assert!(enc.hash_virtual.is_none());
    assert_eq!(enc.events.tensors.len(), 1);
}

#[test]
fn virtual_triplet_opens_an_interval_in_the_encoding() {
    let mut input = small_discourse();
    // A second sentence whose triplet carries a non-indicative mood.
    input.sentences.push(InputSentence { sentence_id: 2, discourse_id: 1, is_question: false });
    input.words.push(word(4, 2, 2, 7, 8));
    input.words.push(word(5, 2, 0, 9, 1));
    input.words.push(word(6, 2, 0, 2, 2));
    input.sections.push(InputSection { section_id: 4, triplet_id: 2, word_id: 4, section_type: 1 });
    input.sections.push(InputSection { section_id: 5, triplet_id: 2, word_id: 5, section_type: 2 });
    input.sections.push(InputSection { section_id: 6, triplet_id: 2, word_id: 6, section_type: 3 });
    input.triplets.push(InputTriplet {
        triplet_id: 2,
        sentence_id: 2,
        tense: 2,
        is_virtual: false,
        is_passive: false,
    });
    input.features.push(feature(4, UdTag::Mood, FeatureTag::Mood, FeatureValue::Mood(7)));
    let enc = encode_discourse(&input, true).unwrap();
    assert_eq!(enc.events.tensors.len(), 2);
    assert_eq!(enc.events.tensors[1].mood, 7);
    assert_eq!(enc.events.intervals.len(), 1);
    assert_eq!(enc.events.intervals[0].branch_id, 2);
    assert_eq!(enc.events.intervals[0].rejoin_id, -1);
}

/// The law-of-cosines preformat of one polar state, as the serializer
/// derives it from the stored cartesian positions.
fn preformat_state(radius: f64, angle: f64, max_x: f64) -> (u8, u8) {
    let a_squared = radius.powi(2) + max_x.powi(2) - 2.0 * radius * max_x * angle.cos();
    let a = a_squared.sqrt();
    let opp_cos = (a_squared + max_x.powi(2) - radius.powi(2)) / (2.0 * a_squared * max_x.powi(2));
    let opp = opp_cos.acos();
    let upper_angle = std::f64::consts::PI - angle - opp;
    let lean = if a > radius {
        0
    } else if a < radius {
        2
    } else {
        1
    };
    let rounded = upper_angle.round();
    let clamped = if rounded.is_finite() && rounded >= 0.0 && rounded <= 99.0 {
        rounded as u8
    } else {
        0
    };
    (lean, clamped)
}

#[test]
fn encode_and_compose_yield_a_full_fingerprint() {
    let input = small_discourse();
    let enc = encode_discourse(&input, true).unwrap();
    let real = enc.hash_real.clone().unwrap();
    let items = ordered_hash_items(&real);
    let max_x = 100.0f64;
    let formatted: Vec<okeuvo::hashing::HashItemFormatted> = items
        .iter()
        .map(|item| {
            let to_polar = |x: i64, y: i64| {
                let xf = x as f64;
                let yf = y as f64;
                let radius = (xf * xf + yf * yf).sqrt();
                let angle = if xf == 0.0 { 0.0 } else { (yf / xf).atan() };
                (radius, angle)
            };
            let (radius, angle) = to_polar(item.x, item.y);
            let (excited_radius, excited_angle) = to_polar(item.excited_x, item.excited_y);
            let (right_leaning, upper_angle) = preformat_state(radius, angle, max_x);
            let (right_leaning_excited, upper_angle_excited) =
                preformat_state(excited_radius, excited_angle, max_x);
            okeuvo::hashing::HashItemFormatted {
                right_leaning,
                upper_angle,
                right_leaning_excited,
                upper_angle_excited,
            }
        })
        .collect();
    let hash = okeuvo::hashing::get_hash(&formatted, true).unwrap();
    assert_eq!(hash.len(), 199);
    assert_eq!(hash.split('-').count(), 20);
    // Two real tokens (the hypernym and one entity item), then padding.
    assert_ne!(&hash[0..9], "#!##!#!##");
    assert_ne!(&hash[10..19], "#!##!#!##");
    assert_eq!(&hash[20..29], "#!##!#!##");
}

#[test]
fn question_sentences_are_left_out_of_the_aggregation() {
    let mut input = small_discourse();
    input.sentences[0].is_question = true;
    let enc = encode_discourse(&input, true).unwrap();
    let (isa_real, items_real) = enc.hash_real.clone().unwrap();
    // No tensor survives the filter: no entity items, no excitation.
    assert!(items_real.is_empty());
    assert_eq!(isa_real.excited_x, 10);
    assert_eq!(isa_real.excited_y, 20);
}
