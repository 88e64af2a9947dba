//! The excitation engine: per-triplet excitation sums and the
//! per-discourse aggregation that ranks surviving entities and yields
//! one hash item per entity plus the discourse hypernym item.

use vstd::prelude::*;
use crate::entities::{Entity, EntityStore};
use crate::events::UnitTensor;
use crate::geometry::lemma_abs_square_bound;
use crate::hashing::{HashItem, sort_hash_items_desc, sorted_desc_by_excited_radius};
use crate::records::{InputDiscourse, InputSentence, InputWord};

verus! {

/// Bound on raw meaning-grid coordinates of words, entities and
/// discourses.
pub const WORD_COORD_BOUND: i64 = 1_000_000_000;

/// Bound on the number of words of one sentence.
pub const MAX_SENTENCE_WORDS: usize = 1000;

/// Bound on a per-event excited position: a sentence's word sum.
pub const EXCITED_BOUND: i64 = 1_000_000_000_000;

/// Bound on the number of events of one discourse.
pub const MAX_DISCOURSE_TENSORS: usize = 1000;

/// Bound on one entity's accumulated excitation total.
pub const EXCITED_TOTAL_BOUND: i64 = 1_000_000_000_000_000;

/// Holds the summed position vectors of a triplet's words.
#[derive(Debug, Clone, Copy, PartialEq, Eq, Structural)]
pub struct ExcitationData {
    /// Squared length of the resultant.
    pub magnitude_squared: i128,
    /// End point of the resultant.
    pub x: i64,
    pub y: i64,
}

/// A word whose coordinates stay within the raw coordinate bound.
pub open spec fn word_in_bounds(w: InputWord) -> bool {
    -WORD_COORD_BOUND <= w.x <= WORD_COORD_BOUND && -WORD_COORD_BOUND <= w.y <= WORD_COORD_BOUND
}

/// The vector sum of the positions of every word except the subject.
pub open spec fn spec_excitation_sum(words: Seq<InputWord>, subject_word_id: i32) -> (int, int)
    decreases words.len(),
{
    if words.len() == 0 {
        (0, 0)
    } else {
        let prev = spec_excitation_sum(words.drop_last(), subject_word_id);
        if words.last().word_id == subject_word_id {
            prev
        } else {
            (prev.0 + words.last().x, prev.1 + words.last().y)
        }
    }
}

/// Per-triplet excitation: the vector sum of the positions of every
/// word of the sentence excluding the resolved subject word, with its
/// squared magnitude.
pub fn get_excitation(input_words: &Vec<InputWord>, subject_word_id: i32) -> (r: ExcitationData)
    requires
        forall|i: int| 0 <= i < input_words@.len() ==> word_in_bounds(#[trigger] input_words@[i]),
        input_words@.len() <= MAX_SENTENCE_WORDS,
    ensures
        r.x == spec_excitation_sum(input_words@, subject_word_id).0,
        r.y == spec_excitation_sum(input_words@, subject_word_id).1,
        -EXCITED_BOUND <= r.x <= EXCITED_BOUND,
        -EXCITED_BOUND <= r.y <= EXCITED_BOUND,
        r.magnitude_squared == r.x * r.x + r.y * r.y,
{
    let mut x: i64 = 0;
    let mut y: i64 = 0;
    let mut i: usize = 0;
    while i < input_words.len()
        invariant
            i <= input_words@.len(),
            input_words@.len() <= MAX_SENTENCE_WORDS,
            forall|k: int| 0 <= k < input_words@.len() ==> word_in_bounds(
                #[trigger] input_words@[k]),
            x == spec_excitation_sum(input_words@.take(i as int), subject_word_id).0,
            y == spec_excitation_sum(input_words@.take(i as int), subject_word_id).1,
            -(i as int) * WORD_COORD_BOUND <= x <= (i as int) * WORD_COORD_BOUND,
            -(i as int) * WORD_COORD_BOUND <= y <= (i as int) * WORD_COORD_BOUND,
        decreases input_words@.len() - i,
    {
        let w = &input_words[i];
        proof {
            assert(input_words@.take(i + 1).drop_last() =~= input_words@.take(i as int));
            assert(input_words@.take(i + 1).last() == input_words@[i as int]);
        }
        if w.word_id != subject_word_id {
            x = x + w.x;
            y = y + w.y;
        }
        i = i + 1;
    }
    proof {
        assert(input_words@.take(input_words@.len() as int) =~= input_words@);
        lemma_abs_square_bound(x as int, EXCITED_BOUND as int);
        lemma_abs_square_bound(y as int, EXCITED_BOUND as int);
    }
    let xi: i128 = x as i128;
    let yi: i128 = y as i128;
    ExcitationData { magnitude_squared: xi * xi + yi * yi, x, y }
}

/// Whether a sentence of the discourse is flagged as a question.
pub open spec fn is_question_sentence(sentences: Seq<InputSentence>, sentence_id: i32) -> bool {
    exists|i: int|
        0 <= i < sentences.len() && (#[trigger] sentences[i]).sentence_id == sentence_id
            && sentences[i].is_question
}

fn is_question_exec(sentences: &Vec<InputSentence>, sentence_id: i32) -> (r: bool)
    ensures
        r == is_question_sentence(sentences@, sentence_id),
{
    let mut i: usize = 0;
    while i < sentences.len()
        invariant
            i <= sentences@.len(),
            forall|k: int|
                0 <= k < i ==> !((#[trigger] sentences@[k]).sentence_id == sentence_id
                    && sentences@[k].is_question),
        decreases sentences@.len() - i,
    {
        let s = sentences[i];
        if s.sentence_id == sentence_id && s.is_question {
            return true;
        }
        i = i + 1;
    }
    false
}

fn contains_id(v: &Vec<i64>, id: i64) -> (r: bool)
    ensures
        r == v@.contains(id),
{
    let mut i: usize = 0;
    while i < v.len()
        invariant
            i <= v@.len(),
            forall|k: int| 0 <= k < i ==> (#[trigger] v@[k]) != id,
        decreases v@.len() - i,
    {
        if v[i] == id {
            return true;
        }
        i = i + 1;
    }
    proof {
        if v@.contains(id) {
            let k = choose|k: int| 0 <= k < v@.len() && v@[k] == id;
        }
    }
    false
}

/// Whether an entity id names a coreference instance of the store.
pub open spec fn is_coref_entity(entities: Seq<Entity>, id: i64) -> bool {
    1 <= id <= entities.len() && entities[id - 1].instance_index > 0
}

/// Appends an id to the support list if it names a coreference
/// instance not yet listed.
pub open spec fn add_support(acc: Seq<i64>, entities: Seq<Entity>, id: i64) -> Seq<i64> {
    if is_coref_entity(entities, id) && !acc.contains(id) {
        acc.push(id)
    } else {
        acc
    }
}

/// The centrality-support list of a tensor partition: every entity id
/// that appears in a slot of some tensor and names a coreference
/// instance, in first-appearance order over the slots object, subject,
/// where, when, predicate.
pub open spec fn spec_centrality(tensors: Seq<UnitTensor>, entities: Seq<Entity>) -> Seq<i64>
    decreases tensors.len(),
{
    if tensors.len() == 0 {
        Seq::empty()
    } else {
        let prev = spec_centrality(tensors.drop_last(), entities);
        let t = tensors.last();
        add_support(
            add_support(
                add_support(
                    add_support(add_support(prev, entities, t.object_entity_id), entities,
                        t.subject_entity_id),
                    entities,
                    t.where_entity_id,
                ),
                entities,
                t.when_entity_id,
            ),
            entities,
            t.predicate_entity_id,
        )
    }
}

fn add_support_exec(acc: &mut Vec<i64>, entities: &EntityStore, id: i64)
    requires
        entities.wf(),
    ensures
        final(acc)@ == add_support(old(acc)@, entities.entities@, id),
{
    let is_coref: bool = match entities.get(id) {
        Some(e) => e.instance_index > 0,
        None => false,
    };
    if is_coref {
        if !contains_id(acc, id) {
            acc.push(id);
        }
    }
}

/// Collects the centrality support of a tensor partition: the entity
/// ids that appear among coreferenced participants of its tensors.
pub fn unit_tensor_centrality(tensors: &Vec<UnitTensor>, entities: &EntityStore) -> (r: Vec<i64>)
    requires
        entities.wf(),
    ensures
        r@ == spec_centrality(tensors@, entities.entities@),
{
    let mut result: Vec<i64> = Vec::new();
    let mut i: usize = 0;
    while i < tensors.len()
        invariant
            i <= tensors@.len(),
            entities.wf(),
            result@ == spec_centrality(tensors@.take(i as int), entities.entities@),
        decreases tensors@.len() - i,
    {
        let t = tensors[i];
        proof {
            assert(tensors@.take(i + 1).drop_last() =~= tensors@.take(i as int));
            assert(tensors@.take(i + 1).last() == tensors@[i as int]);
        }
        add_support_exec(&mut result, entities, t.object_entity_id);
        add_support_exec(&mut result, entities, t.subject_entity_id);
        add_support_exec(&mut result, entities, t.where_entity_id);
        add_support_exec(&mut result, entities, t.when_entity_id);
        add_support_exec(&mut result, entities, t.predicate_entity_id);
        i = i + 1;
    }
    proof {
        assert(tensors@.take(tensors@.len() as int) =~= tensors@);
    }
    result
}

/// Whether any of the five entity-id slots of a tensor has centrality
/// support.
pub open spec fn has_support(cents: Seq<i64>, t: UnitTensor) -> bool {
    ||| cents.contains(t.object_entity_id)
    ||| cents.contains(t.predicate_entity_id)
    ||| cents.contains(t.subject_entity_id)
    ||| cents.contains(t.when_entity_id)
    ||| cents.contains(t.where_entity_id)
}

/// A tensor survives the salience filter when its sentence is not a
/// question and at least one of its slots has centrality support.
pub open spec fn tensor_counted(
    sentences: Seq<InputSentence>,
    cents: Seq<i64>,
    t: UnitTensor,
) -> bool {
    !is_question_sentence(sentences, t.sentence_id) && has_support(cents, t)
}

/// Index of the accumulation bucket of an entity.
pub open spec fn find_total(ts: Seq<(i64, (int, int))>, key: i64) -> Option<int>
    decreases ts.len(),
{
    if ts.len() == 0 {
        None
    } else if ts[0].0 == key {
        Some(0int)
    } else {
        match find_total(ts.skip(1), key) {
            Some(k) => Some(k + 1),
            None => None,
        }
    }
}

/// The accumulated excitation totals: every surviving tensor folds its
/// excited position into the bucket of its subject entity, buckets in
/// first-seen order.
pub open spec fn spec_totals(
    tensors: Seq<UnitTensor>,
    sentences: Seq<InputSentence>,
    cents: Seq<i64>,
) -> Seq<(i64, (int, int))>
    decreases tensors.len(),
{
    if tensors.len() == 0 {
        Seq::empty()
    } else {
        let prev = spec_totals(tensors.drop_last(), sentences, cents);
        let t = tensors.last();
        if tensor_counted(sentences, cents, t) {
            match find_total(prev, t.subject_entity_id) {
                Some(j) => prev.update(
                    j,
                    (t.subject_entity_id, (prev[j].1.0 + t.excited_x, prev[j].1.1 + t.excited_y)),
                ),
                None => prev.push((t.subject_entity_id, (t.excited_x as int, t.excited_y as int))),
            }
        } else {
            prev
        }
    }
}

/// The hash items of the accumulated totals: one item per bucket whose
/// entity id names a row of the store, carrying the entity's ground
/// position and the combined (ground plus total) excited position.
pub open spec fn spec_entity_items(
    totals: Seq<(i64, (int, int))>,
    entities: Seq<Entity>,
    hash_type: i32,
    discourse_id: i32,
) -> Seq<HashItem>
    decreases totals.len(),
{
    if totals.len() == 0 {
        Seq::empty()
    } else {
        let prev = spec_entity_items(totals.drop_last(), entities, hash_type, discourse_id);
        let b = totals.last();
        if 1 <= b.0 <= entities.len() {
            let e = entities[b.0 - 1];
            prev.push(
                HashItem {
                    x: e.x,
                    y: e.y,
                    hash_type,
                    discourse_id,
                    excited_x: (e.x + b.1.0) as i64,
                    excited_y: (e.y + b.1.1) as i64,
                },
            )
        } else {
            prev
        }
    }
}

/// The discourse-wide summed excitation: the sum of the combined
/// vectors of every bucket whose entity id names a row of the store.
pub open spec fn spec_summed(totals: Seq<(i64, (int, int))>, entities: Seq<Entity>) -> (int, int)
    decreases totals.len(),
{
    if totals.len() == 0 {
        (0, 0)
    } else {
        let prev = spec_summed(totals.drop_last(), entities);
        let b = totals.last();
        if 1 <= b.0 <= entities.len() {
            let e = entities[b.0 - 1];
            (prev.0 + e.x + b.1.0, prev.1 + e.y + b.1.1)
        } else {
            prev
        }
    }
}

/// The hypernym hash item of a discourse: its own position as ground
/// state and its position displaced by the summed excitation as the
/// excited state.
pub open spec fn hypernym_item(
    discourse: InputDiscourse,
    summed: (int, int),
    hash_type: i32,
) -> HashItem {
    HashItem {
        x: discourse.x,
        y: discourse.y,
        hash_type,
        discourse_id: discourse.discourse_id,
        excited_x: (discourse.x + summed.0) as i64,
        excited_y: (discourse.y + summed.1) as i64,
    }
}

/// The largest magnitude one bucket can contribute to the summed
/// excitation: its total plus its entity's ground coordinate.
pub open spec fn contribution_bound() -> int {
    EXCITED_TOTAL_BOUND + WORD_COORD_BOUND
}

/// A value bounded by `k` contributions.
pub open spec fn bounded_by(v: int, k: int, c: int) -> bool {
    -(k * c) <= v && v <= k * c
}

/// One accumulation step stays within the scaled bound.
pub proof fn lemma_linear_step(j: int, c: int)
    requires
        c >= 0,
        j >= 0,
    ensures
        (j + 1) * c == j * c + c,
        j * c >= 0,
{
    assert((j + 1) * c == j * c + c && j * c >= 0) by (nonlinear_arith)
        requires c >= 0 && j >= 0;
}

/// Scaling preserves order for a non-negative factor.
pub proof fn lemma_scale_mono(a: int, b: int, c: int)
    requires
        a <= b,
        c >= 0,
    ensures
        a * c <= b * c,
{
    assert(a * c <= b * c) by (nonlinear_arith)
        requires a <= b && c >= 0;
}

/// A tensor whose excited position stays within the per-event bound.
pub open spec fn tensor_in_bounds(t: UnitTensor) -> bool {
    -EXCITED_BOUND <= t.excited_x <= EXCITED_BOUND && -EXCITED_BOUND <= t.excited_y
        <= EXCITED_BOUND
}

/// An entity whose coordinates stay within the raw coordinate bound.
pub open spec fn entity_in_bounds(e: Entity) -> bool {
    -WORD_COORD_BOUND <= e.x <= WORD_COORD_BOUND && -WORD_COORD_BOUND <= e.y <= WORD_COORD_BOUND
}

/// Aggregates one partition of a discourse's events into ranked hash
/// items: tensors of question sentences and tensors without centrality
/// support are skipped; the excited positions of the survivors
/// accumulate into per-subject-entity buckets; each bucket with a
/// known entity row yields one hash item whose excited state combines
/// the entity's ground position with its total; the hypernym item is
/// returned separately, and the entity items are ordered descending by
/// excited radius.
pub fn get_hash_raw(
    discourse: &InputDiscourse,
    degree_centralities: &Vec<i64>,
    unit_tensors: &Vec<UnitTensor>,
    sentences_vec: &Vec<InputSentence>,
    discourse_entities: &EntityStore,
    hash_type: i32,
) -> (r: (HashItem, Vec<HashItem>))
    requires
        discourse_entities.wf(),
        unit_tensors@.len() <= MAX_DISCOURSE_TENSORS,
        forall|i: int| 0 <= i < unit_tensors@.len() ==> tensor_in_bounds(
            #[trigger] unit_tensors@[i]),
        forall|i: int| 0 <= i < discourse_entities.entities@.len() ==> entity_in_bounds(
            #[trigger] discourse_entities.entities@[i]),
        -WORD_COORD_BOUND <= discourse.x <= WORD_COORD_BOUND,
        -WORD_COORD_BOUND <= discourse.y <= WORD_COORD_BOUND,
    ensures
        ({
            let totals = spec_totals(unit_tensors@, sentences_vec@, degree_centralities@);
            let items = spec_entity_items(
                totals,
                discourse_entities.entities@,
                hash_type,
                discourse.discourse_id,
            );
            &&& r.0 == hypernym_item(
                *discourse,
                spec_summed(totals, discourse_entities.entities@),
                hash_type,
            )
            &&& r.1@ == crate::hashing::spec_sort_hash_desc(items)
            &&& r.1@.to_multiset() == items.to_multiset()
            &&& r.1@.len() == items.len()
            &&& sorted_desc_by_excited_radius(r.1@)
        }),
{
    let ghost cents = degree_centralities@;
    let ghost entseq = discourse_entities.entities@;
    // Accumulate excitation totals per subject entity.
    let mut totals: Vec<(i64, (i64, i64))> = Vec::new();
    let mut i: usize = 0;
    while i < unit_tensors.len()
        invariant
            i <= unit_tensors@.len(),
            unit_tensors@.len() <= MAX_DISCOURSE_TENSORS,
            forall|k: int| 0 <= k < unit_tensors@.len() ==> tensor_in_bounds(
                #[trigger] unit_tensors@[k]),
            totals_view(totals@) == spec_totals(unit_tensors@.take(i as int), sentences_vec@,
                cents),
            cents == degree_centralities@,
            totals@.len() <= i,
            forall|k: int|
                0 <= k < totals@.len() ==> -(i as int) * EXCITED_BOUND <= (
                #[trigger] totals@[k]).1.0 <= (i as int) * EXCITED_BOUND && -(i as int)
                    * EXCITED_BOUND <= totals@[k].1.1 <= (i as int) * EXCITED_BOUND,
        decreases unit_tensors@.len() - i,
    {
        let t = unit_tensors[i];
        proof {
            assert(unit_tensors@.take(i + 1).drop_last() =~= unit_tensors@.take(i as int));
            assert(unit_tensors@.take(i + 1).last() == unit_tensors@[i as int]);
        }
        let counted = !is_question_exec(sentences_vec, t.sentence_id) && (contains_id(
            degree_centralities,
            t.object_entity_id,
        ) || contains_id(degree_centralities, t.predicate_entity_id) || contains_id(
            degree_centralities,
            t.subject_entity_id,
        ) || contains_id(degree_centralities, t.when_entity_id) || contains_id(
            degree_centralities,
            t.where_entity_id,
        ));
        if counted {
            let ghost old_totals = totals@;
            let slot = find_total_exec(&totals, t.subject_entity_id);
            match slot {
                Some(j) => {
                    let bucket = totals[j];
                    totals.set(
                        j,
                        (t.subject_entity_id, (bucket.1.0 + t.excited_x, bucket.1.1 + t.excited_y)),
                    );
                    proof {
                        assert(totals_view(totals@) =~= spec_totals(
                            unit_tensors@.take(i + 1),
                            sentences_vec@,
                            cents,
                        ));
                    }
                },
                None => {
                    totals.push((t.subject_entity_id, (t.excited_x, t.excited_y)));
                    proof {
                        assert(totals_view(totals@) =~= spec_totals(
                            unit_tensors@.take(i + 1),
                            sentences_vec@,
                            cents,
                        ));
                    }
                },
            }
        }
        i = i + 1;
    }
    proof {
        assert(unit_tensors@.take(unit_tensors@.len() as int) =~= unit_tensors@);
    }
    // Emit one hash item per bucket with a known entity row, summing
    // the combined vectors into the discourse-wide excitation.
    let mut hash_item_vec: Vec<HashItem> = Vec::new();
    let mut summed_x: i64 = 0;
    let mut summed_y: i64 = 0;
    let mut j: usize = 0;
    while j < totals.len()
        invariant
            j <= totals@.len(),
            totals@.len() <= MAX_DISCOURSE_TENSORS,
            discourse_entities.wf(),
            entseq == discourse_entities.entities@,
            forall|k: int| 0 <= k < entseq.len() ==> entity_in_bounds(#[trigger] entseq[k]),
            forall|k: int|
                0 <= k < totals@.len() ==> -EXCITED_TOTAL_BOUND <= (#[trigger] totals@[k]).1.0
                    <= EXCITED_TOTAL_BOUND && -EXCITED_TOTAL_BOUND <= totals@[k].1.1
                    <= EXCITED_TOTAL_BOUND,
            hash_item_vec@ == spec_entity_items(totals_view(totals@).take(j as int), entseq,
                hash_type, discourse.discourse_id),
            summed_x == spec_summed(totals_view(totals@).take(j as int), entseq).0,
            summed_y == spec_summed(totals_view(totals@).take(j as int), entseq).1,
            bounded_by(summed_x as int, j as int, contribution_bound()),
            bounded_by(summed_y as int, j as int, contribution_bound()),
            forall|k: int| 0 <= k < hash_item_vec@.len() ==> crate::hashing::hash_item_in_grid(
                #[trigger] hash_item_vec@[k]),
        decreases totals@.len() - j,
    {
        let bucket = totals[j];
        proof {
            assert(totals_view(totals@).take(j + 1).drop_last() =~= totals_view(totals@).take(
                j as int,
            ));
            assert(totals_view(totals@).take(j + 1).last() == totals_view(totals@)[j as int]);
        }
        match discourse_entities.get(bucket.0) {
            Some(entity) => {
                let combined_x: i64 = entity.x + bucket.1.0;
                let combined_y: i64 = entity.y + bucket.1.1;
                proof {
                    let c = contribution_bound();
                    lemma_linear_step(j as int, c);
                    lemma_scale_mono(j as int + 1, MAX_DISCOURSE_TENSORS as int, c);
                    assert(-c <= combined_x as int <= c);
                    assert(-c <= combined_y as int <= c);
                    assert(bounded_by(summed_x as int + combined_x as int, j as int + 1, c));
                    assert(bounded_by(summed_y as int + combined_y as int, j as int + 1, c));
                    assert((j as int + 1) * c <= MAX_DISCOURSE_TENSORS as int * c);
                }
                let hash_item = HashItem {
                    x: entity.x,
                    y: entity.y,
                    hash_type,
                    discourse_id: discourse.discourse_id,
                    excited_x: combined_x,
                    excited_y: combined_y,
                };
                hash_item_vec.push(hash_item);
                summed_x = summed_x + combined_x;
                summed_y = summed_y + combined_y;
            },
            None => {},
        }
        j = j + 1;
    }
    proof {
        assert(totals_view(totals@).take(totals@.len() as int) =~= totals_view(totals@));
    }
    // The discourse hypernym: ground state at the discourse position,
    // excited state displaced by the summed excitation.
    let isa_hash_item = HashItem {
        x: discourse.x,
        y: discourse.y,
        hash_type,
        discourse_id: discourse.discourse_id,
        excited_x: discourse.x + summed_x,
        excited_y: discourse.y + summed_y,
    };
    let sorted = sort_hash_items_desc(hash_item_vec);
    (isa_hash_item, sorted)
}

/// The totals as mathematical pairs.
pub open spec fn totals_view(v: Seq<(i64, (i64, i64))>) -> Seq<(i64, (int, int))> {
    v.map_values(|b: (i64, (i64, i64))| (b.0, (b.1.0 as int, b.1.1 as int)))
}

fn find_total_exec(totals: &Vec<(i64, (i64, i64))>, key: i64) -> (r: Option<usize>)
    ensures
        r matches Some(j) ==> 0 <= j < totals@.len() && find_total(totals_view(totals@), key)
            == Some(j as int),
        r is None ==> find_total(totals_view(totals@), key) is None,
{
    let mut j: usize = 0;
    while j < totals.len()
        invariant
            j <= totals@.len(),
            forall|k: int| 0 <= k < j ==> (#[trigger] totals_view(totals@)[k]).0 != key,
        decreases totals@.len() - j,
    {
        if totals[j].0 == key {
            proof {
                assert(totals_view(totals@)[j as int].0 == key);
                lemma_find_total_first(totals_view(totals@), key, j as int);
            }
            return Some(j);
        }
        proof {
            assert(totals_view(totals@)[j as int].0 == totals@[j as int].0);
        }
        j = j + 1;
    }
    proof {
        lemma_find_total_none(totals_view(totals@), key);
    }
    None
}

proof fn lemma_find_total_first(ts: Seq<(i64, (int, int))>, key: i64, j: int)
    requires
        0 <= j < ts.len(),
        ts[j].0 == key,
        forall|k: int| 0 <= k < j ==> (#[trigger] ts[k]).0 != key,
    ensures
        find_total(ts, key) == Some(j),
    decreases j,
{
    if j > 0 {
        lemma_find_total_first(ts.skip(1), key, j - 1);
    }
}

proof fn lemma_find_total_none(ts: Seq<(i64, (int, int))>, key: i64)
    requires
        forall|k: int| 0 <= k < ts.len() ==> (#[trigger] ts[k]).0 != key,
    ensures
        find_total(ts, key) is None,
    decreases ts.len(),
{
    if ts.len() > 0 {
        lemma_find_total_none(ts.skip(1), key);
    }
}

} // verus!
