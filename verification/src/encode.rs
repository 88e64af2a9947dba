//! The discourse encoder: resolves every sentence's triplets, folds
//! entities, appends the event graph with its virtual intervals, and
//! aggregates both hash partitions of the discourse.

use vstd::prelude::*;
use crate::EncodeError;
use crate::entities::{Entity, EntityStore, create_entity};
use crate::events::{
    EventGraph, UnitTensor, intervals_view, partition_tensors, select_unit_tensor,
};
use crate::excitation::{
    MAX_DISCOURSE_TENSORS, MAX_SENTENCE_WORDS, WORD_COORD_BOUND, entity_in_bounds, get_excitation,
    get_hash_raw, lemma_linear_step, lemma_scale_mono, spec_centrality, spec_entity_items,
    spec_excitation_sum, spec_summed, spec_totals, tensor_in_bounds, unit_tensor_centrality,
    word_in_bounds,
};
use crate::hashing::{HASH_TYPE_REAL, HASH_TYPE_VIRTUAL, HashItem, sorted_desc_by_excited_radius};
use crate::records::{
    InputDiscourse, InputDiscourseTitle, InputExemptFeature, InputSection, InputSentence,
    InputTriplet, InputWord, InputWordFeature, InputWordRelation,
};
use crate::resolver::{
    first_with_triplet_id, get_subject_predicate_object, prune_triplets, pruned_sorted,
    select_input_features_by_triplet,
};
use crate::virtuality::{
    LOCATION_GEOGRAPHIC, LOCATION_TEMPORAL, LOCATION_TEMPORAL_TERMINATIVE, get_location_type,
    is_virtual,
};

verus! {

/// Everything the record store supplies about one discourse.
#[derive(Debug, Clone)]
pub struct DiscourseInput {
    pub discourse: InputDiscourse,
    pub sentences: Vec<InputSentence>,
    pub words: Vec<InputWord>,
    pub features: Vec<InputWordFeature>,
    pub relations: Vec<InputWordRelation>,
    pub sections: Vec<InputSection>,
    pub triplets: Vec<InputTriplet>,
    pub exempt_features: Vec<InputExemptFeature>,
    pub title: Vec<InputDiscourseTitle>,
}

/// What one encoding produces: the folded entities, the event graph
/// with its virtual intervals, both hash partitions (hypernym item
/// first, then the ranked entity items), and the triplets skipped as
/// unresolvable.
pub struct DiscourseEncoding {
    pub entities: EntityStore,
    pub events: EventGraph,
    pub hash_real: Option<(HashItem, Vec<HashItem>)>,
    pub hash_virtual: Option<(HashItem, Vec<HashItem>)>,
    pub skipped_triplets: Vec<i32>,
}

/// An entity-id slot is either unset or names a store row.
pub open spec fn valid_entity_ref(id: i64, n: int) -> bool {
    id == -1 || 1 <= id <= n
}

/// The structural laws every appended event obeys: its entity slots
/// name rows of the store (the optional location slots may be unset),
/// the geographic and temporal location slots are never both set, and
/// the event is stamped with the discourse.
pub open spec fn tensor_refs_valid(t: UnitTensor, n: int, discourse_id: i32) -> bool {
    &&& 1 <= t.subject_entity_id <= n
    &&& 1 <= t.predicate_entity_id <= n
    &&& 1 <= t.object_entity_id <= n
    &&& valid_entity_ref(t.where_entity_id, n)
    &&& valid_entity_ref(t.when_entity_id, n)
    &&& !(t.where_entity_id != -1 && t.when_entity_id != -1)
    &&& t.discourse_id == discourse_id
}

/// One hash partition of the final encoding matches the aggregation
/// law of `get_hash_raw` applied to the encoding's own partition of
/// tensors and entities.
pub open spec fn hash_partition_ok(
    h: (HashItem, Seq<HashItem>),
    enc_tensors: Seq<UnitTensor>,
    enc_intervals: Seq<(int, int)>,
    entities: Seq<Entity>,
    discourse: InputDiscourse,
    sentences: Seq<InputSentence>,
    virtual_part: bool,
    hash_type: i32,
) -> bool {
    let part = partition_tensors(enc_tensors, enc_intervals, virtual_part);
    let cents = spec_centrality(part, entities);
    let totals = spec_totals(part, sentences, cents);
    &&& h.0 == crate::excitation::hypernym_item(discourse, spec_summed(totals, entities), hash_type)
    &&& h.1 == crate::hashing::spec_sort_hash_desc(
        spec_entity_items(totals, entities, hash_type, discourse.discourse_id),
    )
    &&& h.1.to_multiset() == spec_entity_items(totals, entities, hash_type,
        discourse.discourse_id).to_multiset()
    &&& h.1.len() == spec_entity_items(totals, entities, hash_type, discourse.discourse_id).len()
    &&& sorted_desc_by_excited_radius(h.1)
}

/// The hypernym item always stands first: the single serialization
/// order of one hash partition is the hypernym item followed by the
/// ranked entity items.  Because the hypernym takes the first of the
/// fingerprint's fixed twenty token slots, at most nineteen ranked
/// entity items reach the rendered fingerprint.
pub fn ordered_hash_items(partition: &(HashItem, Vec<HashItem>)) -> (r: Vec<HashItem>)
    ensures
        r@ == seq![partition.0] + partition.1@,
        r@.len() == 1 + partition.1@.len(),
        r@[0] == partition.0,
{
    let mut result: Vec<HashItem> = Vec::new();
    result.push(partition.0);
    let mut i: usize = 0;
    while i < partition.1.len()
        invariant
            i <= partition.1@.len(),
            result@ == seq![partition.0] + partition.1@.take(i as int),
        decreases partition.1@.len() - i,
    {
        result.push(partition.1[i]);
        proof {
            assert(result@ =~= seq![partition.0] + partition.1@.take(i + 1));
        }
        i = i + 1;
    }
    proof {
        assert(partition.1@.take(partition.1@.len() as int) =~= partition.1@);
    }
    result
}

/// Whether any word of the sentence is a transition word.
pub fn is_triplet_transitional(input_words: &Vec<InputWord>) -> (r: bool)
    ensures
        r == exists|i: int|
            0 <= i < input_words@.len() && (#[trigger] input_words@[i]).is_transition,
{
    let mut i: usize = 0;
    while i < input_words.len()
        invariant
            i <= input_words@.len(),
            forall|k: int| 0 <= k < i ==> !(#[trigger] input_words@[k]).is_transition,
        decreases input_words@.len() - i,
    {
        if input_words[i].is_transition {
            return true;
        }
        i = i + 1;
    }
    false
}

/// The words of one sentence, in input order.
pub open spec fn spec_words_of_sentence(words: Seq<InputWord>, sentence_id: i32) -> Seq<InputWord>
    decreases words.len(),
{
    if words.len() == 0 {
        Seq::empty()
    } else {
        let prev = spec_words_of_sentence(words.drop_last(), sentence_id);
        if words.last().sentence_id == sentence_id {
            prev.push(words.last())
        } else {
            prev
        }
    }
}

/// Selects the words of one sentence.
pub fn select_input_words_by_sentence(words: &Vec<InputWord>, sentence_id: i32) -> (r: Vec<
    InputWord,
>)
    ensures
        r@ == spec_words_of_sentence(words@, sentence_id),
        r@.len() <= words@.len(),
        forall|k: int| 0 <= k < r@.len() ==> words@.contains(#[trigger] r@[k]),
{
    let mut result: Vec<InputWord> = Vec::new();
    let mut i: usize = 0;
    while i < words.len()
        invariant
            i <= words@.len(),
            result@ == spec_words_of_sentence(words@.take(i as int), sentence_id),
            result@.len() <= i,
            forall|k: int| 0 <= k < result@.len() ==> words@.contains(#[trigger] result@[k]),
        decreases words@.len() - i,
    {
        proof {
            assert(words@.take(i + 1).drop_last() =~= words@.take(i as int));
            assert(words@.take(i + 1).last() == words@[i as int]);
        }
        if words[i].sentence_id == sentence_id {
            let ghost gi = i as int;
            let w = &words[i];
            let copied = InputWord {
                word_id: w.word_id,
                sentence_id: w.sentence_id,
                synset_id: w.synset_id,
                index_of_word: w.index_of_word,
                lexeme: w.lexeme.clone(),
                instance_name: w.instance_name.clone(),
                instance_index: w.instance_index,
                pos: w.pos.clone(),
                x: w.x,
                y: w.y,
                is_transition: w.is_transition,
                new_word_id: w.new_word_id,
            };
            proof {
                assert(copied == words@[gi]);
                assert(words@.contains(words@[gi]));
            }
            result.push(copied);
        }
        i = i + 1;
    }
    proof {
        assert(words@.take(words@.len() as int) =~= words@);
    }
    result
}

/// The triplets of one sentence, in input order.
pub open spec fn spec_triplets_of_sentence(
    triplets: Seq<InputTriplet>,
    sentence_id: i32,
) -> Seq<InputTriplet>
    decreases triplets.len(),
{
    if triplets.len() == 0 {
        Seq::empty()
    } else {
        let prev = spec_triplets_of_sentence(triplets.drop_last(), sentence_id);
        if triplets.last().sentence_id == sentence_id {
            prev.push(triplets.last())
        } else {
            prev
        }
    }
}

/// Selects the triplets of one sentence.
pub fn select_input_triplets_by_sentence(triplets: &Vec<InputTriplet>, sentence_id: i32) -> (r: Vec<
    InputTriplet,
>)
    ensures
        r@ == spec_triplets_of_sentence(triplets@, sentence_id),
        r@.len() <= triplets@.len(),
{
    let mut result: Vec<InputTriplet> = Vec::new();
    let mut i: usize = 0;
    while i < triplets.len()
        invariant
            i <= triplets@.len(),
            result@ == spec_triplets_of_sentence(triplets@.take(i as int), sentence_id),
            result@.len() <= i,
        decreases triplets@.len() - i,
    {
        proof {
            assert(triplets@.take(i + 1).drop_last() =~= triplets@.take(i as int));
            assert(triplets@.take(i + 1).last() == triplets@[i as int]);
        }
        if triplets[i].sentence_id == sentence_id {
            result.push(triplets[i]);
        }
        i = i + 1;
    }
    proof {
        assert(triplets@.take(triplets@.len() as int) =~= triplets@);
    }
    result
}

/// Index of the first word of the sentence carrying the given id.
pub open spec fn spec_find_word(words: Seq<InputWord>, word_id: i32) -> Option<int>
    decreases words.len(),
{
    if words.len() == 0 {
        None
    } else if words[0].word_id == word_id {
        Some(0int)
    } else {
        match spec_find_word(words.skip(1), word_id) {
            Some(k) => Some(k + 1),
            None => None,
        }
    }
}

proof fn lemma_find_word_first(words: Seq<InputWord>, word_id: i32, j: int)
    requires
        0 <= j < words.len(),
        words[j].word_id == word_id,
        forall|k: int| 0 <= k < j ==> (#[trigger] words[k]).word_id != word_id,
    ensures
        spec_find_word(words, word_id) == Some(j),
    decreases j,
{
    if j > 0 {
        lemma_find_word_first(words.skip(1), word_id, j - 1);
    }
}

proof fn lemma_find_word_none(words: Seq<InputWord>, word_id: i32)
    requires
        forall|k: int| 0 <= k < words.len() ==> (#[trigger] words[k]).word_id != word_id,
    ensures
        spec_find_word(words, word_id) is None,
    decreases words.len(),
{
    if words.len() > 0 {
        lemma_find_word_none(words.skip(1), word_id);
    }
}

fn word_index(words: &Vec<InputWord>, word_id: i32) -> (r: Option<usize>)
    ensures
        r matches Some(j) ==> j < words@.len() && words@[j as int].word_id == word_id
            && spec_find_word(words@, word_id) == Some(j as int),
        r is None ==> spec_find_word(words@, word_id) is None,
{
    let mut i: usize = 0;
    while i < words.len()
        invariant
            i <= words@.len(),
            forall|k: int| 0 <= k < i ==> (#[trigger] words@[k]).word_id != word_id,
        decreases words@.len() - i,
    {
        if words[i].word_id == word_id {
            proof {
                lemma_find_word_first(words@, word_id, i as int);
            }
            return Some(i);
        }
        i = i + 1;
    }
    proof {
        lemma_find_word_none(words@, word_id);
    }
    None
}

/// The state the encoder builds: folded entity rows, appended events,
/// their virtuality flags, and the skipped triplet ids.
pub struct EncodeState {
    pub entities: Seq<Entity>,
    pub tensors: Seq<UnitTensor>,
    pub flags: Seq<bool>,
    pub skipped: Seq<i32>,
}

/// The per-sentence context the appended events read.
pub struct SentenceContext {
    pub swords: Seq<InputWord>,
    pub sentence_id: i32,
    pub sections: Seq<InputSection>,
    pub relations: Seq<InputWordRelation>,
    pub features: Seq<InputWordFeature>,
    pub exempts: Seq<InputExemptFeature>,
    pub discourse_id: i32,
    /// The sentence's excitation resultant.
    pub excitation: (int, int),
}

/// One triplet's resolution to word indices of its sentence: the three
/// focus words picked by the grade and feature-weight rules, subject
/// and object swapped for a passive triplet, each looked up in the
/// sentence's word list; nothing when a section type or a focus word
/// is missing.
pub open spec fn spec_resolve_one(
    t: InputTriplet,
    sections: Seq<InputSection>,
    relations: Seq<InputWordRelation>,
    features: Seq<InputWordFeature>,
    swords: Seq<InputWord>,
) -> Option<(int, int, int)> {
    let s = crate::resolver::resolved_focus(sections, relations, features, t.triplet_id, 1);
    let p = crate::resolver::resolved_focus(sections, relations, features, t.triplet_id, 2);
    let o = crate::resolver::resolved_focus(sections, relations, features, t.triplet_id, 3);
    if s is Some && p is Some && o is Some {
        let corrected = if t.is_passive {
            (o->Some_0, p->Some_0, s->Some_0)
        } else {
            (s->Some_0, p->Some_0, o->Some_0)
        };
        let si = spec_find_word(swords, corrected.0);
        let pi = spec_find_word(swords, corrected.1);
        let oi = spec_find_word(swords, corrected.2);
        if si is Some && pi is Some && oi is Some {
            Some((si->Some_0, pi->Some_0, oi->Some_0))
        } else {
            None
        }
    } else {
        None
    }
}

/// The resolved entries and the skipped ids of a pruned triplet list,
/// in order.
pub open spec fn spec_resolved_skipped(
    pruned: Seq<InputTriplet>,
    sections: Seq<InputSection>,
    relations: Seq<InputWordRelation>,
    features: Seq<InputWordFeature>,
    swords: Seq<InputWord>,
) -> (Seq<(InputTriplet, (int, int, int))>, Seq<i32>)
    decreases pruned.len(),
{
    if pruned.len() == 0 {
        (Seq::empty(), Seq::empty())
    } else {
        let prev = spec_resolved_skipped(pruned.drop_last(), sections, relations, features, swords);
        match spec_resolve_one(pruned.last(), sections, relations, features, swords) {
            Some(idxs) => (prev.0.push((pruned.last(), idxs)), prev.1),
            None => (prev.0, prev.1.push(pruned.last().triplet_id)),
        }
    }
}

/// The subject word the sentence's excitation is keyed to: the first
/// resolved triple's subject, or -1 when nothing resolved.
pub open spec fn spec_subject_word_id(
    swords: Seq<InputWord>,
    resolved: Seq<(InputTriplet, (int, int, int))>,
) -> i32 {
    if resolved.len() > 0 {
        swords[resolved[0].1.0].word_id
    } else {
        -1i32
    }
}

/// The entity row created for a focus word.
pub open spec fn spec_entity_row(w: InputWord, rank: int, triplet_id: i32, discourse_id: i32) -> Entity {
    Entity {
        entity_id: -1i64,
        discourse_id,
        synset_id: w.synset_id,
        instance_index: w.instance_index,
        word_id: w.word_id,
        rank: rank as i128,
        x: w.x,
        y: w.y,
        triplet_id,
    }
}

/// The virtuality flag and mood code of one triplet, classified from
/// the features of its section words with the discourse exemptions.
pub open spec fn spec_mood_of(
    sections: Seq<InputSection>,
    features: Seq<InputWordFeature>,
    exempts: Seq<InputExemptFeature>,
    triplet_id: i32,
) -> (bool, u32) {
    let fs = crate::resolver::gather_word_features(
        crate::resolver::triplet_section_words(sections, triplet_id),
        features,
    );
    match crate::virtuality::first_nonind_mood(fs) {
        Some(m) => (!crate::virtuality::mood_exempt(exempts, m), m),
        None => (false, crate::records::MOOD_INDICATIVE),
    }
}

/// One appended event: the three focus entities fold into the store,
/// the object's location role fills the where or when slot, the mood
/// classification sets the flag, and the tensor takes the next id.
pub open spec fn spec_append_one(
    ents: Seq<Entity>,
    tensors: Seq<UnitTensor>,
    flags: Seq<bool>,
    t: InputTriplet,
    idxs: (int, int, int),
    ctx: SentenceContext,
) -> (Seq<Entity>, Seq<UnitTensor>, Seq<bool>) {
    let sw = ctx.swords[idxs.0];
    let pw = ctx.swords[idxs.1];
    let ow = ctx.swords[idxs.2];
    let subject_rank = ctx.excitation.0 * ctx.excitation.0 + ctx.excitation.1 * ctx.excitation.1;
    let e_s = spec_entity_row(sw, subject_rank, t.triplet_id, ctx.discourse_id);
    let ents1 = crate::entities::spec_insert_or_fold(ents, e_s);
    let id_s = crate::entities::spec_insert_or_fold_id(ents, e_s);
    let e_p = spec_entity_row(pw, pw.x * pw.y, t.triplet_id, ctx.discourse_id);
    let ents2 = crate::entities::spec_insert_or_fold(ents1, e_p);
    let id_p = crate::entities::spec_insert_or_fold_id(ents1, e_p);
    let e_o = spec_entity_row(ow, ow.x * ow.y, t.triplet_id, ctx.discourse_id);
    let ents3 = crate::entities::spec_insert_or_fold(ents2, e_o);
    let id_o = crate::entities::spec_insert_or_fold_id(ents2, e_o);
    let loc = crate::virtuality::spec_location_type(ctx.features, ctx.relations, ow.word_id);
    let where_id: int = if loc == LOCATION_GEOGRAPHIC {
        id_o
    } else {
        -1
    };
    let when_id: int = if loc == LOCATION_TEMPORAL || loc == LOCATION_TEMPORAL_TERMINATIVE {
        id_o
    } else {
        -1
    };
    let vm = spec_mood_of(ctx.sections, ctx.features, ctx.exempts, t.triplet_id);
    let tensor = UnitTensor {
        unit_tensor_id: (tensors.len() + 1) as i64,
        sentence_id: ctx.sentence_id,
        discourse_id: ctx.discourse_id,
        object_entity_id: id_o as i64,
        subject_entity_id: id_s as i64,
        where_entity_id: where_id as i64,
        when_entity_id: when_id as i64,
        predicate_entity_id: id_p as i64,
        tense: t.tense,
        mood: vm.1,
        excited_x: ctx.excitation.0 as i64,
        excited_y: ctx.excitation.1 as i64,
    };
    (ents3, tensors.push(tensor), flags.push(vm.0))
}

/// The events of every resolved entry of a sentence, appended in order.
pub open spec fn spec_append_all(
    ents: Seq<Entity>,
    tensors: Seq<UnitTensor>,
    flags: Seq<bool>,
    resolved: Seq<(InputTriplet, (int, int, int))>,
    ctx: SentenceContext,
) -> (Seq<Entity>, Seq<UnitTensor>, Seq<bool>)
    decreases resolved.len(),
{
    if resolved.len() == 0 {
        (ents, tensors, flags)
    } else {
        let prev = spec_append_all(ents, tensors, flags, resolved.drop_last(), ctx);
        spec_append_one(prev.0, prev.1, prev.2, resolved.last().0, resolved.last().1, ctx)
    }
}

/// The view of the resolved entries with machine-word indices.
pub open spec fn resolved_view(v: Seq<(InputTriplet, (usize, usize, usize))>) -> Seq<
    (InputTriplet, (int, int, int)),
> {
    v.map_values(
        |e: (InputTriplet, (usize, usize, usize))| (e.0, (e.1.0 as int, e.1.1 as int, e.1.2 as int)),
    )
}

/// One sentence's step of the encoding: its words and triplets are
/// selected, the triplets pruned, resolved and passive-corrected, the
/// excitation keyed to the first resolved subject, and one event
/// appended per resolved triplet; unresolvable ids extend the skipped
/// list.
pub open spec fn spec_encode_sentence(
    st: EncodeState,
    input: DiscourseInput,
    sentence: InputSentence,
) -> EncodeState {
    let swords = spec_words_of_sentence(input.words@, sentence.sentence_id);
    let striplets = spec_triplets_of_sentence(input.triplets@, sentence.sentence_id);
    let pruned = crate::resolver::spec_prune(striplets);
    let rs = spec_resolved_skipped(pruned, input.sections@, input.relations@, input.features@,
        swords);
    let subject = spec_subject_word_id(swords, rs.0);
    let ex = spec_excitation_sum(swords, subject);
    let ctx = SentenceContext {
        swords,
        sentence_id: sentence.sentence_id,
        sections: input.sections@,
        relations: input.relations@,
        features: input.features@,
        exempts: input.exempt_features@,
        discourse_id: input.discourse.discourse_id,
        excitation: ex,
    };
    let acc = spec_append_all(st.entities, st.tensors, st.flags, rs.0, ctx);
    EncodeState { entities: acc.0, tensors: acc.1, flags: acc.2, skipped: st.skipped + rs.1 }
}

/// The encoder state after the first `s` sentences.
pub open spec fn spec_encode_state(input: DiscourseInput, s: int) -> EncodeState
    decreases s,
{
    if s <= 0 {
        EncodeState {
            entities: Seq::empty(),
            tensors: Seq::empty(),
            flags: Seq::empty(),
            skipped: Seq::empty(),
        }
    } else {
        spec_encode_sentence(spec_encode_state(input, s - 1), input, input.sentences@[s - 1])
    }
}

/// The complete encoding as a function of the input alone.
pub open spec fn spec_encode(input: DiscourseInput) -> EncodeState {
    spec_encode_state(input, input.sentences@.len() as int)
}

/// An appended event originates in an input triplet: some triplet of
/// the discourse carries its sentence and tense.
pub open spec fn tensor_has_source(t: UnitTensor, triplets: Seq<InputTriplet>) -> bool {
    exists|j: int|
        0 <= j < triplets.len() && (#[trigger] triplets[j]).sentence_id == t.sentence_id
            && triplets[j].tense == t.tense
}

/// Every member of a sentence's triplet selection belongs to the
/// sentence and to the discourse's triplet list.
proof fn lemma_triplets_of_sentence_members(triplets: Seq<InputTriplet>, sentence_id: i32)
    ensures
        forall|k: int|
            0 <= k < spec_triplets_of_sentence(triplets, sentence_id).len()
                ==> (#[trigger] spec_triplets_of_sentence(triplets, sentence_id)[k]).sentence_id
                == sentence_id && triplets.contains(
                spec_triplets_of_sentence(triplets, sentence_id)[k],
            ),
    decreases triplets.len(),
{
    if triplets.len() > 0 {
        lemma_triplets_of_sentence_members(triplets.drop_last(), sentence_id);
        let sel = spec_triplets_of_sentence(triplets, sentence_id);
        let prev = spec_triplets_of_sentence(triplets.drop_last(), sentence_id);
        assert forall|k: int| 0 <= k < sel.len() implies (#[trigger] sel[k]).sentence_id
            == sentence_id && triplets.contains(sel[k]) by {
            if k < prev.len() {
                assert(sel[k] == prev[k]);
                let j = choose|j: int|
                    0 <= j < triplets.drop_last().len() && triplets.drop_last()[j] == prev[k];
                assert(triplets[j] == prev[k]);
            } else {
                assert(sel[k] == triplets.last());
                assert(triplets[triplets.len() - 1] == triplets.last());
            }
        }
    }
}

/// A found first occurrence is a member of the searched sequence.
proof fn lemma_first_with_triplet_id_contains(s: Seq<InputTriplet>, triplet_id: i32)
    requires
        first_with_triplet_id(s, triplet_id) is Some,
    ensures
        s.contains(first_with_triplet_id(s, triplet_id)->Some_0),
    decreases s.len(),
{
    if s.len() > 0 && s[0].triplet_id != triplet_id {
        lemma_first_with_triplet_id_contains(s.skip(1), triplet_id);
        let t = first_with_triplet_id(s, triplet_id)->Some_0;
        let j = choose|j: int| 0 <= j < s.skip(1).len() && s.skip(1)[j] == t;
        assert(s[j + 1] == t);
    }
}

/// An insertion keeps every stored coordinate within bounds and grows
/// the store by at most one row.
proof fn lemma_insert_preserves_bounds(s: Seq<Entity>, e: Entity)
    requires
        forall|i: int| 0 <= i < s.len() ==> entity_in_bounds(#[trigger] s[i]),
        -WORD_COORD_BOUND <= e.x <= WORD_COORD_BOUND,
        -WORD_COORD_BOUND <= e.y <= WORD_COORD_BOUND,
    ensures
        ({
            let s1 = crate::entities::spec_insert_or_fold(s, e);
            &&& forall|i: int| 0 <= i < s1.len() ==> entity_in_bounds(#[trigger] s1[i])
            &&& s.len() <= s1.len() <= s.len() + 1
        }),
{
    let s1 = crate::entities::spec_insert_or_fold(s, e);
    if crate::entities::insertion_folds(s, e) {
        crate::entities::lemma_find_instance_some(s, e.instance_index);
        let j = crate::entities::find_instance(s, e.instance_index)->Some_0;
        assert forall|i: int| 0 <= i < s1.len() implies entity_in_bounds(#[trigger] s1[i]) by {
            if i != j {
                assert(s1[i] == s[i]);
            }
        }
    } else {
        assert forall|i: int| 0 <= i < s1.len() implies entity_in_bounds(#[trigger] s1[i]) by {
            if i < s.len() {
                assert(s1[i] == s[i]);
            }
        }
    }
}

/// The id an insertion returns names a row of the grown store.
proof fn lemma_insert_id_valid(s: Seq<Entity>, e: Entity)
    requires
        crate::entities::entity_ids_sequential(s),
    ensures
        1 <= crate::entities::spec_insert_or_fold_id(s, e) <= crate::entities::spec_insert_or_fold(
            s,
            e,
        ).len(),
{
    if crate::entities::insertion_folds(s, e) {
        crate::entities::lemma_find_instance_some(s, e.instance_index);
    }
}

/// Encodes a discourse: resolves and deduplicates every sentence's
/// triplets, applies the passive-voice correction, folds entities,
/// appends one unit tensor per resolved triplet in chronological
/// order threading the virtual branch/rejoin intervals, and, when the
/// discourse has a title, aggregates the real and virtual hash
/// partitions.  Triplets without a resolvable subject, predicate or
/// object are skipped and recorded.  Refusing the usage policy fails
/// with no result.  The entity store, the event sequence, its
/// virtuality flags and the skipped ids are pinned exactly to
/// `spec_encode`, the sentence-by-sentence fold of the input.
#[verifier::rlimit(100)]
#[verifier::spinoff_prover]
#[verifier::loop_isolation(false)]
pub fn encode_discourse(input: &DiscourseInput, agrees_to_the_creed: bool) -> (r: Result<
    DiscourseEncoding,
    EncodeError,
>)
    requires
        forall|i: int| 0 <= i < input.words@.len() ==> word_in_bounds(#[trigger] input.words@[i]),
        forall|i: int|
            0 <= i < input.sentences@.len() ==> spec_words_of_sentence(
                input.words@,
                (#[trigger] input.sentences@[i]).sentence_id,
            ).len() <= MAX_SENTENCE_WORDS,
        -WORD_COORD_BOUND <= input.discourse.x <= WORD_COORD_BOUND,
        -WORD_COORD_BOUND <= input.discourse.y <= WORD_COORD_BOUND,
        input.sentences@.len() * input.triplets@.len() <= MAX_DISCOURSE_TENSORS,
    ensures
        !agrees_to_the_creed <==> r is Err,
        !agrees_to_the_creed ==> (r matches Err(e) && e == EncodeError::ConsentDenied),
        r matches Ok(enc) ==> {
            &&& enc.entities.entities@ == spec_encode(*input).entities
            &&& enc.events.tensors@ == spec_encode(*input).tensors
            &&& enc.events.flags@ == spec_encode(*input).flags
            &&& enc.skipped_triplets@ == spec_encode(*input).skipped
            &&& enc.entities.wf()
            &&& enc.events.wf()
            &&& enc.events.tensors@.len() <= MAX_DISCOURSE_TENSORS
            &&& forall|i: int| 0 <= i < enc.events.tensors@.len() ==> tensor_in_bounds(
                #[trigger] enc.events.tensors@[i])
            &&& forall|i: int| 0 <= i < enc.events.tensors@.len() ==> tensor_refs_valid(
                #[trigger] enc.events.tensors@[i],
                enc.entities.entities@.len() as int,
                input.discourse.discourse_id,
            )
            &&& forall|i: int| 0 <= i < enc.events.tensors@.len() ==> tensor_has_source(
                #[trigger] enc.events.tensors@[i],
                input.triplets@,
            )
            &&& forall|i: int| 0 <= i < enc.entities.entities@.len() ==> entity_in_bounds(
                #[trigger] enc.entities.entities@[i])
            &&& (input.title@.len() == 0 <==> enc.hash_real is None)
            &&& (input.title@.len() == 0 <==> enc.hash_virtual is None)
            &&& (enc.hash_real matches Some(h) ==> hash_partition_ok(
                (h.0, h.1@),
                enc.events.tensors@,
                intervals_view(enc.events.intervals@),
                enc.entities.entities@,
                input.discourse,
                input.sentences@,
                false,
                HASH_TYPE_REAL,
            ))
            &&& (enc.hash_virtual matches Some(h) ==> hash_partition_ok(
                (h.0, h.1@),
                enc.events.tensors@,
                intervals_view(enc.events.intervals@),
                enc.entities.entities@,
                input.discourse,
                input.sentences@,
                true,
                HASH_TYPE_VIRTUAL,
            ))
        },
{
    if !agrees_to_the_creed {
        return Err(EncodeError::ConsentDenied);
    }
    let mut entities = EntityStore::new();
    let mut graph = EventGraph::new();
    let mut skipped: Vec<i32> = Vec::new();
    let ghost tcount = input.triplets@.len() as int;
    let ghost scount = input.sentences@.len() as int;
    let mut s: usize = 0;
    while s < input.sentences.len()
        invariant
            s <= input.sentences@.len(),
            tcount == input.triplets@.len(),
            scount == input.sentences@.len(),
            scount * tcount <= MAX_DISCOURSE_TENSORS,
            forall|i: int| 0 <= i < input.words@.len() ==> word_in_bounds(
                #[trigger] input.words@[i]),
            forall|i: int|
                0 <= i < input.sentences@.len() ==> spec_words_of_sentence(
                    input.words@,
                    (#[trigger] input.sentences@[i]).sentence_id,
                ).len() <= MAX_SENTENCE_WORDS,
            entities.entities@ == spec_encode_state(*input, s as int).entities,
            graph.tensors@ == spec_encode_state(*input, s as int).tensors,
            graph.flags@ == spec_encode_state(*input, s as int).flags,
            skipped@ == spec_encode_state(*input, s as int).skipped,
            entities.wf(),
            graph.wf(),
            graph.tensors@.len() <= (s as int) * tcount,
            entities.entities@.len() <= 3 * graph.tensors@.len(),
            forall|i: int| 0 <= i < graph.tensors@.len() ==> tensor_in_bounds(
                #[trigger] graph.tensors@[i]),
            forall|i: int| 0 <= i < graph.tensors@.len() ==> tensor_refs_valid(
                #[trigger] graph.tensors@[i],
                entities.entities@.len() as int,
                input.discourse.discourse_id,
            ),
            forall|i: int| 0 <= i < graph.tensors@.len() ==> tensor_has_source(
                #[trigger] graph.tensors@[i],
                input.triplets@,
            ),
            forall|i: int| 0 <= i < entities.entities@.len() ==> entity_in_bounds(
                #[trigger] entities.entities@[i]),
        decreases input.sentences@.len() - s,
    {
        proof {
            lemma_linear_step(s as int, tcount);
            lemma_scale_mono(s as int + 1, scount, tcount);
        }
        let sentence_id = input.sentences[s].sentence_id;
        let sentence_words = select_input_words_by_sentence(&input.words, sentence_id);
        proof {
            assert forall|k: int| 0 <= k < sentence_words@.len() implies word_in_bounds(
                #[trigger] sentence_words@[k]) by {
                let j = choose|j: int|
                    0 <= j < input.words@.len() && input.words@[j] == sentence_words@[k];
            }
        }
        let sentence_triplets = select_input_triplets_by_sentence(&input.triplets, sentence_id);
        let triplets_pruned = prune_triplets(&sentence_triplets);
        let ghost skip0 = skipped@;
        let ghost base_ents = entities.entities@;
        let ghost base_tensors = graph.tensors@;
        let ghost base_flags = graph.flags@;
        // Resolve each pruned triplet's focus words, applying the
        // passive-voice correction; unresolvable triplets are skipped.
        let mut resolved: Vec<(InputTriplet, (usize, usize, usize))> = Vec::new();
        let mut t: usize = 0;
        while t < triplets_pruned.len()
            invariant
                t <= triplets_pruned@.len(),
                resolved@.len() <= t,
                sentence_triplets@ == spec_triplets_of_sentence(input.triplets@, sentence_id),
                pruned_sorted(sentence_triplets@, triplets_pruned@),
                sentence_words@ == spec_words_of_sentence(input.words@, sentence_id),
                triplets_pruned@ == crate::resolver::spec_prune(sentence_triplets@),
                resolved_view(resolved@) == spec_resolved_skipped(
                    triplets_pruned@.take(t as int),
                    input.sections@,
                    input.relations@,
                    input.features@,
                    sentence_words@,
                ).0,
                skipped@ == skip0 + spec_resolved_skipped(
                    triplets_pruned@.take(t as int),
                    input.sections@,
                    input.relations@,
                    input.features@,
                    sentence_words@,
                ).1,
                forall|k: int|
                    0 <= k < resolved@.len() ==> (#[trigger] resolved@[k]).1.0
                        < sentence_words@.len() && resolved@[k].1.1 < sentence_words@.len()
                        && resolved@[k].1.2 < sentence_words@.len(),
                forall|k: int|
                    0 <= k < resolved@.len() ==> (#[trigger] resolved@[k]).0.sentence_id
                        == sentence_id && input.triplets@.contains(resolved@[k].0),
            decreases triplets_pruned@.len() - t,
        {
            let trip = triplets_pruned[t];
            proof {
                assert(first_with_triplet_id(sentence_triplets@, trip.triplet_id) == Some(trip));
                lemma_first_with_triplet_id_contains(sentence_triplets@, trip.triplet_id);
                lemma_triplets_of_sentence_members(input.triplets@, sentence_id);
                let k0 = choose|k0: int|
                    0 <= k0 < sentence_triplets@.len() && sentence_triplets@[k0] == trip;
                assert(trip.sentence_id == sentence_id);
                assert(input.triplets@.contains(trip));
            }
            proof {
                assert(triplets_pruned@.take(t + 1).drop_last() =~= triplets_pruned@.take(
                    t as int,
                ));
                assert(triplets_pruned@.take(t + 1).last() == triplets_pruned@[t as int]);
            }
            match get_subject_predicate_object(
                trip.triplet_id,
                &input.sections,
                &input.relations,
                &input.features,
            ) {
                None => {
                    skipped.push(trip.triplet_id);
                    proof {
                        assert(spec_resolve_one(trip, input.sections@, input.relations@,
                            input.features@, sentence_words@) is None);
                        assert(skipped@ =~= skip0 + spec_resolved_skipped(
                            triplets_pruned@.take(t + 1),
                            input.sections@,
                            input.relations@,
                            input.features@,
                            sentence_words@,
                        ).1);
                    }
                },
                Some(spo) => {
                    // A passive triplet swaps its subject and object.
                    let corrected: (i32, i32, i32) = if trip.is_passive {
                        (spo.2, spo.1, spo.0)
                    } else {
                        spo
                    };
                    let si = word_index(&sentence_words, corrected.0);
                    let pi = word_index(&sentence_words, corrected.1);
                    let oi = word_index(&sentence_words, corrected.2);
                    match (si, pi, oi) {
                        (Some(a), Some(b), Some(c)) => {
                            resolved.push((trip, (a, b, c)));
                            proof {
                                assert(spec_resolve_one(trip, input.sections@, input.relations@,
                                    input.features@, sentence_words@) == Some(
                                    (a as int, b as int, c as int),
                                ));
                                assert(resolved_view(resolved@) =~= spec_resolved_skipped(
                                    triplets_pruned@.take(t + 1),
                                    input.sections@,
                                    input.relations@,
                                    input.features@,
                                    sentence_words@,
                                ).0);
                            }
                        },
                        _ => {
                            skipped.push(trip.triplet_id);
                            proof {
                                assert(spec_resolve_one(trip, input.sections@, input.relations@,
                                    input.features@, sentence_words@) is None);
                                assert(skipped@ =~= skip0 + spec_resolved_skipped(
                                    triplets_pruned@.take(t + 1),
                                    input.sections@,
                                    input.relations@,
                                    input.features@,
                                    sentence_words@,
                                ).1);
                            }
                        },
                    }
                },
            }
            t = t + 1;
        }
        let ghost rs = spec_resolved_skipped(
            triplets_pruned@,
            input.sections@,
            input.relations@,
            input.features@,
            sentence_words@,
        );
        proof {
            assert(triplets_pruned@.take(triplets_pruned@.len() as int) =~= triplets_pruned@);
            assert(resolved_view(resolved@) == rs.0);
            assert(skipped@ == skip0 + rs.1);
        }
        // Per-sentence excitation, keyed to the first resolved subject.
        let subject_word_id: i32 = if resolved.len() > 0 {
            sentence_words[resolved[0].1.0].word_id
        } else {
            -1
        };
        proof {
            if resolved@.len() > 0 {
                assert(rs.0[0] == resolved_view(resolved@)[0]);
            }
            assert(subject_word_id == spec_subject_word_id(sentence_words@, rs.0));
        }
        let excitation = get_excitation(&sentence_words, subject_word_id);
        let ghost ctx = SentenceContext {
            swords: sentence_words@,
            sentence_id,
            sections: input.sections@,
            relations: input.relations@,
            features: input.features@,
            exempts: input.exempt_features@,
            discourse_id: input.discourse.discourse_id,
            excitation: (excitation.x as int, excitation.y as int),
        };
        // Append one event per resolved triplet.
        let mut rix: usize = 0;
        while rix < resolved.len()
            invariant
                rix <= resolved@.len(),
                resolved@.len() <= tcount,
                tcount == input.triplets@.len(),
                scount == input.sentences@.len(),
                scount * tcount <= MAX_DISCOURSE_TENSORS,
                (s as int) < scount,
                forall|k: int|
                    0 <= k < resolved@.len() ==> (#[trigger] resolved@[k]).1.0
                        < sentence_words@.len() && resolved@[k].1.1 < sentence_words@.len()
                        && resolved@[k].1.2 < sentence_words@.len(),
                forall|k: int|
                    0 <= k < resolved@.len() ==> (#[trigger] resolved@[k]).0.sentence_id
                        == sentence_id && input.triplets@.contains(resolved@[k].0),
                forall|k: int| 0 <= k < sentence_words@.len() ==> word_in_bounds(
                    #[trigger] sentence_words@[k]),
                -crate::excitation::EXCITED_BOUND <= excitation.x
                    <= crate::excitation::EXCITED_BOUND,
                -crate::excitation::EXCITED_BOUND <= excitation.y
                    <= crate::excitation::EXCITED_BOUND,
                entities.wf(),
                graph.wf(),
                entities.entities@ == spec_append_all(base_ents, base_tensors, base_flags,
                    resolved_view(resolved@).take(rix as int), ctx).0,
                graph.tensors@ == spec_append_all(base_ents, base_tensors, base_flags,
                    resolved_view(resolved@).take(rix as int), ctx).1,
                graph.flags@ == spec_append_all(base_ents, base_tensors, base_flags,
                    resolved_view(resolved@).take(rix as int), ctx).2,
                graph.tensors@.len() <= (s as int) * tcount + rix,
                entities.entities@.len() <= 3 * graph.tensors@.len(),
                forall|i: int| 0 <= i < graph.tensors@.len() ==> tensor_in_bounds(
                    #[trigger] graph.tensors@[i]),
                forall|i: int| 0 <= i < graph.tensors@.len() ==> tensor_refs_valid(
                    #[trigger] graph.tensors@[i],
                    entities.entities@.len() as int,
                    input.discourse.discourse_id,
                ),
                forall|i: int| 0 <= i < graph.tensors@.len() ==> tensor_has_source(
                    #[trigger] graph.tensors@[i],
                    input.triplets@,
                ),
                forall|i: int| 0 <= i < entities.entities@.len() ==> entity_in_bounds(
                    #[trigger] entities.entities@[i]),
            decreases resolved@.len() - rix,
        {
            proof {
                lemma_linear_step(s as int, tcount);
                lemma_scale_mono(s as int + 1, scount, tcount);
                assert(graph.tensors@.len() < MAX_DISCOURSE_TENSORS);
            }
            let pair = resolved[rix];
            let trip = pair.0;
            let idxs = pair.1;
            let ghost view = resolved_view(resolved@);
            let ghost prev_acc = spec_append_all(base_ents, base_tensors, base_flags,
                view.take(rix as int), ctx);
            proof {
                assert(view.take(rix + 1).drop_last() =~= view.take(rix as int));
                assert(view.take(rix + 1).last() == view[rix as int]);
                assert(view[rix as int] == (trip, (idxs.0 as int, idxs.1 as int, idxs.2 as int)));
            }
            let subject_rank: i128 = excitation.magnitude_squared;
            proof {
                crate::geometry::lemma_abs_mul_bound(
                    sentence_words@[idxs.1 as int].x as int,
                    sentence_words@[idxs.1 as int].y as int,
                    WORD_COORD_BOUND as int,
                );
                crate::geometry::lemma_abs_mul_bound(
                    sentence_words@[idxs.2 as int].x as int,
                    sentence_words@[idxs.2 as int].y as int,
                    WORD_COORD_BOUND as int,
                );
            }
            let predicate_rank: i128 = (sentence_words[idxs.1].x as i128) * (
            sentence_words[idxs.1].y as i128);
            let object_rank: i128 = (sentence_words[idxs.2].x as i128) * (
            sentence_words[idxs.2].y as i128);
            let subject_entity = create_entity(
                &sentence_words[idxs.0],
                subject_rank,
                trip.triplet_id,
                input.discourse.discourse_id,
            );
            let predicate_entity = create_entity(
                &sentence_words[idxs.1],
                predicate_rank,
                trip.triplet_id,
                input.discourse.discourse_id,
            );
            let object_entity = create_entity(
                &sentence_words[idxs.2],
                object_rank,
                trip.triplet_id,
                input.discourse.discourse_id,
            );
            let ghost ents0 = entities.entities@;
            proof {
                lemma_insert_preserves_bounds(entities.entities@, subject_entity);
                lemma_insert_id_valid(entities.entities@, subject_entity);
            }
            let subject_entity_id = entities.insert_or_update_entity(&subject_entity);
            proof {
                lemma_insert_preserves_bounds(entities.entities@, predicate_entity);
                lemma_insert_id_valid(entities.entities@, predicate_entity);
            }
            let predicate_entity_id = entities.insert_or_update_entity(&predicate_entity);
            proof {
                lemma_insert_preserves_bounds(entities.entities@, object_entity);
                lemma_insert_id_valid(entities.entities@, object_entity);
            }
            let object_entity_id = entities.insert_or_update_entity(&object_entity);
            proof {
                assert(entities.entities@.len() <= ents0.len() + 3);
                assert(1 <= subject_entity_id <= entities.entities@.len());
                assert(1 <= predicate_entity_id <= entities.entities@.len());
                assert(1 <= object_entity_id <= entities.entities@.len());
            }
            // Classify the object's location role.
            let location_type = get_location_type(
                &input.features,
                &input.relations,
                sentence_words[idxs.2].word_id,
            );
            let mut where_entity_id: i64 = -1;
            let mut when_entity_id: i64 = -1;
            if location_type == LOCATION_GEOGRAPHIC {
                where_entity_id = object_entity_id;
            } else if location_type == LOCATION_TEMPORAL || location_type
                == LOCATION_TEMPORAL_TERMINATIVE {
                when_entity_id = object_entity_id;
            }
            // Classify virtuality and mood.
            let triplet_features = select_input_features_by_triplet(
                &input.sections,
                &input.features,
                trip.triplet_id,
            );
            let vm = is_virtual(&triplet_features, &input.exempt_features);
            let tensor = crate::events::create_unit_tensor(
                sentence_id,
                input.discourse.discourse_id,
                object_entity_id,
                subject_entity_id,
                where_entity_id,
                when_entity_id,
                predicate_entity_id,
                trip.tense,
                vm.1,
                excitation.x,
                excitation.y,
            );
            let ghost tensors0 = graph.tensors@;
            let _id = graph.append_event(&tensor, vm.0);
            proof {
                let sw = ctx.swords[idxs.0 as int];
                let pw = ctx.swords[idxs.1 as int];
                let ow = ctx.swords[idxs.2 as int];
                crate::geometry::lemma_abs_square_bound(
                    excitation.x as int,
                    crate::excitation::EXCITED_BOUND as int,
                );
                crate::geometry::lemma_abs_square_bound(
                    excitation.y as int,
                    crate::excitation::EXCITED_BOUND as int,
                );
                assert(subject_entity.rank == (ctx.excitation.0 * ctx.excitation.0
                    + ctx.excitation.1 * ctx.excitation.1) as i128);
                assert(predicate_entity.rank == (pw.x * pw.y) as i128);
                assert(object_entity.rank == (ow.x * ow.y) as i128);
                assert(subject_entity == spec_entity_row(
                    sw,
                    ctx.excitation.0 * ctx.excitation.0 + ctx.excitation.1 * ctx.excitation.1,
                    trip.triplet_id,
                    ctx.discourse_id,
                ));
                assert(predicate_entity == spec_entity_row(pw, pw.x * pw.y, trip.triplet_id,
                    ctx.discourse_id));
                assert(object_entity == spec_entity_row(ow, ow.x * ow.y, trip.triplet_id,
                    ctx.discourse_id));
                assert(triplet_features@ == crate::resolver::gather_word_features(
                    crate::resolver::triplet_section_words(ctx.sections, trip.triplet_id),
                    ctx.features,
                ));
                assert(vm == spec_mood_of(ctx.sections, ctx.features, ctx.exempts,
                    trip.triplet_id));
                assert(location_type == crate::virtuality::spec_location_type(ctx.features,
                    ctx.relations, ow.word_id));
                assert(entities.entities@ =~= spec_append_all(base_ents, base_tensors, base_flags,
                    view.take(rix + 1), ctx).0);
                assert(graph.tensors@ =~= spec_append_all(base_ents, base_tensors, base_flags,
                    view.take(rix + 1), ctx).1);
                assert(graph.flags@ =~= spec_append_all(base_ents, base_tensors, base_flags,
                    view.take(rix + 1), ctx).2);
                assert forall|i: int| 0 <= i < graph.tensors@.len() implies tensor_refs_valid(
                    #[trigger] graph.tensors@[i],
                    entities.entities@.len() as int,
                    input.discourse.discourse_id,
                ) by {
                    if i < tensors0.len() {
                        assert(graph.tensors@[i] == tensors0[i]);
                    }
                }
                assert forall|i: int| 0 <= i < graph.tensors@.len() implies tensor_in_bounds(
                    #[trigger] graph.tensors@[i]) by {
                    if i < tensors0.len() {
                        assert(graph.tensors@[i] == tensors0[i]);
                    }
                }
                assert forall|i: int| 0 <= i < graph.tensors@.len() implies tensor_has_source(
                    #[trigger] graph.tensors@[i],
                    input.triplets@,
                ) by {
                    if i < tensors0.len() {
                        assert(graph.tensors@[i] == tensors0[i]);
                    } else {
                        assert(trip.sentence_id == sentence_id && input.triplets@.contains(trip));
                        let j = choose|j: int|
                            0 <= j < input.triplets@.len() && input.triplets@[j] == trip;
                        assert((#[trigger] input.triplets@[j]).sentence_id
                            == graph.tensors@[i].sentence_id && input.triplets@[j].tense
                            == graph.tensors@[i].tense);
                    }
                }
            }
            rix = rix + 1;
        }
        proof {
            let view = resolved_view(resolved@);
            assert(view.take(view.len() as int) =~= view);
            assert(view == rs.0);
            assert(ctx == (SentenceContext {
                swords: spec_words_of_sentence(input.words@, input.sentences@[s as int].sentence_id),
                sentence_id: input.sentences@[s as int].sentence_id,
                sections: input.sections@,
                relations: input.relations@,
                features: input.features@,
                exempts: input.exempt_features@,
                discourse_id: input.discourse.discourse_id,
                excitation: spec_excitation_sum(
                    spec_words_of_sentence(input.words@, input.sentences@[s as int].sentence_id),
                    spec_subject_word_id(
                        spec_words_of_sentence(
                            input.words@,
                            input.sentences@[s as int].sentence_id,
                        ),
                        rs.0,
                    ),
                ),
            }));
            assert(entities.entities@ == spec_encode_state(*input, s as int + 1).entities);
            assert(graph.tensors@ == spec_encode_state(*input, s as int + 1).tensors);
            assert(graph.flags@ == spec_encode_state(*input, s as int + 1).flags);
            assert(skipped@ == spec_encode_state(*input, s as int + 1).skipped);
        }
        s = s + 1;
    }
    proof {
        assert(entities.entities@ == spec_encode(*input).entities);
        assert(graph.tensors@ == spec_encode(*input).tensors);
        assert(graph.flags@ == spec_encode(*input).flags);
        assert(skipped@ == spec_encode(*input).skipped);
    }
    // Vector representation: computed only when the discourse has a
    // title.
    if input.title.len() > 0 {
        let unit_tensors_real = select_unit_tensor(&graph, false);
        let unit_tensors_virtual = select_unit_tensor(&graph, true);
        proof {
            assert forall|i: int| 0 <= i < unit_tensors_real@.len() implies tensor_in_bounds(
                #[trigger] unit_tensors_real@[i]) by {
                assert(graph.tensors@.contains(unit_tensors_real@[i]));
                let j = choose|j: int|
                    0 <= j < graph.tensors@.len() && graph.tensors@[j] == unit_tensors_real@[i];
            }
            assert forall|i: int| 0 <= i < unit_tensors_virtual@.len() implies tensor_in_bounds(
                #[trigger] unit_tensors_virtual@[i]) by {
                assert(graph.tensors@.contains(unit_tensors_virtual@[i]));
                let j = choose|j: int|
                    0 <= j < graph.tensors@.len() && graph.tensors@[j] == unit_tensors_virtual@[i];
            }
            lemma_scale_mono(s as int, scount, tcount);
        }
        let degree_centralities_real = unit_tensor_centrality(&unit_tensors_real, &entities);
        let degree_centralities_virtual = unit_tensor_centrality(&unit_tensors_virtual, &entities);
        let hash_real = get_hash_raw(
            &input.discourse,
            &degree_centralities_real,
            &unit_tensors_real,
            &input.sentences,
            &entities,
            HASH_TYPE_REAL,
        );
        let hash_virtual = get_hash_raw(
            &input.discourse,
            &degree_centralities_virtual,
            &unit_tensors_virtual,
            &input.sentences,
            &entities,
            HASH_TYPE_VIRTUAL,
        );
        Ok(
            DiscourseEncoding {
                entities,
                events: graph,
                hash_real: Some(hash_real),
                hash_virtual: Some(hash_virtual),
                skipped_triplets: skipped,
            },
        )
    } else {
        Ok(
            DiscourseEncoding {
                entities,
                events: graph,
                hash_real: None,
                hash_virtual: None,
                skipped_triplets: skipped,
            },
        )
    }
}

} // verus!
