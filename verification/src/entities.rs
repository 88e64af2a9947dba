//! Entity resolution: discourse-scoped participants with coreference
//! folding.
//!
//! An entity with a positive instance index is a coreference instance;
//! inserting another mention of the same instance folds it onto the
//! existing row.  Anonymous entities (instance index 0) are always
//! inserted fresh and never merged.

use vstd::prelude::*;
use crate::records::InputWord;

verus! {

/// A discourse-scoped semantic participant.
#[derive(Debug, Clone, Copy, PartialEq, Eq, Structural)]
pub struct Entity {
    /// Row id in the store; assigned on insertion, starting at 1.
    pub entity_id: i64,
    /// Coreference instance key; 0 denotes an anonymous entity.
    pub instance_index: i32,
    pub discourse_id: i32,
    pub synset_id: i32,
    pub word_id: i32,
    /// Salience rank: the squared excitation magnitude for a subject,
    /// the coordinate product for a predicate or object.
    pub rank: i128,
    /// Ground-state meaning-grid position.
    pub x: i64,
    pub y: i64,
    /// The triplet that most recently mentioned the entity.
    pub triplet_id: i32,
}

/// Creates a new entity for a focus word, with `entity_id` set to -1
/// until the store assigns one.
pub fn create_entity(word: &InputWord, rank: i128, triplet_id: i32, discourse_id: i32) -> (r:
    Entity)
    ensures
        r.entity_id == -1,
        r.discourse_id == discourse_id,
        r.synset_id == word.synset_id,
        r.instance_index == word.instance_index,
        r.word_id == word.word_id,
        r.rank == rank,
        r.x == word.x,
        r.y == word.y,
        r.triplet_id == triplet_id,
{
    Entity {
        entity_id: -1,
        discourse_id,
        synset_id: word.synset_id,
        instance_index: word.instance_index,
        word_id: word.word_id,
        rank,
        x: word.x,
        y: word.y,
        triplet_id,
    }
}

/// Index of the first entity holding the given positive instance index.
pub open spec fn find_instance(s: Seq<Entity>, instance_index: i32) -> Option<int>
    decreases s.len(),
{
    if s.len() == 0 {
        None
    } else if s[0].instance_index == instance_index {
        Some(0int)
    } else {
        match find_instance(s.skip(1), instance_index) {
            Some(k) => Some(k + 1),
            None => None,
        }
    }
}

/// What remains of an existing row after a new mention folds onto it:
/// the row id and discourse are kept, everything else is overwritten.
pub open spec fn folded_entity(prev: Entity, e: Entity) -> Entity {
    Entity {
        entity_id: prev.entity_id,
        discourse_id: prev.discourse_id,
        instance_index: e.instance_index,
        synset_id: e.synset_id,
        word_id: e.word_id,
        rank: e.rank,
        x: e.x,
        y: e.y,
        triplet_id: e.triplet_id,
    }
}

/// A freshly inserted row: the store assigns id `n + 1` where `n` rows
/// precede it.
pub open spec fn fresh_entity(e: Entity, n: int) -> Entity {
    Entity {
        entity_id: (n + 1) as i64,
        discourse_id: e.discourse_id,
        instance_index: e.instance_index,
        synset_id: e.synset_id,
        word_id: e.word_id,
        rank: e.rank,
        x: e.x,
        y: e.y,
        triplet_id: e.triplet_id,
    }
}

/// Whether an insertion of `e` folds onto an existing row of `s`.
pub open spec fn insertion_folds(s: Seq<Entity>, e: Entity) -> bool {
    e.instance_index > 0 && find_instance(s, e.instance_index) is Some
}

/// The store contents after inserting or folding `e`.
pub open spec fn spec_insert_or_fold(s: Seq<Entity>, e: Entity) -> Seq<Entity> {
    if insertion_folds(s, e) {
        let j = find_instance(s, e.instance_index)->Some_0;
        s.update(j, folded_entity(s[j], e))
    } else {
        s.push(fresh_entity(e, s.len() as int))
    }
}

/// The id that inserting or folding `e` returns.
pub open spec fn spec_insert_or_fold_id(s: Seq<Entity>, e: Entity) -> int {
    if insertion_folds(s, e) {
        s[find_instance(s, e.instance_index)->Some_0].entity_id as int
    } else {
        s.len() as int + 1
    }
}

/// Row ids follow the row positions, starting at 1.
pub open spec fn entity_ids_sequential(s: Seq<Entity>) -> bool {
    forall|i: int| 0 <= i < s.len() ==> #[trigger] s[i].entity_id == i + 1
}

/// The entities of one discourse, created or folded in place and never
/// deleted while the discourse is processed.
#[derive(Debug, Clone)]
pub struct EntityStore {
    pub entities: Vec<Entity>,
}

/// More rows than this would exhaust the id space.
pub const ENTITY_STORE_CAP: usize = 0x7FFF_0000;

impl EntityStore {
    /// The store never deletes rows and ids follow row positions.
    pub open spec fn wf(&self) -> bool {
        entity_ids_sequential(self.entities@) && self.entities@.len() <= ENTITY_STORE_CAP
    }

    pub fn new() -> (r: EntityStore)
        ensures
            r.wf(),
            r.entities@.len() == 0,
    {
        EntityStore { entities: Vec::new() }
    }

    /// Looks up an entity by its row id.
    pub fn get(&self, entity_id: i64) -> (r: Option<Entity>)
        requires
            self.wf(),
        ensures
            (1 <= entity_id <= self.entities@.len()) ==> r == Some(
                self.entities@[entity_id - 1],
            ),
            !(1 <= entity_id <= self.entities@.len()) ==> r is None,
    {
        if entity_id >= 1 && entity_id <= self.entities.len() as i64 {
            Some(self.entities[(entity_id - 1) as usize])
        } else {
            None
        }
    }

    /// Inserts an entity if its instance does not occur in the store,
    /// or folds it onto the existing row if it does.  Returns the id of
    /// the row that now carries the mention.
    pub fn insert_or_update_entity(&mut self, entity: &Entity) -> (r: i64)
        requires
            old(self).wf(),
            old(self).entities@.len() < ENTITY_STORE_CAP,
        ensures
            final(self).wf(),
            final(self).entities@ == spec_insert_or_fold(old(self).entities@, *entity),
            r == spec_insert_or_fold_id(old(self).entities@, *entity),
    {
        let ghost s = self.entities@;
        if entity.instance_index > 0 {
            let mut j: usize = 0;
            while j < self.entities.len()
                invariant
                    j <= self.entities@.len(),
                    self.entities@ == s,
                    s == old(self).entities@,
                    entity_ids_sequential(s),
                    s.len() <= ENTITY_STORE_CAP,
                    entity.instance_index > 0,
                    forall|k: int| 0 <= k < j ==> #[trigger] s[k].instance_index
                        != entity.instance_index,
                decreases self.entities@.len() - j,
            {
                if self.entities[j].instance_index == entity.instance_index {
                    proof {
                        lemma_find_instance_first(s, entity.instance_index, j as int);
                    }
                    let prev = self.entities[j];
                    let updated = Entity {
                        entity_id: prev.entity_id,
                        discourse_id: prev.discourse_id,
                        instance_index: entity.instance_index,
                        synset_id: entity.synset_id,
                        word_id: entity.word_id,
                        rank: entity.rank,
                        x: entity.x,
                        y: entity.y,
                        triplet_id: entity.triplet_id,
                    };
                    self.entities.set(j, updated);
                    proof {
                        assert(self.entities@ =~= s.update(
                            j as int,
                            folded_entity(s[j as int], *entity),
                        ));
                        assert(self.entities@ == spec_insert_or_fold(s, *entity));
                        assert forall|i: int| 0 <= i < self.entities@.len() implies
                            #[trigger] self.entities@[i].entity_id == i + 1 by {
                            if i != j as int {
                                assert(self.entities@[i] == s[i]);
                            }
                        }
                    }
                    return prev.entity_id;
                }
                j = j + 1;
            }
            proof {
                lemma_find_instance_none(s, entity.instance_index);
            }
        }
        let id: i64 = self.entities.len() as i64 + 1;
        let fresh = Entity {
            entity_id: id,
            discourse_id: entity.discourse_id,
            instance_index: entity.instance_index,
            synset_id: entity.synset_id,
            word_id: entity.word_id,
            rank: entity.rank,
            x: entity.x,
            y: entity.y,
            triplet_id: entity.triplet_id,
        };
        self.entities.push(fresh);
        id
    }
}

/// If no index before `j` matches and `s[j]` matches, then `j` is the
/// first match.
proof fn lemma_find_instance_first(s: Seq<Entity>, instance_index: i32, j: int)
    requires
        0 <= j < s.len(),
        s[j].instance_index == instance_index,
        forall|k: int| 0 <= k < j ==> #[trigger] s[k].instance_index != instance_index,
    ensures
        find_instance(s, instance_index) == Some(j),
    decreases j,
{
    if j == 0 {
    } else {
        lemma_find_instance_first(s.skip(1), instance_index, j - 1);
    }
}

/// If no index matches, the search finds nothing.
proof fn lemma_find_instance_none(s: Seq<Entity>, instance_index: i32)
    requires
        forall|k: int| 0 <= k < s.len() ==> #[trigger] s[k].instance_index != instance_index,
    ensures
        find_instance(s, instance_index) is None,
    decreases s.len(),
{
    if s.len() > 0 {
        lemma_find_instance_none(s.skip(1), instance_index);
    }
}

/// If the search finds nothing, no index matches.
proof fn lemma_find_instance_none_inv(s: Seq<Entity>, instance_index: i32)
    requires
        find_instance(s, instance_index) is None,
    ensures
        forall|k: int| 0 <= k < s.len() ==> #[trigger] s[k].instance_index != instance_index,
    decreases s.len(),
{
    if s.len() > 0 {
        lemma_find_instance_none_inv(s.skip(1), instance_index);
        assert forall|k: int| 0 <= k < s.len() implies #[trigger] s[k].instance_index
            != instance_index by {
            if k > 0 {
                assert(s.skip(1)[k - 1] == s[k]);
            }
        }
    }
}

/// A found index is a match, and the first one.
pub proof fn lemma_find_instance_some(s: Seq<Entity>, instance_index: i32)
    requires
        find_instance(s, instance_index) is Some,
    ensures
        0 <= find_instance(s, instance_index)->Some_0 < s.len(),
        s[find_instance(s, instance_index)->Some_0].instance_index == instance_index,
        forall|k: int| 0 <= k < find_instance(s, instance_index)->Some_0
            ==> #[trigger] s[k].instance_index != instance_index,
    decreases s.len(),
{
    if s.len() > 0 && s[0].instance_index != instance_index {
        lemma_find_instance_some(s.skip(1), instance_index);
        assert forall|k: int| 0 <= k < find_instance(s, instance_index)->Some_0 implies
            #[trigger] s[k].instance_index != instance_index by {
            if k > 0 {
                assert(s.skip(1)[k - 1] == s[k]);
            }
        }
    }
}

/// Folding or inserting a coreferenced mention twice resolves to the
/// same row id both times: re-encoding a discourse with unchanged
/// instance data folds entities to the ids the first encoding created.
pub proof fn lemma_insert_or_fold_idempotent(s: Seq<Entity>, e: Entity)
    requires
        entity_ids_sequential(s),
        s.len() < ENTITY_STORE_CAP,
        e.instance_index > 0,
    ensures
        spec_insert_or_fold_id(spec_insert_or_fold(s, e), e) == spec_insert_or_fold_id(s, e),
        spec_insert_or_fold(spec_insert_or_fold(s, e), e) == spec_insert_or_fold(s, e),
{
    let s1 = spec_insert_or_fold(s, e);
    if insertion_folds(s, e) {
        let j = find_instance(s, e.instance_index)->Some_0;
        lemma_find_instance_some(s, e.instance_index);
        assert(forall|k: int| 0 <= k < j ==> #[trigger] s1[k].instance_index != e.instance_index);
        assert(s1[j].instance_index == e.instance_index);
        lemma_find_instance_first(s1, e.instance_index, j);
        assert(s1[j].entity_id == s[j].entity_id);
        assert(spec_insert_or_fold(s1, e) =~= s1);
    } else {
        lemma_find_instance_none_inv(s, e.instance_index);
        assert(forall|k: int| 0 <= k < s.len() ==> #[trigger] s1[k].instance_index
            != e.instance_index);
        assert(s1[s.len() as int].instance_index == e.instance_index);
        lemma_find_instance_first(s1, e.instance_index, s.len() as int);
        assert(s1[s.len() as int].entity_id == s.len() + 1);
        assert(folded_entity(s1[s.len() as int], e) == s1[s.len() as int]);
        assert(spec_insert_or_fold(s1, e) =~= s1);
    }
}

} // verus!
