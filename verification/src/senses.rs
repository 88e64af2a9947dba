//! New word senses: positions for words that do not yet exist on the
//! meaning grid, computed from the position vectors of their
//! definitions under an existing hypernym sense.

use vstd::prelude::*;
use crate::EncodeError;
use crate::excitation::{word_in_bounds, MAX_SENTENCE_WORDS, WORD_COORD_BOUND};
use crate::geometry::Point2D;
use crate::records::{InputNewWordDef, InputWord, MeaningGridItem};

verus! {

/// The first meaning-grid entry carrying the given sense id.
pub open spec fn find_grid_item(grid: Seq<MeaningGridItem>, synset_id: i32) -> Option<
    MeaningGridItem,
>
    decreases grid.len(),
{
    if grid.len() == 0 {
        None
    } else if grid[0].synset_id == synset_id {
        Some(grid[0])
    } else {
        find_grid_item(grid.skip(1), synset_id)
    }
}

/// The vector sum of the definition's word positions, leaving out the
/// word being defined (matched by its lemma).
pub open spec fn spec_definition_sum(
    words: Seq<InputWord>,
    new_word_id: i32,
    lexeme: Seq<char>,
) -> (int, int)
    decreases words.len(),
{
    if words.len() == 0 {
        (0, 0)
    } else {
        let prev = spec_definition_sum(words.drop_last(), new_word_id, lexeme);
        let w = words.last();
        if w.new_word_id == new_word_id && w.lexeme@ != lexeme {
            (prev.0 + w.x, prev.1 + w.y)
        } else {
            prev
        }
    }
}

/// A fifth of a value, rounded toward zero.
pub open spec fn fifth_toward_zero(a: int) -> int {
    if a >= 0 {
        a / 5
    } else {
        -((-a) / 5)
    }
}

/// The grid position of one new sense: the hypernym anchors four
/// fifths of the x space, so the definition's resultant contributes a
/// fifth of its x alongside its full y, both displaced to the
/// hypernym's position.
pub open spec fn spec_new_sense(
    new_word: InputNewWordDef,
    words: Seq<InputWord>,
    isa: MeaningGridItem,
) -> Point2D {
    let s = spec_definition_sum(words, new_word.new_word_id, new_word.lexeme@);
    Point2D { x: (isa.x + fifth_toward_zero(s.0)) as i64, y: (isa.y + s.1) as i64 }
}

/// Every requested hypernym stands on the grid.
pub open spec fn all_hypernyms_on_grid(
    new_words: Seq<InputNewWordDef>,
    grid: Seq<MeaningGridItem>,
) -> bool {
    forall|i: int|
        0 <= i < new_words.len() ==> find_grid_item(
            grid,
            (#[trigger] new_words[i]).hypernym_synset_id,
        ) is Some
}

fn find_grid_item_exec(grid: &Vec<MeaningGridItem>, synset_id: i32) -> (r: Option<MeaningGridItem>)
    ensures
        r == find_grid_item(grid@, synset_id),
{
    let mut i: usize = 0;
    proof {
        assert(grid@.skip(0) =~= grid@);
    }
    while i < grid.len()
        invariant
            i <= grid@.len(),
            find_grid_item(grid@, synset_id) == find_grid_item(grid@.skip(i as int), synset_id),
        decreases grid@.len() - i,
    {
        proof {
            assert(grid@.skip(i as int)[0] == grid@[i as int]);
            assert(grid@.skip(i as int).skip(1) =~= grid@.skip(i + 1));
        }
        if grid[i].synset_id == synset_id {
            return Some(grid[i]);
        }
        i = i + 1;
    }
    proof {
        assert(grid@.skip(grid@.len() as int) =~= Seq::<MeaningGridItem>::empty());
    }
    None
}

fn definition_sum(definition_words: &Vec<InputWord>, new_word_id: i32, lexeme: &String) -> (r: (
    i64,
    i64,
))
    requires
        forall|i: int| 0 <= i < definition_words@.len() ==> word_in_bounds(
            #[trigger] definition_words@[i]),
        definition_words@.len() <= MAX_SENTENCE_WORDS,
    ensures
        r.0 == spec_definition_sum(definition_words@, new_word_id, lexeme@).0,
        r.1 == spec_definition_sum(definition_words@, new_word_id, lexeme@).1,
        -(MAX_SENTENCE_WORDS as int) * WORD_COORD_BOUND <= r.0 <= (MAX_SENTENCE_WORDS as int)
            * WORD_COORD_BOUND,
        -(MAX_SENTENCE_WORDS as int) * WORD_COORD_BOUND <= r.1 <= (MAX_SENTENCE_WORDS as int)
            * WORD_COORD_BOUND,
{
    let mut x: i64 = 0;
    let mut y: i64 = 0;
    let mut i: usize = 0;
    while i < definition_words.len()
        invariant
            i <= definition_words@.len(),
            definition_words@.len() <= MAX_SENTENCE_WORDS,
            forall|k: int| 0 <= k < definition_words@.len() ==> word_in_bounds(
                #[trigger] definition_words@[k]),
            x == spec_definition_sum(definition_words@.take(i as int), new_word_id, lexeme@).0,
            y == spec_definition_sum(definition_words@.take(i as int), new_word_id, lexeme@).1,
            -(i as int) * WORD_COORD_BOUND <= x <= (i as int) * WORD_COORD_BOUND,
            -(i as int) * WORD_COORD_BOUND <= y <= (i as int) * WORD_COORD_BOUND,
        decreases definition_words@.len() - i,
    {
        let w = &definition_words[i];
        proof {
            assert(definition_words@.take(i + 1).drop_last() =~= definition_words@.take(i as int));
            assert(definition_words@.take(i + 1).last() == definition_words@[i as int]);
        }
        if w.new_word_id == new_word_id && !(w.lexeme == *lexeme) {
            x = x + w.x;
            y = y + w.y;
        }
        i = i + 1;
    }
    proof {
        assert(definition_words@.take(definition_words@.len() as int) =~= definition_words@);
    }
    (x, y)
}

/// Computes grid positions for a batch of words that do not yet exist
/// on the meaning grid.  Each definition's position vectors are
/// summed, leaving out the word being defined; the x component is
/// scaled to the fifth of the space the hypernym leaves free and the
/// resultant is displaced to the hypernym's position.  Succeeds
/// exactly when the caller affirms the policy and every hypernym
/// stands on the grid; a missing hypernym is a record-store failure.
pub fn batch_define_new_word_sense(
    new_word_vec: &Vec<InputNewWordDef>,
    definition_words: &Vec<InputWord>,
    meaning_grid: &Vec<MeaningGridItem>,
    agrees_to_the_creed: bool,
) -> (r: Result<Vec<(i32, Point2D)>, EncodeError>)
    requires
        forall|i: int| 0 <= i < definition_words@.len() ==> word_in_bounds(
            #[trigger] definition_words@[i]),
        definition_words@.len() <= MAX_SENTENCE_WORDS,
        forall|i: int|
            0 <= i < meaning_grid@.len() ==> -WORD_COORD_BOUND <= (
            #[trigger] meaning_grid@[i]).x <= WORD_COORD_BOUND && -WORD_COORD_BOUND
                <= meaning_grid@[i].y <= WORD_COORD_BOUND,
    ensures
        !agrees_to_the_creed <==> r == Err::<Vec<(i32, Point2D)>, EncodeError>(
            EncodeError::ConsentDenied,
        ),
        (agrees_to_the_creed && all_hypernyms_on_grid(new_word_vec@, meaning_grid@)) <==> r is Ok,
        agrees_to_the_creed && !all_hypernyms_on_grid(new_word_vec@, meaning_grid@) ==> r
            == Err::<Vec<(i32, Point2D)>, EncodeError>(EncodeError::CollaboratorFailure),
        r matches Ok(coords) ==> {
            &&& coords@.len() == new_word_vec@.len()
            &&& forall|i: int|
                0 <= i < coords@.len() ==> #[trigger] coords@[i] == (
                    new_word_vec@[i].new_word_id,
                    spec_new_sense(
                        new_word_vec@[i],
                        definition_words@,
                        find_grid_item(
                            meaning_grid@,
                            new_word_vec@[i].hypernym_synset_id,
                        )->Some_0,
                    ),
                )
        },
{
    if !agrees_to_the_creed {
        return Err(EncodeError::ConsentDenied);
    }
    let mut result: Vec<(i32, Point2D)> = Vec::new();
    let mut i: usize = 0;
    while i < new_word_vec.len()
        invariant
            agrees_to_the_creed,
            i <= new_word_vec@.len(),
            forall|i0: int| 0 <= i0 < definition_words@.len() ==> word_in_bounds(
                #[trigger] definition_words@[i0]),
            definition_words@.len() <= MAX_SENTENCE_WORDS,
            forall|i0: int|
                0 <= i0 < meaning_grid@.len() ==> -WORD_COORD_BOUND <= (
                #[trigger] meaning_grid@[i0]).x <= WORD_COORD_BOUND && -WORD_COORD_BOUND
                    <= meaning_grid@[i0].y <= WORD_COORD_BOUND,
            result@.len() == i,
            forall|k: int|
                0 <= k < i ==> find_grid_item(
                    meaning_grid@,
                    (#[trigger] new_word_vec@[k]).hypernym_synset_id,
                ) is Some,
            forall|k: int|
                0 <= k < i ==> #[trigger] result@[k] == (
                    new_word_vec@[k].new_word_id,
                    spec_new_sense(
                        new_word_vec@[k],
                        definition_words@,
                        find_grid_item(
                            meaning_grid@,
                            new_word_vec@[k].hypernym_synset_id,
                        )->Some_0,
                    ),
                ),
        decreases new_word_vec@.len() - i,
    {
        let new_word = &new_word_vec[i];
        let isa = match find_grid_item_exec(meaning_grid, new_word.hypernym_synset_id) {
            Some(item) => item,
            None => {
                proof {
                    assert(find_grid_item(
                        meaning_grid@,
                        new_word_vec@[i as int].hypernym_synset_id,
                    ) is None);
                }
                return Err(EncodeError::CollaboratorFailure);
            },
        };
        proof {
            lemma_grid_item_bounded(meaning_grid@, new_word.hypernym_synset_id);
        }
        let s = definition_sum(definition_words, new_word.new_word_id, &new_word.lexeme);
        let adjusted_x: i64 = if s.0 >= 0 {
            s.0 / 5
        } else {
            -((-s.0) / 5)
        };
        let end = Point2D { x: isa.x + adjusted_x, y: isa.y + s.1 };
        result.push((new_word.new_word_id, end));
        i = i + 1;
    }
    Ok(result)
}

/// A found grid entry keeps the grid's coordinate bound.
proof fn lemma_grid_item_bounded(grid: Seq<MeaningGridItem>, synset_id: i32)
    requires
        forall|i: int|
            0 <= i < grid.len() ==> -WORD_COORD_BOUND <= (#[trigger] grid[i]).x
                <= WORD_COORD_BOUND && -WORD_COORD_BOUND <= grid[i].y <= WORD_COORD_BOUND,
        find_grid_item(grid, synset_id) is Some,
    ensures
        -WORD_COORD_BOUND <= find_grid_item(grid, synset_id)->Some_0.x <= WORD_COORD_BOUND,
        -WORD_COORD_BOUND <= find_grid_item(grid, synset_id)->Some_0.y <= WORD_COORD_BOUND,
    decreases grid.len(),
{
    if grid.len() > 0 && grid[0].synset_id != synset_id {
        assert forall|i: int| 0 <= i < grid.skip(1).len() implies -WORD_COORD_BOUND <= (
        #[trigger] grid.skip(1)[i]).x <= WORD_COORD_BOUND && -WORD_COORD_BOUND <= grid.skip(
            1,
        )[i].y <= WORD_COORD_BOUND by {
            assert(grid.skip(1)[i] == grid[i + 1]);
        }
        lemma_grid_item_bounded(grid.skip(1), synset_id);
    }
}

} // verus!
