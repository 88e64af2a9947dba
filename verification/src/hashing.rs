//! The hash composer: turns ranked entity geometry into the fixed-width
//! delimited fingerprint of a discourse.
//!
//! A hash item carries the ground-state and excited positions of one
//! surviving entity in cartesian form; the polar angle needed for the
//! final token is transcendental and is supplied by the caller already
//! rounded to a whole number of the lean/angle token alphabet.

use vstd::prelude::*;
use vstd::string::StringExecFns;
use crate::geometry::{GRID_BOUND, lemma_abs_square_bound};
use crate::EncodeError;

verus! {

broadcast use vstd::seq_lib::group_to_multiset_ensures;

/// A fingerprint holds exactly this many tokens.
pub const MAX_HASH_TOKENS: usize = 20;

/// Length of the fingerprint: 20 tokens of 9 characters and 19 separators.
pub const FINGERPRINT_CHARS: usize = 199;

/// Hash type of the real partition of a discourse.
pub const HASH_TYPE_REAL: i32 = 1;

/// Hash type of the virtual partition of a discourse.
pub const HASH_TYPE_VIRTUAL: i32 = 2;

/// Normal and excited state of one surviving entity, in cartesian form.
/// The polar form (radius and angle) is derived downstream by the caller
/// that serializes or preformats the item.
#[derive(Debug, Clone, Copy, PartialEq, Eq, Structural)]
pub struct HashItem {
    /// Ground-state position.
    pub x: i64,
    pub y: i64,
    /// 1 = real, 2 = virtual.
    pub hash_type: i32,
    pub discourse_id: i32,
    /// Excited position.
    pub excited_x: i64,
    pub excited_y: i64,
}

/// A hash item whose coordinates stay within the grid bound.
pub open spec fn hash_item_in_grid(h: HashItem) -> bool {
    &&& -GRID_BOUND <= h.x <= GRID_BOUND
    &&& -GRID_BOUND <= h.y <= GRID_BOUND
    &&& -GRID_BOUND <= h.excited_x <= GRID_BOUND
    &&& -GRID_BOUND <= h.excited_y <= GRID_BOUND
}

/// The squared excited radius of a hash item.  The excited radius itself
/// is its square root, so descending order of the squares is descending
/// order of the radii.
pub open spec fn excited_radius_sq(h: HashItem) -> int {
    h.excited_x * h.excited_x + h.excited_y * h.excited_y
}

/// Exact squared excited radius.
pub fn excited_radius_sq_exec(h: &HashItem) -> (r: i128)
    requires
        hash_item_in_grid(*h),
    ensures
        r == excited_radius_sq(*h),
{
    let ex: i128 = h.excited_x as i128;
    let ey: i128 = h.excited_y as i128;
    proof {
        lemma_abs_square_bound(ex as int, GRID_BOUND as int);
        lemma_abs_square_bound(ey as int, GRID_BOUND as int);
    }
    ex * ex + ey * ey
}

/// Descending order by excited radius.
pub open spec fn sorted_desc_by_excited_radius(s: Seq<HashItem>) -> bool {
    forall|i: int, j: int|
        0 <= i <= j < s.len() ==> excited_radius_sq(#[trigger] s[i]) >= excited_radius_sq(#[trigger] s[j])
}

/// Index of the first item carrying the maximal excited radius.
pub open spec fn first_max_radius_index(s: Seq<HashItem>) -> int
    decreases s.len(),
{
    if s.len() <= 1 {
        0
    } else {
        let r = first_max_radius_index(s.skip(1)) + 1;
        if excited_radius_sq(s[0]) >= excited_radius_sq(s[r]) {
            0
        } else {
            r
        }
    }
}

proof fn lemma_first_max_in_range(s: Seq<HashItem>)
    requires
        s.len() > 0,
    ensures
        0 <= first_max_radius_index(s) < s.len(),
    decreases s.len(),
{
    if s.len() > 1 {
        lemma_first_max_in_range(s.skip(1));
    }
}

/// The first index carrying the maximum is characterized by beating
/// everything strictly before it and being beaten by nothing.
proof fn lemma_first_max_is(s: Seq<HashItem>, m: int)
    requires
        0 <= m < s.len(),
        forall|j: int| 0 <= j < m ==> excited_radius_sq(#[trigger] s[j]) < excited_radius_sq(s[m]),
        forall|j: int| 0 <= j < s.len() ==> excited_radius_sq(#[trigger] s[j]) <= excited_radius_sq(
            s[m]),
    ensures
        first_max_radius_index(s) == m,
    decreases s.len(),
{
    if s.len() > 1 {
        lemma_first_max_in_range(s.skip(1));
        let r = first_max_radius_index(s.skip(1)) + 1;
        assert(s.skip(1)[r - 1] == s[r]);
        if m == 0 {
            assert(excited_radius_sq(s[0]) >= excited_radius_sq(s[r]));
        } else {
            assert forall|j: int| 0 <= j < m - 1 implies excited_radius_sq(#[trigger] s.skip(1)[j])
                < excited_radius_sq(s.skip(1)[m - 1]) by {
                assert(s.skip(1)[j] == s[j + 1]);
            }
            assert forall|j: int| 0 <= j < s.skip(1).len() implies excited_radius_sq(
                #[trigger] s.skip(1)[j]) <= excited_radius_sq(s.skip(1)[m - 1]) by {
                assert(s.skip(1)[j] == s[j + 1]);
            }
            lemma_first_max_is(s.skip(1), m - 1);
            assert(!(excited_radius_sq(s[0]) >= excited_radius_sq(s[m])));
        }
    }
}

/// The stable descending sort by excited radius: at each step the
/// first item of maximal radius comes out, so items of equal radius
/// keep their first-seen order.
pub open spec fn spec_sort_hash_desc(s: Seq<HashItem>) -> Seq<HashItem>
    decreases s.len(),
{
    if s.len() == 0 {
        Seq::empty()
    } else {
        let m0 = first_max_radius_index(s);
        let m = if 0 <= m0 < s.len() {
            m0
        } else {
            0int
        };
        seq![s[m]] + spec_sort_hash_desc(s.remove(m))
    }
}

/// Sorts hash items in descending order by excited radius.  The result
/// is pinned exactly: it is the stable selection of the first maximum
/// at each step, so items with equal radii keep their relative order.
pub fn sort_hash_items_desc(input: Vec<HashItem>) -> (r: Vec<HashItem>)
    requires
        forall|i: int| 0 <= i < input@.len() ==> hash_item_in_grid(#[trigger] input@[i]),
    ensures
        r@ == spec_sort_hash_desc(input@),
        r@.len() == input@.len(),
        r@.to_multiset() == input@.to_multiset(),
        sorted_desc_by_excited_radius(r@),
        forall|i: int| 0 <= i < r@.len() ==> hash_item_in_grid(#[trigger] r@[i]),
{
    let mut remaining = input;
    let ghost orig = remaining@;
    let mut result: Vec<HashItem> = Vec::new();
    while remaining.len() > 0
        invariant
            spec_sort_hash_desc(orig) == result@ + spec_sort_hash_desc(remaining@),
            result@.to_multiset().add(remaining@.to_multiset()) == orig.to_multiset(),
            result@.len() + remaining@.len() == orig.len(),
            sorted_desc_by_excited_radius(result@),
            forall|i: int, j: int|
                0 <= i < result@.len() && 0 <= j < remaining@.len()
                    ==> excited_radius_sq(#[trigger] result@[i]) >= excited_radius_sq(
                    #[trigger] remaining@[j]),
            forall|i: int| 0 <= i < result@.len() ==> hash_item_in_grid(#[trigger] result@[i]),
            forall|i: int| 0 <= i < remaining@.len() ==> hash_item_in_grid(#[trigger] remaining@[i]),
        decreases remaining@.len(),
    {
        let mut best: usize = 0;
        let mut k: usize = 1;
        while k < remaining.len()
            invariant
                0 < remaining@.len(),
                best < k <= remaining@.len(),
                forall|j: int|
                    0 <= j < k ==> excited_radius_sq(remaining@[best as int]) >= excited_radius_sq(
                        #[trigger] remaining@[j]),
                forall|j: int|
                    0 <= j < best ==> excited_radius_sq(#[trigger] remaining@[j])
                        < excited_radius_sq(remaining@[best as int]),
                forall|i: int| 0 <= i < remaining@.len() ==> hash_item_in_grid(
                    #[trigger] remaining@[i]),
            decreases remaining@.len() - k,
        {
            if excited_radius_sq_exec(&remaining[k]) > excited_radius_sq_exec(&remaining[best]) {
                best = k;
            }
            k = k + 1;
        }
        let ghost old_result = result@;
        let ghost old_remaining = remaining@;
        proof {
            lemma_first_max_is(old_remaining, best as int);
        }
        let item = remaining.remove(best);
        result.push(item);
        proof {
            assert(old_remaining.contains(item)) by {
                assert(old_remaining[best as int] == item);
            }
            assert(old_remaining.to_multiset().count(item) > 0);
            assert(result@.to_multiset() =~= old_result.to_multiset().insert(item));
            assert(remaining@.to_multiset() =~= old_remaining.to_multiset().remove(item));
            assert(result@.to_multiset().add(remaining@.to_multiset()) =~= orig.to_multiset());
            assert(forall|j: int|
                0 <= j < remaining@.len() ==> excited_radius_sq(item) >= excited_radius_sq(
                    #[trigger] remaining@[j]));
            assert(spec_sort_hash_desc(old_remaining) =~= seq![item] + spec_sort_hash_desc(
                remaining@,
            ));
            assert(result@ + spec_sort_hash_desc(remaining@) =~= old_result + spec_sort_hash_desc(
                old_remaining,
            ));
        }
    }
    proof {
        assert(spec_sort_hash_desc(remaining@) =~= Seq::<HashItem>::empty());
        assert(result@ =~= result@ + spec_sort_hash_desc(remaining@));
    }
    result
}

/// One digit of the token alphabet.
pub open spec fn spec_digit_char(d: int) -> char {
    if d == 0 { '0' }
    else if d == 1 { '1' }
    else if d == 2 { '2' }
    else if d == 3 { '3' }
    else if d == 4 { '4' }
    else if d == 5 { '5' }
    else if d == 6 { '6' }
    else if d == 7 { '7' }
    else if d == 8 { '8' }
    else { '9' }
}

fn digit_str(d: u8) -> (r: &'static str)
    requires
        d <= 9,
    ensures
        r@ =~= seq![spec_digit_char(d as int)],
{
    proof {
        reveal_strlit("0");
        reveal_strlit("1");
        reveal_strlit("2");
        reveal_strlit("3");
        reveal_strlit("4");
        reveal_strlit("5");
        reveal_strlit("6");
        reveal_strlit("7");
        reveal_strlit("8");
        reveal_strlit("9");
    }
    match d {
        0 => "0",
        1 => "1",
        2 => "2",
        3 => "3",
        4 => "4",
        5 => "5",
        6 => "6",
        7 => "7",
        8 => "8",
        _ => "9",
    }
}

/// Holds one hash item in its final form before the fingerprint is
/// rendered: the lean indicators and the apex angles, the angles already
/// rounded to whole numbers.
#[derive(Debug, Clone, Copy, PartialEq, Eq, Structural)]
pub struct HashItemFormatted {
    /// Lean of the ground-state apex angle:
    /// 0 = toward the origin, 1 = no lean, 2 = away from the origin.
    pub right_leaning: u8,
    /// Apex angle of the ground-state triangle, rounded.
    pub upper_angle: u8,
    /// Lean of the excited apex angle.
    pub right_leaning_excited: u8,
    /// Apex angle of the excited triangle, rounded.
    pub upper_angle_excited: u8,
}

/// Token parts that render to a 9-character token: leans are one of the
/// three lean codes, and angles fit in two digits.  Angles of 100 or
/// more are not representable in the fixed token width.
pub open spec fn valid_token_parts(item: HashItemFormatted) -> bool {
    &&& item.right_leaning <= 2
    &&& item.upper_angle <= 99
    &&& item.right_leaning_excited <= 2
    &&& item.upper_angle_excited <= 99
}

/// The 9-character token of one formatted hash item:
/// lean, '!', two angle digits, '!', excited lean, '!', two excited
/// angle digits.
pub open spec fn spec_token(item: HashItemFormatted) -> Seq<char> {
    seq![
        spec_digit_char(item.right_leaning as int),
        '!',
        spec_digit_char(item.upper_angle as int / 10),
        spec_digit_char(item.upper_angle as int % 10),
        '!',
        spec_digit_char(item.right_leaning_excited as int),
        '!',
        spec_digit_char(item.upper_angle_excited as int / 10),
        spec_digit_char(item.upper_angle_excited as int % 10),
    ]
}

/// The sentinel token that pads a fingerprint with fewer than the fixed
/// number of real entities.
pub open spec fn pad_token() -> Seq<char> {
    seq!['#', '!', '#', '#', '!', '#', '!', '#', '#']
}

/// Renders the 9-character token of one formatted hash item.
pub fn format_hash_token(item: &HashItemFormatted) -> (r: String)
    requires
        valid_token_parts(*item),
    ensures
        r@ == spec_token(*item),
        r@.len() == 9,
{
    let mut s = String::new();
    s.append(digit_str(item.right_leaning));
    s.append("!");
    s.append(digit_str(item.upper_angle / 10));
    s.append(digit_str(item.upper_angle % 10));
    s.append("!");
    s.append(digit_str(item.right_leaning_excited));
    s.append("!");
    s.append(digit_str(item.upper_angle_excited / 10));
    s.append(digit_str(item.upper_angle_excited % 10));
    proof {
        reveal_strlit("!");
        assert(s@ =~= spec_token(*item));
    }
    s
}

/// Renders one token per item in order, truncating after `max_rows`
/// tokens and padding with the sentinel token up to `max_rows`.
pub fn round_pad_stringulate(formatted_hash_items: &Vec<HashItemFormatted>, max_rows: usize) -> (r:
    Vec<String>)
    requires
        forall|i: int| 0 <= i < formatted_hash_items@.len() ==> valid_token_parts(
            #[trigger] formatted_hash_items@[i]),
    ensures
        r@.len() == max_rows,
        forall|i: int|
            0 <= i < max_rows && i < formatted_hash_items@.len() ==> #[trigger] r@[i]@ == spec_token(
                formatted_hash_items@[i]),
        forall|i: int|
            formatted_hash_items@.len() <= i < max_rows ==> #[trigger] r@[i]@ == pad_token(),
{
    let mut result: Vec<String> = Vec::new();
    let mut i: usize = 0;
    while i < max_rows
        invariant
            i <= max_rows,
            result@.len() == i,
            forall|j: int| 0 <= j < i && j < formatted_hash_items@.len()
                ==> #[trigger] result@[j]@ == spec_token(formatted_hash_items@[j]),
            forall|j: int| formatted_hash_items@.len() <= j < i ==> #[trigger] result@[j]@ == pad_token(),
            forall|j: int| 0 <= j < formatted_hash_items@.len() ==> valid_token_parts(
                #[trigger] formatted_hash_items@[j]),
        decreases max_rows - i,
    {
        if i < formatted_hash_items.len() {
            result.push(format_hash_token(&formatted_hash_items[i]));
        } else {
            let empty = String::from_str("#!##!#!##");
            proof {
                reveal_strlit("#!##!#!##");
                assert(empty@ =~= pad_token());
            }
            result.push(empty);
        }
        i = i + 1;
    }
    result
}

/// The tokens joined with single `-` separators.
pub open spec fn spec_join(tokens: Seq<Seq<char>>) -> Seq<char>
    decreases tokens.len(),
{
    if tokens.len() == 0 {
        Seq::empty()
    } else if tokens.len() == 1 {
        tokens[0]
    } else {
        spec_join(tokens.drop_last()) + seq!['-'] + tokens.last()
    }
}

/// Joining n tokens of 9 characters each yields 10n - 1 characters.
pub proof fn lemma_join_len(tokens: Seq<Seq<char>>)
    requires
        forall|i: int| 0 <= i < tokens.len() ==> #[trigger] tokens[i].len() == 9,
    ensures
        tokens.len() == 0 ==> spec_join(tokens).len() == 0,
        tokens.len() > 0 ==> spec_join(tokens).len() == 10 * tokens.len() - 1,
    decreases tokens.len(),
{
    if tokens.len() > 1 {
        lemma_join_len(tokens.drop_last());
    }
}

/// The layout of a join of nine-character tokens: the result holds
/// 10n - 1 characters, token i occupies positions 10i through
/// 10i + 8, and a separator stands before each token but the first.
pub proof fn lemma_join_layout(tokens: Seq<Seq<char>>)
    requires
        forall|i: int| 0 <= i < tokens.len() ==> #[trigger] tokens[i].len() == 9,
        tokens.len() >= 1,
    ensures
        spec_join(tokens).len() == 10 * tokens.len() - 1,
        forall|i: int|
            0 <= i < tokens.len() ==> spec_join(tokens).subrange(10 * i, 10 * i + 9)
                == #[trigger] tokens[i],
        forall|i: int| 1 <= i < tokens.len() ==> #[trigger] spec_join(tokens)[10 * i - 1] == '-',
    decreases tokens.len(),
{
    lemma_join_len(tokens);
    let j = spec_join(tokens);
    if tokens.len() == 1 {
        assert(j.subrange(0, 9) =~= tokens[0]);
    } else {
        let prev = tokens.drop_last();
        lemma_join_layout(prev);
        lemma_join_len(prev);
        let jp = spec_join(prev);
        assert forall|i: int| 0 <= i < tokens.len() implies j.subrange(10 * i, 10 * i + 9)
            == #[trigger] tokens[i] by {
            if i < tokens.len() - 1 {
                assert(j.subrange(10 * i, 10 * i + 9) =~= jp.subrange(10 * i, 10 * i + 9));
                assert(jp.subrange(10 * i, 10 * i + 9) == prev[i]);
            } else {
                assert(j.subrange(10 * i, 10 * i + 9) =~= tokens.last());
            }
        }
        assert forall|i: int| 1 <= i < tokens.len() implies #[trigger] j[10 * i - 1] == '-' by {
            if i < tokens.len() - 1 {
                assert(j[10 * i - 1] == jp[10 * i - 1]);
            } else {
                assert(j[10 * i - 1] == '-');
            }
        }
    }
}

/// The fingerprint law: a fingerprint is always exactly 199
/// characters, 20 tokens of 9 characters joined by 19 separators; the
/// first tokens render the items in order and every remaining slot
/// holds the sentinel token.
pub proof fn lemma_fingerprint_structure(items: Seq<HashItemFormatted>)
    ensures
        spec_fingerprint(items).len() == 199,
        forall|i: int|
            0 <= i < MAX_HASH_TOKENS ==> #[trigger] spec_fingerprint(items).subrange(
                10 * i,
                10 * i + 9,
            ) == (if i < items.len() {
                spec_token(items[i])
            } else {
                pad_token()
            }),
        forall|i: int| 1 <= i < MAX_HASH_TOKENS ==> #[trigger] spec_fingerprint(items)[10 * i
            - 1] == '-',
{
    let tokens = spec_fingerprint_tokens(items);
    assert forall|i: int| 0 <= i < tokens.len() implies #[trigger] tokens[i].len() == 9 by {
        if i < items.len() {
            assert(tokens[i] == spec_token(items[i]));
        } else {
            assert(tokens[i] == pad_token());
        }
    }
    lemma_join_layout(tokens);
    assert forall|i: int| 0 <= i < MAX_HASH_TOKENS implies #[trigger] spec_fingerprint(
        items,
    ).subrange(10 * i, 10 * i + 9) == (if i < items.len() {
        spec_token(items[i])
    } else {
        pad_token()
    }) by {
        assert(spec_join(tokens).subrange(10 * i, 10 * i + 9) == tokens[i]);
    }
}

/// The truncation law: the fingerprint of an item list longer than
/// the token count depends on its first `MAX_HASH_TOKENS` items
/// alone, so of a list ranked descending by excited radius only the
/// top twenty are kept.
pub proof fn lemma_fingerprint_truncation(items: Seq<HashItemFormatted>)
    requires
        items.len() >= MAX_HASH_TOKENS,
    ensures
        spec_fingerprint(items) == spec_fingerprint(items.take(MAX_HASH_TOKENS as int)),
{
    assert(spec_fingerprint_tokens(items) =~= spec_fingerprint_tokens(
        items.take(MAX_HASH_TOKENS as int),
    ));
}

fn join_tokens(tokens: &Vec<String>) -> (r: String)
    ensures
        r@ == spec_join(tokens@.map_values(|t: String| t@)),
{
    let ghost views = tokens@.map_values(|t: String| t@);
    let mut out = String::new();
    let mut i: usize = 0;
    while i < tokens.len()
        invariant
            i <= tokens@.len(),
            views == tokens@.map_values(|t: String| t@),
            out@ == spec_join(views.take(i as int)),
        decreases tokens@.len() - i,
    {
        if i > 0 {
            out.append("-");
        }
        out.append(tokens[i].as_str());
        proof {
            reveal_strlit("-");
            assert(views.take(i + 1).drop_last() =~= views.take(i as int));
            assert(views.take(i + 1).last() == views[i as int]);
            if i == 0 {
                assert(out@ =~= spec_join(views.take(1)));
            }
        }
        i = i + 1;
    }
    proof {
        assert(views.take(tokens@.len() as int) =~= views);
    }
    out
}

/// The tokens of a fingerprint: one token per item, in order, truncated
/// and padded to the fixed count.
pub open spec fn spec_fingerprint_tokens(items: Seq<HashItemFormatted>) -> Seq<Seq<char>> {
    Seq::new(
        MAX_HASH_TOKENS as nat,
        |i: int| if i < items.len() { spec_token(items[i]) } else { pad_token() },
    )
}

/// The complete fingerprint of a sequence of formatted hash items.
pub open spec fn spec_fingerprint(items: Seq<HashItemFormatted>) -> Seq<char> {
    spec_join(spec_fingerprint_tokens(items))
}

/// Completes the hash: renders each formatted item as a token, pads or
/// truncates to the fixed token count, and joins with `-`.
/// The result is always exactly 199 characters: 20 tokens of 9
/// characters joined by 19 separators.
pub fn get_hash(formatted_hash_items: &Vec<HashItemFormatted>, agrees_to_the_creed: bool) -> (r:
    Result<String, EncodeError>)
    requires
        forall|i: int| 0 <= i < formatted_hash_items@.len() ==> valid_token_parts(
            #[trigger] formatted_hash_items@[i]),
    ensures
        !agrees_to_the_creed <==> r is Err,
        !agrees_to_the_creed ==> r == Err::<String, EncodeError>(EncodeError::ConsentDenied),
        agrees_to_the_creed ==> (r matches Ok(s) && s@ == spec_fingerprint(formatted_hash_items@)
            && s@.len() == FINGERPRINT_CHARS),
{
    if !agrees_to_the_creed {
        return Err(EncodeError::ConsentDenied);
    }
    let tokens = round_pad_stringulate(formatted_hash_items, MAX_HASH_TOKENS);
    let result = join_tokens(&tokens);
    proof {
        let views = tokens@.map_values(|t: String| t@);
        assert(views =~= spec_fingerprint_tokens(formatted_hash_items@));
        lemma_join_len(spec_fingerprint_tokens(formatted_hash_items@));
    }
    Ok(result)
}

} // verus!
