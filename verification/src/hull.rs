//! Convex hull layering: gift-wrapping hull extraction, concentric
//! influence layers, and the polygon area of an ordered point set.

use vstd::prelude::*;
use crate::geometry::{
    GRID_BOUND, Point2D, Vector2D, lemma_abs_mul_bound, point_in_grid, point_vec_to_position_vec_2d,
    position_vec_to_point_vec_2d,
};
use crate::excitation::WORD_COORD_BOUND;
use crate::EncodeError;

verus! {

/// The turn of the path p -> q -> r: 0 when the three points are
/// collinear, 1 when the turn is clockwise, 2 when counter-clockwise.
pub open spec fn spec_orientation(p: Point2D, q: Point2D, r: Point2D) -> int {
    let val = (q.y - p.y) * (r.x - q.x) - (q.x - p.x) * (r.y - q.y);
    if val == 0 {
        0
    } else if val > 0 {
        1
    } else {
        2
    }
}

/// Calculates the orientation of three points.
pub fn orientation(p: &Point2D, q: &Point2D, r: &Point2D) -> (o: u8)
    requires
        point_in_grid(*p),
        point_in_grid(*q),
        point_in_grid(*r),
    ensures
        o == spec_orientation(*p, *q, *r),
{
    let a: i128 = q.y as i128 - p.y as i128;
    let b: i128 = r.x as i128 - q.x as i128;
    let c: i128 = q.x as i128 - p.x as i128;
    let d: i128 = r.y as i128 - q.y as i128;
    proof {
        lemma_abs_mul_bound(a as int, b as int, 2 * GRID_BOUND as int);
        lemma_abs_mul_bound(c as int, d as int, 2 * GRID_BOUND as int);
    }
    let val: i128 = a * b - c * d;
    if val == 0 {
        0
    } else if val > 0 {
        1
    } else {
        2
    }
}

/// The point at this index has the smallest x coordinate.
pub open spec fn is_leftmost(points: Seq<Point2D>, l: int) -> bool {
    forall|j: int| 0 <= j < points.len() ==> (#[trigger] points[j]).x >= points[l].x
}

/// First index of the point with the smallest x coordinate.
pub open spec fn spec_leftmost(points: Seq<Point2D>) -> int
    decreases points.len(),
{
    if points.len() <= 1 {
        0
    } else {
        let p = spec_leftmost(points.drop_last());
        let q = if 0 <= p < points.len() {
            p
        } else {
            0int
        };
        if points.last().x < points[q].x {
            points.len() - 1
        } else {
            q
        }
    }
}

/// The scan that picks the next hull vertex after `p`: starting from
/// the candidate `q0`, each of the first `k` points replaces the
/// candidate when the walk p -> point -> candidate turns
/// counter-clockwise.
pub open spec fn spec_scan(points: Seq<Point2D>, p: int, q0: int, k: int) -> int
    decreases k,
{
    if k <= 0 {
        q0
    } else {
        let q = spec_scan(points, p, q0, k - 1);
        if spec_orientation(points[p], points[k - 1], points[q]) == 2 {
            k - 1
        } else {
            q
        }
    }
}

/// The gift-wrapping walk: emit the current vertex, scan for the next
/// one, and continue until the walk closes at the leftmost point or
/// the step budget runs out.
pub open spec fn spec_gift_wrap(points: Seq<Point2D>, p: int, left: int, fuel: nat) -> Seq<Point2D>
    decreases fuel,
{
    if fuel == 0 {
        Seq::empty()
    } else {
        let q = spec_scan(
            points,
            p,
            if p + 1 == points.len() {
                0int
            } else {
                p + 1
            },
            points.len() as int,
        );
        let rest = if q == left || fuel <= 1 {
            Seq::<Point2D>::empty()
        } else {
            spec_gift_wrap(points, q, left, (fuel - 1) as nat)
        };
        seq![points[p]] + rest
    }
}

/// The convex hull a point set wraps to: fewer than three points are
/// their own hull, otherwise the wrapping walk from the leftmost
/// point, budgeted to one step per input point.
pub open spec fn spec_hull(points: Seq<Point2D>) -> Seq<Point2D> {
    if points.len() < 3 {
        points
    } else {
        spec_gift_wrap(points, spec_leftmost(points), spec_leftmost(points), points.len() as nat)
    }
}

/// Calculates the convex hull of a point set by gift wrapping: start
/// at the leftmost point and repeatedly take the point that keeps
/// every other point on one rotational side, until the walk closes.
/// Fewer than three points are their own hull.  The result is pinned
/// exactly to the wrapping walk; every hull point is one of the input
/// points and the walk starts at the leftmost point.
#[verifier::rlimit(100)]
#[verifier::spinoff_prover]
#[verifier::loop_isolation(false)]
pub fn calculate_convex_hull(points: &Vec<Point2D>) -> (r: Vec<Point2D>)
    requires
        forall|i: int| 0 <= i < points@.len() ==> point_in_grid(#[trigger] points@[i]),
    ensures
        r@ == spec_hull(points@),
        points@.len() < 3 ==> r@ == points@,
        points@.len() >= 3 ==> {
            &&& 1 <= r@.len() <= points@.len() + 1
            &&& forall|i: int| 0 <= i < r@.len() ==> points@.contains(#[trigger] r@[i])
            &&& exists|l: int|
                0 <= l < points@.len() && r@[0] == points@[l] && is_leftmost(points@, l)
        },
{
    let n = points.len();
    if n < 3 {
        let mut copy: Vec<Point2D> = Vec::new();
        let mut i: usize = 0;
        while i < n
            invariant
                i <= n,
                n == points@.len(),
                copy@ == points@.take(i as int),
            decreases n - i,
        {
            copy.push(points[i]);
            proof {
                assert(copy@ =~= points@.take(i + 1));
            }
            i = i + 1;
        }
        proof {
            assert(points@.take(n as int) =~= points@);
        }
        return copy;
    }
    // Find the leftmost point.
    let mut left_most_idx: usize = 0;
    let mut min_x: i64 = points[0].x;
    let mut i: usize = 1;
    proof {
        assert(points@.take(1).len() == 1);
        assert(points@.take(1)[0] == points@[0]);
    }
    while i < n
        invariant
            1 <= i <= n,
            n == points@.len(),
            left_most_idx < i,
            left_most_idx as int == spec_leftmost(points@.take(i as int)),
            min_x == points@[left_most_idx as int].x,
            forall|j: int| 0 <= j < i ==> (#[trigger] points@[j]).x >= min_x,
        decreases n - i,
    {
        proof {
            assert(points@.take(i + 1).drop_last() =~= points@.take(i as int));
            assert(points@.take(i + 1).last() == points@[i as int]);
        }
        if points[i].x < min_x {
            min_x = points[i].x;
            left_most_idx = i;
        }
        proof {
            assert(left_most_idx as int == spec_leftmost(points@.take(i + 1)));
        }
        i = i + 1;
    }
    proof {
        assert(points@.take(n as int) =~= points@);
        assert(left_most_idx as int == spec_leftmost(points@));
    }
    // Walk the hull; the walk is bounded so that it always ends, even
    // on degenerate input.
    let ghost total = spec_gift_wrap(points@, left_most_idx as int, left_most_idx as int, n as nat);
    let mut hull: Vec<Point2D> = Vec::new();
    let mut p = left_most_idx;
    let mut fuel: usize = n;
    let mut cont = true;
    while cont
        invariant
            n == points@.len(),
            n >= 3,
            left_most_idx < n,
            is_leftmost(points@, left_most_idx as int),
            forall|k: int| 0 <= k < points@.len() ==> point_in_grid(#[trigger] points@[k]),
            p < n,
            cont ==> fuel >= 1,
            cont ==> hull@.len() + fuel <= n,
            !cont ==> 1 <= hull@.len() <= n + 1,
            total == hull@ + (if cont {
                spec_gift_wrap(points@, p as int, left_most_idx as int, fuel as nat)
            } else {
                Seq::<Point2D>::empty()
            }),
            forall|k: int| 0 <= k < hull@.len() ==> points@.contains(#[trigger] hull@[k]),
            hull@.len() == 0 ==> p == left_most_idx,
            hull@.len() > 0 ==> hull@[0] == points@[left_most_idx as int],
        decreases fuel, (if cont { 1int } else { 0int }),
    {
        proof {
            assert(points@.contains(points@[p as int]));
        }
        let ghost p_entry = p as int;
        let ghost fuel_entry = fuel as nat;
        let ghost hull_entry = hull@;
        hull.push(points[p]);
        let mut q: usize = if p + 1 == n {
            0
        } else {
            p + 1
        };
        let ghost q0 = q as int;
        let mut k: usize = 0;
        while k < n
            invariant
                n == points@.len(),
                p < n,
                q < n,
                q as int == spec_scan(points@, p as int, q0, k as int),
                k <= n,
                forall|m: int| 0 <= m < points@.len() ==> point_in_grid(#[trigger] points@[m]),
            decreases n - k,
        {
            if orientation(&points[p], &points[k], &points[q]) == 2 {
                q = k;
            }
            k = k + 1;
        }
        proof {
            let walk = spec_gift_wrap(points@, p_entry, left_most_idx as int, fuel_entry);
            assert(q as int == spec_scan(points@, p_entry, q0, points@.len() as int));
            if q == left_most_idx || fuel == 1 {
                assert(walk =~= seq![points@[p_entry]]);
                assert(total =~= hull@);
            } else {
                assert(walk =~= seq![points@[p_entry]] + spec_gift_wrap(
                    points@,
                    q as int,
                    left_most_idx as int,
                    (fuel_entry - 1) as nat,
                ));
                assert(total =~= hull@ + spec_gift_wrap(
                    points@,
                    q as int,
                    left_most_idx as int,
                    (fuel_entry - 1) as nat,
                ));
            }
        }
        p = q;
        if p == left_most_idx || fuel == 1 {
            cont = false;
        } else {
            fuel = fuel - 1;
        }
    }
    proof {
        assert(hull@ == total);
        assert(hull@ == spec_hull(points@));
        assert(hull@[0] == points@[left_most_idx as int] && is_leftmost(
            points@,
            left_most_idx as int,
        ));
    }
    hull
}

fn contains_point(v: &Vec<Point2D>, p: Point2D) -> (r: bool)
    ensures
        r == v@.contains(p),
{
    let mut i: usize = 0;
    while i < v.len()
        invariant
            i <= v@.len(),
            forall|k: int| 0 <= k < i ==> (#[trigger] v@[k]) != p,
        decreases v@.len() - i,
    {
        if v[i].x == p.x && v[i].y == p.y {
            proof {
                assert(v@[i as int] == p);
            }
            return true;
        }
        i = i + 1;
    }
    proof {
        if v@.contains(p) {
            let k = choose|k: int| 0 <= k < v@.len() && v@[k] == p;
        }
    }
    false
}

/// A point that is the end of one of the input vectors.
pub open spec fn from_input_ends(input_vectors: Seq<Vector2D>, p: Point2D) -> bool {
    exists|k: int| 0 <= k < input_vectors.len() && (#[trigger] input_vectors[k]).end == p
}

/// The points that remain after ejecting a hull from a point set.
pub open spec fn spec_remaining(points: Seq<Point2D>, hull: Seq<Point2D>) -> Seq<Point2D>
    decreases points.len(),
{
    if points.len() == 0 {
        Seq::empty()
    } else {
        let prev = spec_remaining(points.drop_last(), hull);
        if hull.contains(points.last()) {
            prev
        } else {
            prev.push(points.last())
        }
    }
}

/// The point set the i-th layer is computed from: the input points
/// with the first i hull layers removed.
pub open spec fn spec_points_before_layer(points: Seq<Point2D>, i: int) -> Seq<Point2D>
    decreases i,
{
    if i <= 0 {
        points
    } else {
        let prev = spec_points_before_layer(points, i - 1);
        spec_remaining(prev, spec_hull(prev))
    }
}

/// The end points of the input vectors, in order.
pub open spec fn input_end_points(input_vectors: Seq<Vector2D>) -> Seq<Point2D> {
    input_vectors.map_values(|v: Vector2D| v.end)
}

/// Extracts the contracting set of convex hulls of the input vectors'
/// end points: layer i is the hull of the points left after layers
/// 0 up to i are removed, and layering continues exactly while at
/// least three points remain.  The first layer holds the most
/// influential points, the last the least.
#[verifier::rlimit(100)]
#[verifier::spinoff_prover]
#[verifier::loop_isolation(false)]
pub fn convex_hull_sets(input_vectors: &Vec<Vector2D>, agrees_to_the_creed: bool) -> (r: Result<
    Vec<Vec<Point2D>>,
    EncodeError,
>)
    requires
        forall|i: int| 0 <= i < input_vectors@.len() ==> point_in_grid(
            (#[trigger] input_vectors@[i]).end,
        ),
    ensures
        !agrees_to_the_creed <==> r is Err,
        !agrees_to_the_creed ==> r == Err::<Vec<Vec<Point2D>>, EncodeError>(
            EncodeError::ConsentDenied,
        ),
        r matches Ok(layers) ==> {
            &&& forall|i: int|
                0 <= i < layers@.len() ==> #[trigger] spec_points_before_layer(
                    input_end_points(input_vectors@),
                    i,
                ).len() >= 3
            &&& forall|i: int|
                0 <= i < layers@.len() ==> (#[trigger] layers@[i])@ == spec_hull(
                    spec_points_before_layer(input_end_points(input_vectors@), i),
                )
            &&& spec_points_before_layer(
                input_end_points(input_vectors@),
                layers@.len() as int,
            ).len() < 3
        },
        r matches Ok(layers) ==> forall|i: int, j: int|
            0 <= i < layers@.len() && 0 <= j < (#[trigger] layers@[i])@.len() ==> from_input_ends(
                input_vectors@,
                #[trigger] layers@[i]@[j],
            ),
{
    if !agrees_to_the_creed {
        return Err(EncodeError::ConsentDenied);
    }
    let mut point_vector: Vec<Point2D> = position_vec_to_point_vec_2d(input_vectors);
    let ghost pts0 = input_end_points(input_vectors@);
    proof {
        assert(point_vector@ =~= pts0);
        assert forall|j: int| 0 <= j < point_vector@.len() implies from_input_ends(
            input_vectors@,
            #[trigger] point_vector@[j],
        ) by {
            assert(point_vector@[j] == input_vectors@[j].end);
        }
    }
    let mut convex_hull_vector: Vec<Vec<Point2D>> = Vec::new();
    while point_vector.len() >= 3
        invariant
            point_vector@ == spec_points_before_layer(pts0, convex_hull_vector@.len() as int),
            forall|i: int|
                0 <= i < convex_hull_vector@.len() ==> #[trigger] spec_points_before_layer(
                    pts0,
                    i,
                ).len() >= 3,
            forall|i: int|
                0 <= i < convex_hull_vector@.len() ==> (#[trigger] convex_hull_vector@[i])@
                    == spec_hull(spec_points_before_layer(pts0, i)),
            forall|j: int| 0 <= j < point_vector@.len() ==> point_in_grid(
                #[trigger] point_vector@[j]),
            forall|j: int| 0 <= j < point_vector@.len() ==> from_input_ends(
                input_vectors@,
                #[trigger] point_vector@[j],
            ),
            forall|i: int, j: int|
                0 <= i < convex_hull_vector@.len() && 0 <= j < (
                #[trigger] convex_hull_vector@[i])@.len() ==> from_input_ends(
                    input_vectors@,
                    #[trigger] convex_hull_vector@[i]@[j],
                ),
        decreases point_vector@.len(),
    {
        let convex_hull = calculate_convex_hull(&point_vector);
        let ghost l = choose|l: int|
            0 <= l < point_vector@.len() && convex_hull@[0] == point_vector@[l] && is_leftmost(
                point_vector@,
                l,
            );
        proof {
            assert forall|j: int| 0 <= j < convex_hull@.len() implies from_input_ends(
                input_vectors@,
                #[trigger] convex_hull@[j],
            ) by {
                assert(point_vector@.contains(convex_hull@[j]));
                let k = choose|k: int|
                    0 <= k < point_vector@.len() && point_vector@[k] == convex_hull@[j];
            }
        }
        // Eject the points of the current hull from the point set.
        let mut temp: Vec<Point2D> = Vec::new();
        let mut i: usize = 0;
        while i < point_vector.len()
            invariant
                i <= point_vector@.len(),
                0 <= l < point_vector@.len(),
                convex_hull@.contains(point_vector@[l]),
                temp@.len() <= i,
                i > l ==> temp@.len() < i,
                temp@ == spec_remaining(point_vector@.take(i as int), convex_hull@),
                forall|j: int| 0 <= j < temp@.len() ==> point_vector@.contains(#[trigger] temp@[j]),
            decreases point_vector@.len() - i,
        {
            proof {
                assert(point_vector@.take(i + 1).drop_last() =~= point_vector@.take(i as int));
                assert(point_vector@.take(i + 1).last() == point_vector@[i as int]);
            }
            let pt = point_vector[i];
            if !contains_point(&convex_hull, pt) {
                proof {
                    assert(point_vector@.contains(point_vector@[i as int]));
                }
                temp.push(pt);
            }
            proof {
                if i as int == l {
                    assert(convex_hull@.contains(point_vector@[l]));
                }
            }
            i = i + 1;
        }
        proof {
            assert(point_vector@.take(point_vector@.len() as int) =~= point_vector@);
            assert(temp@ == spec_remaining(point_vector@, convex_hull@));
            assert(convex_hull@ == spec_hull(point_vector@));
        }
        let ghost old_layers = convex_hull_vector@;
        let ghost hull_view = convex_hull@;
        convex_hull_vector.push(convex_hull);
        proof {
            assert(temp@ == spec_points_before_layer(pts0, convex_hull_vector@.len() as int));
            assert forall|i: int| 0 <= i < convex_hull_vector@.len() implies
                #[trigger] spec_points_before_layer(pts0, i).len() >= 3 by {
                if i == old_layers.len() {
                    assert(spec_points_before_layer(pts0, i) == point_vector@);
                }
            }
            assert forall|i: int| 0 <= i < convex_hull_vector@.len() implies (
            #[trigger] convex_hull_vector@[i])@ == spec_hull(
                spec_points_before_layer(pts0, i),
            ) by {
                if i < old_layers.len() {
                    assert(convex_hull_vector@[i] == old_layers[i]);
                } else {
                    assert(i == old_layers.len());
                    assert(convex_hull_vector@[i]@ == hull_view);
                    assert(spec_points_before_layer(pts0, i) == point_vector@);
                }
            }
            assert(temp@.len() < point_vector@.len());
            assert forall|j: int| 0 <= j < temp@.len() implies from_input_ends(
                input_vectors@,
                #[trigger] temp@[j],
            ) by {
                let k = choose|k: int|
                    0 <= k < point_vector@.len() && point_vector@[k] == temp@[j];
            }
            assert forall|j: int| 0 <= j < temp@.len() implies point_in_grid(
                #[trigger] temp@[j]) by {
                let k = choose|k: int|
                    0 <= k < point_vector@.len() && point_vector@[k] == temp@[j];
            }
        }
        point_vector = temp;
    }
    Ok(convex_hull_vector)
}

/// Converts each hull layer into position vectors anchored at the
/// origin, keeping the influence gradient of the layers.
pub fn representative_vector_sets(
    convex_hull_sets: &Vec<Vec<Point2D>>,
    agrees_to_the_creed: bool,
) -> (r: Result<Vec<Vec<Vector2D>>, EncodeError>)
    ensures
        !agrees_to_the_creed <==> r is Err,
        !agrees_to_the_creed ==> r == Err::<Vec<Vec<Vector2D>>, EncodeError>(
            EncodeError::ConsentDenied,
        ),
        r matches Ok(sets) ==> {
            &&& sets@.len() == convex_hull_sets@.len()
            &&& forall|i: int|
                0 <= i < sets@.len() ==> (#[trigger] sets@[i])@.len()
                    == convex_hull_sets@[i]@.len()
            &&& forall|i: int, j: int|
                0 <= i < sets@.len() && 0 <= j < (#[trigger] sets@[i])@.len()
                    ==> #[trigger] sets@[i]@[j] == (Vector2D {
                    start: Point2D { x: 0, y: 0 },
                    end: convex_hull_sets@[i]@[j],
                })
        },
{
    if !agrees_to_the_creed {
        return Err(EncodeError::ConsentDenied);
    }
    let mut result: Vec<Vec<Vector2D>> = Vec::new();
    let mut i: usize = 0;
    while i < convex_hull_sets.len()
        invariant
            i <= convex_hull_sets@.len(),
            result@.len() == i,
            forall|a: int|
                0 <= a < i ==> (#[trigger] result@[a])@.len() == convex_hull_sets@[a]@.len(),
            forall|a: int, j: int|
                0 <= a < i && 0 <= j < (#[trigger] result@[a])@.len()
                    ==> #[trigger] result@[a]@[j] == (Vector2D {
                    start: Point2D { x: 0, y: 0 },
                    end: convex_hull_sets@[a]@[j],
                }),
        decreases convex_hull_sets@.len() - i,
    {
        let vector_vector2d: Vec<Vector2D> = point_vec_to_position_vec_2d(&convex_hull_sets[i]);
        result.push(vector_vector2d);
        i = i + 1;
    }
    Ok(result)
}

/// One shoelace term: the wrap-around successor pairs with point `i`.
pub open spec fn shoelace_term(points: Seq<Point2D>, i: int) -> int {
    let j = if i + 1 == points.len() {
        0int
    } else {
        i + 1
    };
    (points[j].x - points[i].x) * (points[j].y + points[i].y)
}

/// The shoelace sum of the first `n` terms.
pub open spec fn shoelace_sum(points: Seq<Point2D>, n: int) -> int
    decreases n,
{
    if n <= 0 {
        0
    } else {
        shoelace_sum(points, n - 1) + shoelace_term(points, n - 1)
    }
}

/// Twice the area of the polygon described by an ordered point set,
/// by the shoelace formula; a shape of fewer than three points has no
/// area.  Twice the area is returned so that the value stays an exact
/// integer.
pub fn polygon_area_doubled(points: &Vec<Point2D>) -> (r: i128)
    requires
        forall|i: int|
            0 <= i < points@.len() ==> -WORD_COORD_BOUND <= (#[trigger] points@[i]).x
                <= WORD_COORD_BOUND && -WORD_COORD_BOUND <= points@[i].y <= WORD_COORD_BOUND,
        points@.len() <= 1000000,
    ensures
        points@.len() < 3 ==> r == 0,
        points@.len() >= 3 ==> r == (if shoelace_sum(points@, points@.len() as int) >= 0 {
            shoelace_sum(points@, points@.len() as int)
        } else {
            -shoelace_sum(points@, points@.len() as int)
        }),
{
    let n = points.len();
    if n < 3 {
        return 0;
    }
    let mut area: i128 = 0;
    let mut i: usize = 0;
    while i < n
        invariant
            i <= n,
            n == points@.len(),
            3 <= n <= 1000000,
            forall|k: int|
                0 <= k < points@.len() ==> -WORD_COORD_BOUND <= (#[trigger] points@[k]).x
                    <= WORD_COORD_BOUND && -WORD_COORD_BOUND <= points@[k].y <= WORD_COORD_BOUND,
            area == shoelace_sum(points@, i as int),
            bounded_term(area as int, i as int),
        decreases n - i,
    {
        let j: usize = if i + 1 == n {
            0
        } else {
            i + 1
        };
        let dx: i128 = points[j].x as i128 - points[i].x as i128;
        let sy: i128 = points[j].y as i128 + points[i].y as i128;
        proof {
            lemma_abs_mul_bound(dx as int, sy as int, 2 * WORD_COORD_BOUND as int);
            lemma_term_step(i as int);
        }
        area = area + dx * sy;
        i = i + 1;
    }
    proof {
        lemma_term_step(n as int);
    }
    if area >= 0 {
        area
    } else {
        -area
    }
}

/// A shoelace partial sum of `k` terms stays within `k` term bounds.
pub open spec fn bounded_term(v: int, k: int) -> bool {
    -(k * (4 * WORD_COORD_BOUND * WORD_COORD_BOUND)) <= v && v <= k * (4 * WORD_COORD_BOUND
        * WORD_COORD_BOUND)
}

proof fn lemma_term_step(k: int)
    requires
        k >= 0,
    ensures
        (k + 1) * (4 * WORD_COORD_BOUND * WORD_COORD_BOUND) == k * (4 * WORD_COORD_BOUND
            * WORD_COORD_BOUND) + 4 * WORD_COORD_BOUND * WORD_COORD_BOUND,
        k * (4 * WORD_COORD_BOUND * WORD_COORD_BOUND) >= 0,
        k <= 1000000 ==> k * (4 * WORD_COORD_BOUND * WORD_COORD_BOUND) <= 1000000 * (4
            * WORD_COORD_BOUND * WORD_COORD_BOUND),
{
    let c = 4 * WORD_COORD_BOUND as int * WORD_COORD_BOUND as int;
    assert((k + 1) * c == k * c + c && k * c >= 0 && (k <= 1000000 ==> k * c <= 1000000 * c))
        by (nonlinear_arith)
        requires k >= 0 && c >= 0;
}

} // verus!
