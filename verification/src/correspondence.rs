//! Matching the points of two polygons that differ in their number of points.
//!
//! To morph a polygon of `m` points into one of `n >= m` points, the shorter one
//! gets `n - m` further points on its edges, and the longer one is put in the
//! order in which its points were matched. Both polygons are first moved so that
//! the top left corner of the box around each lies at zero.
//!
//! 1. Each point of the shorter polygon, in order, claims the nearest point of
//!    the longer one that is still free. These pairs are the anchors.
//! 2. Each point of the longer polygon that stays free goes to the edge of the
//!    shorter polygon that is nearest to it, and is paired with the point of
//!    that edge nearest to it.
//! 3. The pairs are listed edge by edge: the anchor at the start of the edge,
//!    then the pairs of that edge in the order of the longer polygon.

use vstd::multiset::Multiset;
use vstd::prelude::*;
use crate::error::Error;
use crate::units::{interpolate, lemma_lerp_bounds, lerp, FULL};
use crate::geometry::{
    cast_to_line, closest_point, fits_point, leftmost, lemma_nearest,
    lemma_project_between, moved, nearest, project, reachable, top_left, topmost, translate_points,
    translated, Point, Vector, Wide,
};

verus! {

/// The points of a polygon moved so that the top left corner of the box around
/// them lies at zero.
pub open spec fn aligned(points: Seq<Point>) -> Seq<Vector> {
    translated(points, Vector { x: leftmost(points), y: topmost(points) })
}

/// The state of the claiming: the points of the longer polygon that were claimed,
/// in the order of the claims, and those still free, in their own order; both by
/// their position in the longer polygon.
pub struct Claims {
    pub claimed: Seq<int>,
    pub free: Seq<int>,
}

/// The positions of the points of `longer` named by `indices`.
pub open spec fn positions(longer: Seq<Vector>, indices: Seq<int>) -> Seq<Vector> {
    Seq::new(indices.len(), |t: int| longer[indices[t]])
}

/// The claims after the first `k` points of `short` have each claimed the
/// nearest free point of `longer`.
pub open spec fn claims(short: Seq<Vector>, longer: Seq<Vector>, k: int) -> Claims
    decreases k,
{
    if k <= 0 {
        Claims { claimed: Seq::empty(), free: Seq::new(longer.len(), |i: int| i) }
    } else {
        let before = claims(short, longer, k - 1);
        let j = nearest(short[k - 1], positions(longer, before.free));
        Claims { claimed: before.claimed.push(before.free[j]), free: before.free.remove(j) }
    }
}

/// The point of edge `i` of `short` nearest to `q`. Edge `i` runs from point `i`
/// to the next point, the last edge back to the first point.
pub open spec fn edge_foot(short: Seq<Vector>, i: int, q: Vector) -> Vector {
    project(short[i], short[(i + 1) % (short.len() as int)], q)
}

/// For each edge of `short`, its point nearest to `q`.
pub open spec fn edge_feet(short: Seq<Vector>, q: Vector) -> Seq<Vector> {
    Seq::new(short.len(), |i: int| edge_foot(short, i, q))
}

/// The edge of `short` nearest to `q`, the first of them where several are as near.
pub open spec fn nearest_edge(short: Seq<Vector>, q: Vector) -> int {
    nearest(q, edge_feet(short, q))
}

/// A pair of matched points: a point of the longer polygon, by its position in
/// it, and the place on the shorter polygon that corresponds to it.
pub struct Match {
    pub index: int,
    pub place: Vector,
}

/// The pairs of edge `i`: of the points named by `free`, in order, those whose
/// nearest edge is `i`, each with the point of that edge nearest to it.
pub open spec fn edge_matches(short: Seq<Vector>, longer: Seq<Vector>, free: Seq<int>, i: int) -> Seq<
    Match,
>
    decreases free.len(),
{
    if free.len() == 0 {
        Seq::empty()
    } else {
        let before = edge_matches(short, longer, free.drop_last(), i);
        let q = longer[free.last()];
        if nearest_edge(short, q) == i {
            before.push(Match { index: free.last(), place: edge_foot(short, i, q) })
        } else {
            before
        }
    }
}

/// The pairs of the first `k` edges: for each edge its anchor, then its pairs.
pub open spec fn matches_upto(short: Seq<Vector>, longer: Seq<Vector>, k: int) -> Seq<Match>
    decreases k,
{
    if k <= 0 {
        Seq::empty()
    } else {
        let all = claims(short, longer, short.len() as int);
        matches_upto(short, longer, k - 1).push(
            Match { index: all.claimed[k - 1], place: short[k - 1] },
        ) + edge_matches(short, longer, all.free, k - 1)
    }
}

/// All pairs of two polygons whose top left corners lie at zero.
pub open spec fn all_matches(short: Seq<Vector>, longer: Seq<Vector>) -> Seq<Match> {
    matches_upto(short, longer, short.len() as int)
}

/// The point with the coordinates of `v`.
pub open spec fn as_point(v: Vector) -> Point {
    Point { x: v.x as i32, y: v.y as i32 }
}

/// The shorter polygon with its added points: the place of each pair, moved
/// back to where the shorter polygon lies.
pub open spec fn filled(short: Seq<Point>, longer: Seq<Point>) -> Seq<Point> {
    let pairs = all_matches(aligned(short), aligned(longer));
    Seq::new(pairs.len(), |t: int| as_point(moved(pairs[t].place, leftmost(short), topmost(short))))
}

/// The longer polygon in the order of the pairs.
pub open spec fn reordered(short: Seq<Point>, longer: Seq<Point>) -> Seq<Point> {
    let pairs = all_matches(aligned(short), aligned(longer));
    Seq::new(pairs.len(), |t: int| longer[pairs[t].index])
}

/// Claiming takes one point from the free ones at each step.
pub proof fn lemma_claims_len(short: Seq<Vector>, longer: Seq<Vector>, k: int)
    requires
        0 <= k <= longer.len(),
    ensures
        claims(short, longer, k).claimed.len() == k,
        claims(short, longer, k).free.len() == longer.len() - k,
        forall|t: int|
            0 <= t < claims(short, longer, k).free.len() ==> 0 <= #[trigger] claims(
                short,
                longer,
                k,
            ).free[t] < longer.len(),
        forall|t: int|
            0 <= t < k ==> 0 <= #[trigger] claims(short, longer, k).claimed[t] < longer.len(),
    decreases k,
{
    if k > 0 {
        lemma_claims_len(short, longer, k - 1);
        let before = claims(short, longer, k - 1);
        lemma_nearest(short[k - 1], positions(longer, before.free));
    }
}

/// The places of one edge lie in the box around the shorter polygon: moved back
/// to where that polygon lies, they fit a `Point`.
proof fn lemma_edge_places_fit(
    short: Seq<Point>,
    origin: Vector,
    longer: Seq<Vector>,
    free: Seq<int>,
    i: int,
)
    requires
        0 <= i < short.len(),
    ensures
        forall|t: int|
            0 <= t < edge_matches(translated(short, origin), longer, free, i).len() ==> fits_point(
                moved(
                    (#[trigger] edge_matches(translated(short, origin), longer, free, i)[t]).place,
                    origin.x,
                    origin.y,
                ),
            ),
    decreases free.len(),
{
    if free.len() > 0 {
        let s = translated(short, origin);
        lemma_edge_places_fit(short, origin, longer, free.drop_last(), i);
        let next = (i + 1) % (short.len() as int);
        vstd::arithmetic::div_mod::lemma_mod_bound(i + 1, short.len() as int);
        let q = longer[free.last()];
        lemma_project_between(s[i], s[next], q);
        let before = edge_matches(s, longer, free.drop_last(), i);
        let pairs = edge_matches(s, longer, free, i);
        assert(s[i] == moved(short[i]@, -origin.x, -origin.y));
        assert(s[next] == moved(short[next]@, -origin.x, -origin.y));
        assert forall|t: int| 0 <= t < pairs.len() implies fits_point(
            moved((#[trigger] pairs[t]).place, origin.x, origin.y),
        ) by {
            if t < before.len() {
                assert(pairs[t] == before[t]);
            } else {
                assert(pairs[t].place == project(s[i], s[next], q));
            }
        }
    }
}

/// All places lie in the box around the shorter polygon: moved back to where
/// that polygon lies, they fit a `Point`.
proof fn lemma_places_fit(short: Seq<Point>, origin: Vector, longer: Seq<Vector>, k: int)
    requires
        0 <= k <= short.len(),
    ensures
        forall|t: int|
            0 <= t < matches_upto(translated(short, origin), longer, k).len() ==> fits_point(
                moved(
                    (#[trigger] matches_upto(translated(short, origin), longer, k)[t]).place,
                    origin.x,
                    origin.y,
                ),
            ),
    decreases k,
{
    if k > 0 {
        let s = translated(short, origin);
        let all = claims(s, longer, s.len() as int);
        lemma_places_fit(short, origin, longer, k - 1);
        lemma_edge_places_fit(short, origin, longer, all.free, k - 1);
        let head = matches_upto(s, longer, k - 1).push(
            Match { index: all.claimed[k - 1], place: s[k - 1] },
        );
        let tail = edge_matches(s, longer, all.free, k - 1);
        assert forall|t: int| 0 <= t < matches_upto(s, longer, k).len() implies fits_point(
            moved((#[trigger] matches_upto(s, longer, k)[t]).place, origin.x, origin.y),
        ) by {
            if t >= head.len() {
                assert(matches_upto(s, longer, k)[t] == tail[t - head.len()]);
            } else if t < head.len() - 1 {
                assert(matches_upto(s, longer, k)[t] == matches_upto(s, longer, k - 1)[t]);
            }
        }
    }
}

/// The number of pairs before the anchor of edge `k`: the position of that
/// anchor among all pairs.
pub open spec fn anchor_slot(short: Seq<Vector>, longer: Seq<Vector>, k: int) -> int {
    matches_upto(short, longer, k).len() as int
}

/// The pairs of the first edges stay where they are when further edges follow.
proof fn lemma_matches_prefix(short: Seq<Vector>, longer: Seq<Vector>, k: int, j: int)
    requires
        0 <= k <= j,
    ensures
        matches_upto(short, longer, k).len() <= matches_upto(short, longer, j).len(),
        forall|t: int|
            0 <= t < matches_upto(short, longer, k).len() ==> matches_upto(short, longer, j)[t]
                == #[trigger] matches_upto(short, longer, k)[t],
    decreases j - k,
{
    if k < j {
        lemma_matches_prefix(short, longer, k, j - 1);
        assert forall|t: int| 0 <= t < matches_upto(short, longer, k).len() implies matches_upto(
            short,
            longer,
            j,
        )[t] == #[trigger] matches_upto(short, longer, k)[t] by {
            assert(matches_upto(short, longer, j)[t] == matches_upto(short, longer, j - 1)[t]);
        }
    }
}

/// The shorter polygon keeps its points, in their order: point `k` stands at
/// the slot of anchor `k`, the first point at the first slot, and the slots
/// ascend with `k`. The points between two such slots were added.
pub proof fn lemma_anchors_kept(short: Seq<Point>, longer: Seq<Point>, k: int)
    requires
        0 < short.len() <= longer.len(),
        0 <= k < short.len(),
    ensures
        0 <= anchor_slot(aligned(short), aligned(longer), k) < longer.len(),
        filled(short, longer)[anchor_slot(aligned(short), aligned(longer), k)] == short[k],
        anchor_slot(aligned(short), aligned(longer), 0) == 0,
        anchor_slot(aligned(short), aligned(longer), k) < anchor_slot(
            aligned(short),
            aligned(longer),
            k + 1,
        ),
{
    let s = aligned(short);
    let l = aligned(longer);
    let slot = anchor_slot(s, l, k);
    let all = claims(s, l, s.len() as int);
    lemma_all_matches_len(s, l);
    lemma_matches_prefix(s, l, k + 1, s.len() as int);
    let anchor = Match { index: all.claimed[k], place: s[k] };
    let head = matches_upto(s, l, k).push(anchor);
    assert(matches_upto(s, l, k + 1)[slot] == head[slot]);
    assert(all_matches(s, l)[slot] == anchor);
    assert(s[k] == moved(short[k]@, -leftmost(short), -topmost(short)));
}

/// The positions in the longer polygon that the pairs name, in the order of the pairs.
pub open spec fn matched_indices(pairs: Seq<Match>) -> Seq<int> {
    Seq::new(pairs.len(), |t: int| pairs[t].index)
}

/// Of the points named by `free`, in order, those whose nearest edge comes
/// before edge `k`.
pub open spec fn assigned_below(short: Seq<Vector>, longer: Seq<Vector>, free: Seq<int>, k: int) -> Seq<
    int,
>
    decreases free.len(),
{
    if free.len() == 0 {
        Seq::empty()
    } else if nearest_edge(short, longer[free.last()]) < k {
        assigned_below(short, longer, free.drop_last(), k).push(free.last())
    } else {
        assigned_below(short, longer, free.drop_last(), k)
    }
}

/// Claimed or free, every point of the longer polygon is there once.
proof fn lemma_claims_partition(short: Seq<Vector>, longer: Seq<Vector>, k: int)
    requires
        0 <= k <= longer.len(),
    ensures
        claims(short, longer, k).claimed.to_multiset().add(
            claims(short, longer, k).free.to_multiset(),
        ) == Seq::new(longer.len(), |i: int| i).to_multiset(),
    decreases k,
{
    broadcast use vstd::multiset::group_multiset_axioms;
    broadcast use vstd::seq_lib::group_to_multiset_ensures;

    let now = claims(short, longer, k);
    if k > 0 {
        lemma_claims_partition(short, longer, k - 1);
        lemma_claims_len(short, longer, k - 1);
        let before = claims(short, longer, k - 1);
        lemma_nearest(short[k - 1], positions(longer, before.free));
        let j = nearest(short[k - 1], positions(longer, before.free));
        assert(before.free.to_multiset().count(before.free[j]) > 0);
        assert(now.claimed.to_multiset().add(now.free.to_multiset())
            =~= before.claimed.to_multiset().add(before.free.to_multiset()));
    } else {
        assert(now.claimed.to_multiset() =~= Multiset::<int>::empty());
        assert(now.claimed.to_multiset().add(now.free.to_multiset()) =~= now.free.to_multiset());
    }
}

/// The points of edge `i` are those that come before edge `i + 1` and not before edge `i`.
proof fn lemma_edge_partition(short: Seq<Vector>, longer: Seq<Vector>, free: Seq<int>, i: int)
    ensures
        matched_indices(edge_matches(short, longer, free, i)).to_multiset().add(
            assigned_below(short, longer, free, i).to_multiset(),
        ) == assigned_below(short, longer, free, i + 1).to_multiset(),
    decreases free.len(),
{
    broadcast use vstd::multiset::group_multiset_axioms;
    broadcast use vstd::seq_lib::group_to_multiset_ensures;

    let pairs = edge_matches(short, longer, free, i);
    if free.len() > 0 {
        let rest = free.drop_last();
        lemma_edge_partition(short, longer, rest, i);
        let before = edge_matches(short, longer, rest, i);
        let e = nearest_edge(short, longer[free.last()]);
        if e == i {
            assert(matched_indices(pairs) =~= matched_indices(before).push(free.last()));
        }
        assert(matched_indices(pairs).to_multiset().add(
            assigned_below(short, longer, free, i).to_multiset(),
        ) =~= assigned_below(short, longer, free, i + 1).to_multiset());
    } else {
        assert(matched_indices(pairs) =~= Seq::<int>::empty());
        assert(matched_indices(pairs).to_multiset().add(
            assigned_below(short, longer, free, i).to_multiset(),
        ) =~= assigned_below(short, longer, free, i + 1).to_multiset());
    }
}

/// No point comes before the first edge, and every point before the end of the edges.
proof fn lemma_assigned_below_all(short: Seq<Vector>, longer: Seq<Vector>, free: Seq<int>)
    requires
        short.len() > 0,
    ensures
        assigned_below(short, longer, free, 0) == Seq::<int>::empty(),
        assigned_below(short, longer, free, short.len() as int) == free,
    decreases free.len(),
{
    if free.len() > 0 {
        lemma_assigned_below_all(short, longer, free.drop_last());
        let q = longer[free.last()];
        lemma_nearest(q, edge_feet(short, q));
        assert(free.drop_last().push(free.last()) =~= free);
    } else {
        assert(free =~= Seq::<int>::empty());
    }
}

/// The pairs of the first `k` edges name the points that the first `k` anchors
/// claimed and the free points of those edges, each once.
proof fn lemma_matches_partition(short: Seq<Vector>, longer: Seq<Vector>, k: int)
    requires
        0 <= k <= short.len() <= longer.len(),
        short.len() > 0,
    ensures
        matched_indices(matches_upto(short, longer, k)).to_multiset() == claims(
            short,
            longer,
            short.len() as int,
        ).claimed.take(k).to_multiset().add(
            assigned_below(
                short,
                longer,
                claims(short, longer, short.len() as int).free,
                k,
            ).to_multiset(),
        ),
    decreases k,
{
    broadcast use vstd::multiset::group_multiset_axioms;
    broadcast use vstd::seq_lib::group_to_multiset_ensures;

    let all = claims(short, longer, short.len() as int);
    lemma_claims_len(short, longer, short.len() as int);
    lemma_assigned_below_all(short, longer, all.free);
    if k > 0 {
        lemma_matches_partition(short, longer, k - 1);
        lemma_edge_partition(short, longer, all.free, k - 1);
        let earlier = matches_upto(short, longer, k - 1);
        let tail = edge_matches(short, longer, all.free, k - 1);
        let head = earlier.push(Match { index: all.claimed[k - 1], place: short[k - 1] });
        assert(matched_indices(head) =~= matched_indices(earlier).push(all.claimed[k - 1]));
        assert(matched_indices(head + tail) =~= matched_indices(head) + matched_indices(tail));
        vstd::seq_lib::lemma_multiset_commutative(matched_indices(head), matched_indices(tail));
        assert(all.claimed.take(k) =~= all.claimed.take(k - 1).push(all.claimed[k - 1]));
        assert(matched_indices(matches_upto(short, longer, k)).to_multiset()
            =~= all.claimed.take(k).to_multiset().add(
            assigned_below(short, longer, all.free, k).to_multiset(),
        ));
    } else {
        assert(matched_indices(matches_upto(short, longer, 0)) =~= Seq::<int>::empty());
        assert(all.claimed.take(0) =~= Seq::<int>::empty());
        assert(matched_indices(matches_upto(short, longer, k)).to_multiset()
            =~= all.claimed.take(k).to_multiset().add(
            assigned_below(short, longer, all.free, k).to_multiset(),
        ));
    }
}

/// The longer polygon keeps its points: the pairs name every point of the
/// longer polygon exactly once, so the reordered polygon holds the points of the
/// longer one, each as often as that one does.
pub proof fn lemma_every_point_matched_once(short: Seq<Vector>, longer: Seq<Vector>)
    requires
        0 < short.len() <= longer.len(),
    ensures
        matched_indices(all_matches(short, longer)).to_multiset() == Seq::new(
            longer.len(),
            |i: int| i,
        ).to_multiset(),
{
    let m = short.len() as int;
    let all = claims(short, longer, m);
    lemma_claims_len(short, longer, m);
    lemma_claims_partition(short, longer, m);
    lemma_matches_partition(short, longer, m);
    lemma_assigned_below_all(short, longer, all.free);
    assert(all.claimed.take(m) =~= all.claimed);
}

/// The matching pairs every point of the longer polygon: there are as many
/// pairs as the longer polygon has points, and each names one of its points.
pub proof fn lemma_all_matches_len(short: Seq<Vector>, longer: Seq<Vector>)
    requires
        0 < short.len() <= longer.len(),
    ensures
        all_matches(short, longer).len() == longer.len(),
        forall|t: int|
            0 <= t < longer.len() ==> 0 <= (#[trigger] all_matches(short, longer)[t]).index
                < longer.len(),
{
    broadcast use vstd::seq_lib::group_to_multiset_ensures;

    let indices = matched_indices(all_matches(short, longer));
    let all = Seq::new(longer.len(), |i: int| i);
    lemma_every_point_matched_once(short, longer);
    assert(indices.to_multiset().len() == all.to_multiset().len());
    assert forall|t: int| 0 <= t < longer.len() implies 0 <= (#[trigger] all_matches(
        short,
        longer,
    )[t]).index < longer.len() by {
        assert(indices[t] == all_matches(short, longer)[t].index);
        assert(indices.contains(indices[t]));
        assert(all.to_multiset().count(indices[t]) > 0);
        assert(all.contains(indices[t]));
    }
}

/// The reordered polygon is the longer polygon in another order: each of its
/// points is the point of the longer polygon that its pair names, and the pairs
/// name every point of the longer polygon exactly once.
pub proof fn lemma_reordered_is_permutation(short: Seq<Point>, longer: Seq<Point>)
    requires
        0 < short.len() <= longer.len(),
    ensures
        reordered(short, longer).len() == longer.len(),
        matched_indices(all_matches(aligned(short), aligned(longer))).to_multiset() == Seq::new(
            longer.len(),
            |i: int| i,
        ).to_multiset(),
        forall|t: int|
            0 <= t < longer.len() ==> 0 <= matched_indices(
                all_matches(aligned(short), aligned(longer)),
            )[t] < longer.len() && #[trigger] reordered(short, longer)[t] == longer[matched_indices(
                all_matches(aligned(short), aligned(longer)),
            )[t]],
{
    lemma_all_matches_len(aligned(short), aligned(longer));
    lemma_every_point_matched_once(aligned(short), aligned(longer));
    let pairs = all_matches(aligned(short), aligned(longer));
    assert forall|t: int| 0 <= t < longer.len() implies 0 <= matched_indices(pairs)[t]
        < longer.len() && #[trigger] reordered(short, longer)[t] == longer[matched_indices(
        pairs,
    )[t]] by {
        assert(0 <= pairs[t].index < longer.len());
    }
}

/// Whether the entries hold the given pairs.
spec fn holds(entries: Seq<(usize, Wide)>, pairs: Seq<Match>) -> bool {
    &&& entries.len() == pairs.len()
    &&& forall|t: int|
        0 <= t < entries.len() ==> (#[trigger] entries[t]).0 == pairs[t].index && entries[t].1@
            == pairs[t].place
}

/// Whether the entries hold the points of `longer` named by `indices`.
spec fn names(entries: Seq<(usize, Wide)>, indices: Seq<int>, longer: Seq<Vector>) -> bool {
    &&& entries.len() == indices.len()
    &&& forall|t: int|
        0 <= t < entries.len() ==> (#[trigger] entries[t]).0 == indices[t] && 0 <= indices[t]
            < longer.len() && entries[t].1@ == longer[indices[t]]
}

/// Whether the points stand for the given positions.
spec fn stands_for(points: Seq<Wide>, positions: Seq<Vector>) -> bool {
    &&& points.len() == positions.len()
    &&& forall|t: int| 0 <= t < points.len() ==> (#[trigger] points[t])@ == positions[t]
}

/// Whether all points are within reach.
spec fn all_reachable(points: Seq<Wide>) -> bool {
    forall|t: int| 0 <= t < points.len() ==> reachable((#[trigger] points[t])@)
}

/// Each point with its position in the sequence.
fn enumerate(points: &Vec<Wide>) -> (r: Vec<(usize, Wide)>)
    ensures
        r@.len() == points@.len(),
        forall|t: int| 0 <= t < r@.len() ==> #[trigger] r@[t] == (t as usize, points@[t]),
{
    let mut r: Vec<(usize, Wide)> = Vec::with_capacity(points.len());
    let mut t: usize = 0;
    while t < points.len()
        invariant
            t <= points@.len(),
            r@.len() == t,
            forall|u: int| 0 <= u < t ==> #[trigger] r@[u] == (u as usize, points@[u]),
        decreases points@.len() - t,
    {
        r.push((t, points[t]));
        t += 1;
    }
    r
}

/// The points of the entries, in order.
fn points_of(entries: &Vec<(usize, Wide)>) -> (r: Vec<Wide>)
    ensures
        r@.len() == entries@.len(),
        forall|t: int| 0 <= t < r@.len() ==> #[trigger] r@[t] == entries@[t].1,
{
    let mut r: Vec<Wide> = Vec::with_capacity(entries.len());
    let mut t: usize = 0;
    while t < entries.len()
        invariant
            t <= entries@.len(),
            r@.len() == t,
            forall|u: int| 0 <= u < t ==> #[trigger] r@[u] == entries@[u].1,
        decreases entries@.len() - t,
    {
        r.push(entries[t].1);
        t += 1;
    }
    r
}

/// Lets each point of `short`, in order, claim the nearest point of `longer`
/// that is still free. Returns the anchors, each a claimed point's position in
/// `longer` with the point of `short` that claimed it, and the points that stay
/// free.
fn claim_anchors(short: &Vec<Wide>, longer: &Vec<Wide>, Ghost(s): Ghost<Seq<Vector>>, Ghost(l): Ghost<
    Seq<Vector>,
>) -> (r: (Vec<(usize, Wide)>, Vec<(usize, Wide)>))
    requires
        short@.len() <= longer@.len(),
        stands_for(short@, s),
        stands_for(longer@, l),
        all_reachable(short@),
        all_reachable(longer@),
    ensures
        r.0@.len() == short@.len(),
        forall|k: int|
            0 <= k < short@.len() ==> (#[trigger] r.0@[k]).0 == claims(
                s,
                l,
                short@.len() as int,
            ).claimed[k] && r.0@[k].1 == short@[k],
        names(r.1@, claims(s, l, short@.len() as int).free, l),
{
    let mut free: Vec<(usize, Wide)> = enumerate(longer);
    let mut anchors: Vec<(usize, Wide)> = Vec::with_capacity(short.len());
    let mut k: usize = 0;
    proof {
        assert forall|t: int| 0 <= t < free@.len() implies (#[trigger] free@[t]).0 == claims(
            s,
            l,
            0,
        ).free[t] && free@[t].1@ == l[t] by {
            assert(free@.len() == free.len());
            assert(longer@[t]@ == l[t]);
        }
    }
    while k < short.len()
        invariant
            k <= short@.len() <= longer@.len(),
            stands_for(short@, s),
            stands_for(longer@, l),
            all_reachable(short@),
            all_reachable(longer@),
            anchors@.len() == k,
            forall|t: int|
                0 <= t < k ==> (#[trigger] anchors@[t]).0 == claims(s, l, k as int).claimed[t]
                    && anchors@[t].1 == short@[t],
            names(free@, claims(s, l, k as int).free, l),
            forall|t: int| 0 <= t < free@.len() ==> (#[trigger] free@[t]).1 == longer@[free@[t].0 as int],
        decreases short@.len() - k,
    {
        let ghost before = claims(s, l, k as int);
        proof {
            lemma_claims_len(s, l, k as int);
        }
        let candidates: Vec<Wide> = points_of(&free);
        assert(candidates@.map_values(|c: Wide| c@) =~= positions(l, before.free));
        let found = closest_point(short[k], &candidates);
        let j: usize = found.0;
        let claimed: usize = free[j].0;
        anchors.push((claimed, short[k]));
        free.remove(j);
        proof {
            let after = claims(s, l, k + 1);
            assert(after.free == before.free.remove(j as int));
            assert(after.claimed == before.claimed.push(before.free[j as int]));
        }
        k += 1;
    }
    (anchors, free)
}

/// For each edge of `short`, its point nearest to `point`.
fn feet_of(short: &Vec<Wide>, point: Wide, Ghost(s): Ghost<Seq<Vector>>) -> (r: Vec<Wide>)
    requires
        short@.len() > 0,
        stands_for(short@, s),
        all_reachable(short@),
        reachable(point@),
    ensures
        stands_for(r@, edge_feet(s, point@)),
        all_reachable(r@),
{
    let m: usize = short.len();
    let mut feet: Vec<Wide> = Vec::with_capacity(m);
    let mut i: usize = 0;
    while i < m
        invariant
            i <= m,
            m == short@.len(),
            stands_for(short@, s),
            all_reachable(short@),
            reachable(point@),
            feet@.len() == i,
            forall|t: int| 0 <= t < i ==> (#[trigger] feet@[t])@ == edge_foot(s, t, point@),
            all_reachable(feet@),
        decreases m - i,
    {
        let next: usize = (i + 1) % m;
        let cast = cast_to_line(short[i], short[next], point);
        feet.push(cast.0);
        i += 1;
    }
    feet
}

/// Gives each free point to the edge of `short` nearest to it. Returns for each
/// edge its pairs: a free point's position in the longer polygon with the point
/// of the edge nearest to it.
fn assign_edges(
    short: &Vec<Wide>,
    free: &Vec<(usize, Wide)>,
    Ghost(s): Ghost<Seq<Vector>>,
    Ghost(l): Ghost<Seq<Vector>>,
    Ghost(indices): Ghost<Seq<int>>,
) -> (r: Vec<Vec<(usize, Wide)>>)
    requires
        short@.len() > 0,
        stands_for(short@, s),
        all_reachable(short@),
        names(free@, indices, l),
        forall|t: int| 0 <= t < free@.len() ==> reachable((#[trigger] free@[t]).1@),
    ensures
        r@.len() == short@.len(),
        forall|i: int|
            0 <= i < short@.len() ==> holds((#[trigger] r@[i])@, edge_matches(s, l, indices, i)),
{
    let m: usize = short.len();
    let mut segments: Vec<Vec<(usize, Wide)>> = Vec::with_capacity(m);
    let mut i: usize = 0;
    while i < m
        invariant
            i <= m,
            segments@.len() == i,
            forall|e: int| 0 <= e < i ==> (#[trigger] segments@[e])@.len() == 0,
        decreases m - i,
    {
        segments.push(Vec::new());
        i += 1;
    }
    let mut t: usize = 0;
    assert(indices.take(0) =~= Seq::<int>::empty());
    while t < free.len()
        invariant
            t <= free@.len(),
            m == short@.len(),
            m > 0,
            stands_for(short@, s),
            all_reachable(short@),
            names(free@, indices, l),
            forall|u: int| 0 <= u < free@.len() ==> reachable((#[trigger] free@[u]).1@),
            segments@.len() == m,
            forall|e: int|
                0 <= e < m ==> holds(
                    (#[trigger] segments@[e])@,
                    edge_matches(s, l, indices.take(t as int), e),
                ),
        decreases free@.len() - t,
    {
        let entry = free[t];
        let feet: Vec<Wide> = feet_of(short, entry.1, Ghost(s));
        assert(feet@.map_values(|c: Wide| c@) =~= edge_feet(s, entry.1@));
        let found = closest_point(entry.1, &feet);
        let ghost before = segments@;
        segments[found.0].push((entry.0, found.1));
        proof {
            let upto = indices.take(t + 1);
            assert(upto.drop_last() =~= indices.take(t as int));
            assert(upto.last() == indices[t as int]);
            assert(l[upto.last()] == entry.1@);
            assert forall|e: int| 0 <= e < m implies holds(
                (#[trigger] segments@[e])@,
                edge_matches(s, l, upto, e),
            ) by {
                assert(holds(before[e]@, edge_matches(s, l, indices.take(t as int), e)));
                if e != found.0 {
                    assert(segments@[e] == before[e]);
                }
            }
        }
        t += 1;
    }
    assert(indices.take(t as int) =~= indices);
    segments
}

/// Lists the pairs edge by edge: for each edge its anchor, then its pairs.
fn collect_matches(
    anchors: &Vec<(usize, Wide)>,
    segments: &Vec<Vec<(usize, Wide)>>,
    Ghost(s): Ghost<Seq<Vector>>,
    Ghost(l): Ghost<Seq<Vector>>,
) -> (r: Vec<(usize, Wide)>)
    requires
        anchors@.len() == s.len(),
        segments@.len() == s.len(),
        forall|k: int|
            0 <= k < s.len() ==> (#[trigger] anchors@[k]).0 == claims(s, l, s.len() as int).claimed[k]
                && anchors@[k].1@ == s[k],
        forall|i: int|
            0 <= i < s.len() ==> holds(
                (#[trigger] segments@[i])@,
                edge_matches(s, l, claims(s, l, s.len() as int).free, i),
            ),
    ensures
        holds(r@, all_matches(s, l)),
{
    let mut points: Vec<(usize, Wide)> = Vec::new();
    let mut i: usize = 0;
    while i < anchors.len()
        invariant
            i <= anchors@.len(),
            anchors@.len() == s.len(),
            segments@.len() == s.len(),
            forall|k: int|
                0 <= k < s.len() ==> (#[trigger] anchors@[k]).0 == claims(
                    s,
                    l,
                    s.len() as int,
                ).claimed[k] && anchors@[k].1@ == s[k],
            forall|e: int|
                0 <= e < s.len() ==> holds(
                    (#[trigger] segments@[e])@,
                    edge_matches(s, l, claims(s, l, s.len() as int).free, e),
                ),
            holds(points@, matches_upto(s, l, i as int)),
        decreases anchors@.len() - i,
    {
        let ghost all = claims(s, l, s.len() as int);
        let ghost head = matches_upto(s, l, i as int).push(
            Match { index: all.claimed[i as int], place: s[i as int] },
        );
        let ghost tail = edge_matches(s, l, all.free, i as int);
        points.push(anchors[i]);
        assert(holds(points@, head));
        let segment = &segments[i];
        assert(holds(segment@, tail));
        let mut t: usize = 0;
        while t < segment.len()
            invariant
                t <= segment@.len(),
                holds(segment@, tail),
                holds(points@, head + tail.take(t as int)),
            decreases segment@.len() - t,
        {
            let ghost before = points@;
            points.push(segment[t]);
            proof {
                assert(head + tail.take(t + 1) =~= (head + tail.take(t as int)).push(tail[t as int]));
                assert forall|u: int| 0 <= u < points@.len() implies (#[trigger] points@[u]).0 == (
                head + tail.take(t + 1))[u].index && points@[u].1@ == (head + tail.take(t + 1))[u].place by {
                    if u < before.len() {
                        assert(points@[u] == before[u]);
                    }
                }
            }
            t += 1;
        }
        assert(tail.take(t as int) =~= tail);
        i += 1;
    }
    points
}

/// Gives the shorter polygon as many points as the longer one has, and puts the
/// longer one in the matching order: afterwards the points at equal positions
/// correspond. The added points lie on the edges of the shorter polygon.
pub fn create_missing_points(short: &mut Vec<Point>, longer: &mut Vec<Point>)
    requires
        0 < old(short)@.len() <= old(longer)@.len(),
    ensures
        final(short)@ == filled(old(short)@, old(longer)@),
        final(longer)@ == reordered(old(short)@, old(longer)@),
        final(short)@.len() == old(longer)@.len(),
        final(longer)@.len() == old(longer)@.len(),
{
    let short_first: Point = top_left(short);
    let short_trans: Vec<Wide> = translate_points(short, short_first);
    let long_first: Point = top_left(longer);
    let long_trans: Vec<Wide> = translate_points(longer, long_first);
    let ghost s = aligned(short@);
    let ghost l = aligned(longer@);
    proof {
        assert(short_first@ == Vector { x: leftmost(short@), y: topmost(short@) });
        assert(long_first@ == Vector { x: leftmost(longer@), y: topmost(longer@) });
        assert forall|t: int| 0 <= t < short_trans@.len() implies reachable(
            (#[trigger] short_trans@[t])@,
        ) by {
            assert(short_trans@[t]@ == s[t]);
        }
        assert forall|t: int| 0 <= t < long_trans@.len() implies reachable(
            (#[trigger] long_trans@[t])@,
        ) by {
            assert(long_trans@[t]@ == l[t]);
        }
        lemma_claims_len(s, l, s.len() as int);
        lemma_all_matches_len(s, l);
        lemma_places_fit(short@, short_first@, l, s.len() as int);
    }
    let claimed = claim_anchors(&short_trans, &long_trans, Ghost(s), Ghost(l));
    let anchors: Vec<(usize, Wide)> = claimed.0;
    let free: Vec<(usize, Wide)> = claimed.1;
    let ghost all = claims(s, l, s.len() as int);
    proof {
        assert forall|t: int| 0 <= t < free@.len() implies reachable((#[trigger] free@[t]).1@) by {
            assert(long_trans@[all.free[t]]@ == l[all.free[t]]);
        }
        assert forall|k: int| 0 <= k < s.len() implies (#[trigger] anchors@[k]).1@ == s[k] by {
            assert(short_trans@[k]@ == s[k]);
        }
    }
    let segments: Vec<Vec<(usize, Wide)>> = assign_edges(
        &short_trans,
        &free,
        Ghost(s),
        Ghost(l),
        Ghost(all.free),
    );
    let points: Vec<(usize, Wide)> = collect_matches(&anchors, &segments, Ghost(s), Ghost(l));
    let ghost pairs = all_matches(s, l);
    let mut new_short: Vec<Point> = Vec::with_capacity(points.len());
    let mut new_longer: Vec<Point> = Vec::with_capacity(points.len());
    let mut t: usize = 0;
    while t < points.len()
        invariant
            t <= points@.len(),
            holds(points@, pairs),
            pairs == all_matches(aligned(short@), aligned(longer@)),
            pairs.len() == longer@.len(),
            short_first@ == (Vector { x: leftmost(short@), y: topmost(short@) }),
            forall|u: int| 0 <= u < pairs.len() ==> 0 <= (#[trigger] pairs[u]).index < longer@.len(),
            forall|u: int|
                0 <= u < pairs.len() ==> fits_point(
                    moved((#[trigger] pairs[u]).place, short_first@.x, short_first@.y),
                ),
            new_short@ == filled(short@, longer@).take(t as int),
            new_longer@ == reordered(short@, longer@).take(t as int),
        decreases points@.len() - t,
    {
        let entry = points[t];
        proof {
            assert(entry.0 == pairs[t as int].index);
            assert(entry.1@ == pairs[t as int].place);
            assert(fits_point(moved(pairs[t as int].place, short_first@.x, short_first@.y)));
        }
        new_longer.push(longer[entry.0]);
        new_short.push(
            Point {
                x: (entry.1.x + short_first.x as i64) as i32,
                y: (entry.1.y + short_first.y as i64) as i32,
            },
        );
        proof {
            assert(new_short@ =~= filled(short@, longer@).take(t + 1));
            assert(new_longer@ =~= reordered(short@, longer@).take(t + 1));
        }
        t += 1;
    }
    proof {
        assert(new_short@ =~= filled(short@, longer@));
        assert(new_longer@ =~= reordered(short@, longer@));
    }
    *short = new_short;
    *longer = new_longer;
}

/// Two sequences of points of equal length, of which the points at equal
/// positions correspond: a morph moves each point of the first to its partner.
#[derive(Debug, PartialEq, Eq)]
pub struct PointCorrespondence {
    /// The points at which the morph starts.
    pub start_points: Vec<Point>,
    /// The points at which the morph ends.
    pub end_points: Vec<Point>,
}

/// The two sequences of corresponding points for a morph from `start` to `end`.
/// Polygons with equally many points are paired as they are. Otherwise the
/// shorter one gets further points and the longer one is put in matching order.
pub open spec fn paired(start: Seq<Point>, end: Seq<Point>) -> (Seq<Point>, Seq<Point>) {
    if start.len() < end.len() {
        (filled(start, end), reordered(start, end))
    } else if start.len() > end.len() {
        (reordered(end, start), filled(end, start))
    } else {
        (start, end)
    }
}

/// The point `p / FULL` of the way from `a` to `b`.
pub open spec fn between(a: Point, b: Point, p: int) -> Point {
    Point { x: lerp(a.x as int, b.x as int, p) as i32, y: lerp(a.y as int, b.y as int, p) as i32 }
}

/// Each point of `start` moved `p / FULL` of the way to its partner in `end`; a
/// point without partner is left out.
pub open spec fn blended(start: Seq<Point>, end: Seq<Point>, p: int) -> Seq<Point> {
    Seq::new(
        if start.len() < end.len() {
            start.len()
        } else {
            end.len()
        },
        |i: int| between(start[i], end[i], p),
    )
}

/// A morph starts at its start points and ends at its end points.
pub proof fn lemma_blended_endpoints(start: Seq<Point>, end: Seq<Point>)
    requires
        start.len() == end.len(),
    ensures
        blended(start, end, 0) == start,
        blended(start, end, FULL as int) == end,
{
    assert forall|i: int| 0 <= i < start.len() implies between(start[i], end[i], 0) == start[i]
        && between(start[i], end[i], FULL as int) == end[i] by {
        lemma_lerp_bounds(start[i].x as int, end[i].x as int, 0);
        lemma_lerp_bounds(start[i].y as int, end[i].y as int, 0);
    }
    assert(blended(start, end, 0) =~= start);
    assert(blended(start, end, FULL as int) =~= end);
}

/// Moves each point of `start` the part `progress / FULL` of the way to its
/// partner in `end`.
pub fn morph_points(start: &Vec<Point>, end: &Vec<Point>, progress: u32) -> (r: Vec<Point>)
    requires
        progress <= FULL,
    ensures
        r@ == blended(start@, end@, progress as int),
{
    let n: usize = if start.len() < end.len() {
        start.len()
    } else {
        end.len()
    };
    let mut points: Vec<Point> = Vec::with_capacity(n);
    let mut i: usize = 0;
    while i < n
        invariant
            i <= n,
            n <= start@.len(),
            n <= end@.len(),
            progress <= FULL,
            points@.len() == i,
            forall|t: int| 0 <= t < i ==> #[trigger] points@[t] == between(start@[t], end@[t], progress as int),
        decreases n - i,
    {
        let a: Point = start[i];
        let b: Point = end[i];
        proof {
            lemma_lerp_bounds(a.x as int, b.x as int, progress as int);
            lemma_lerp_bounds(a.y as int, b.y as int, progress as int);
        }
        let x: i64 = interpolate(a.x as i64, b.x as i64, progress);
        let y: i64 = interpolate(a.y as i64, b.y as i64, progress);
        points.push(Point { x: x as i32, y: y as i32 });
        i += 1;
    }
    assert(points@ =~= blended(start@, end@, progress as int));
    points
}

impl PointCorrespondence {
    /// The corresponding points for a morph between two polygons. The polygons
    /// may differ in their number of points; neither may be empty.
    pub fn new(start: &Vec<Point>, end: &Vec<Point>) -> (r: Result<PointCorrespondence, Error>)
        ensures
            match r {
                Ok(c) => {
                    &&& start@.len() > 0 && end@.len() > 0
                    &&& c.start_points@ == paired(start@, end@).0
                    &&& c.end_points@ == paired(start@, end@).1
                    &&& c.start_points@.len() == c.end_points@.len()
                    &&& c.start_points@.len() == if start@.len() < end@.len() {
                        end@.len()
                    } else {
                        start@.len()
                    }
                    &&& start@.len() == end@.len() ==> c.start_points@ == start@ && c.end_points@
                        == end@
                },
                Err(e) => e == Error::DegeneratePolygon && (start@.len() == 0 || end@.len() == 0),
            },
    {
        if start.len() == 0 || end.len() == 0 {
            return Err(Error::DegeneratePolygon);
        }
        let mut start_points: Vec<Point> = start.clone();
        let mut end_points: Vec<Point> = end.clone();
        if start_points.len() < end_points.len() {
            create_missing_points(&mut start_points, &mut end_points);
        } else if start_points.len() > end_points.len() {
            create_missing_points(&mut end_points, &mut start_points);
        }
        Ok(PointCorrespondence { start_points, end_points })
    }

    /// The corresponding points for a morph between two polygons that must have
    /// equally many points.
    pub fn new_strict(start: &Vec<Point>, end: &Vec<Point>) -> (r: Result<PointCorrespondence, Error>)
        ensures
            match r {
                Ok(c) => {
                    &&& start@.len() == end@.len()
                    &&& start@.len() > 0
                    &&& c.start_points@ == start@
                    &&& c.end_points@ == end@
                },
                Err(e) => if start@.len() == 0 || end@.len() == 0 {
                    e == Error::DegeneratePolygon
                } else {
                    e == Error::MismatchedMorphInput && start@.len() != end@.len()
                },
            },
    {
        if start.len() == 0 || end.len() == 0 {
            return Err(Error::DegeneratePolygon);
        }
        if start.len() != end.len() {
            return Err(Error::MismatchedMorphInput);
        }
        Ok(PointCorrespondence { start_points: start.clone(), end_points: end.clone() })
    }

    /// The points of the morph at the given progress.
    pub fn interpolate(&self, progress: u32) -> (r: Vec<Point>)
        requires
            progress <= FULL,
        ensures
            r@ == blended(self.start_points@, self.end_points@, progress as int),
    {
        morph_points(&self.start_points, &self.end_points, progress)
    }
}

} // verus!
