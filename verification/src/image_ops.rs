//! Whole-image operations: background removal by flood fill from the border,
//! removal of a picked colour, alpha softening and thresholding, brush strokes
//! and cropping.

use std::collections::VecDeque;
use vstd::prelude::*;

use crate::pixels::{lemma_index_injective, lemma_index_split, lemma_pixel_index, RgbaBuffer, RgbaModel};

verus! {

// ---------------------------------------------------------------------------
// Colour tolerance
// ---------------------------------------------------------------------------

/// Squared Euclidean distance between two RGB colours.
pub open spec fn sq_distance(r1: int, g1: int, b1: int, r2: int, g2: int, b2: int) -> int {
    (r1 - r2) * (r1 - r2) + (g1 - g2) * (g1 - g2) + (b1 - b2) * (b1 - b2)
}

/// A colour difference is within `tolerance` when its Euclidean length is at
/// most `tolerance × 1.73`. Squared and kept in integers, `1.73²` is taken as
/// `2.99290035`. With that factor the test accepts exactly the distances that a
/// single-precision `sqrt(d²) <= tolerance * 1.73` accepts, for every tolerance:
/// Verus does not reason about floating point, so this is not proved here;
/// the test `tolerance_matches_single_precision_test_for_every_distance` in
/// tests/image_ops.rs compares the two for every tolerance and every squared
/// distance that two colours can have.
pub open spec fn within_tolerance(sq: int, tolerance: u8) -> bool {
    sq * 100_000_000 <= (tolerance as int) * (tolerance as int) * 299_290_035
}

/// Pixel `i` is within `tolerance` of the colour `(r, g, b)`.
pub open spec fn near_color(m: RgbaModel, i: int, r: int, g: int, b: int, tolerance: u8) -> bool {
    within_tolerance(
        sq_distance(m.ch(i, 0) as int, m.ch(i, 1) as int, m.ch(i, 2) as int, r, g, b),
        tolerance,
    )
}

/// Pixel `i` is within `tolerance` of the colour of pixel `k`.
pub open spec fn near_pixel(m: RgbaModel, i: int, k: int, tolerance: u8) -> bool {
    near_color(m, i, m.ch(k, 0) as int, m.ch(k, 1) as int, m.ch(k, 2) as int, tolerance)
}

/// Pixel `i` is within `tolerance` of the colour of one of the four corners.
pub open spec fn matches_a_corner(m: RgbaModel, tolerance: u8, i: int) -> bool {
    ||| near_pixel(m, i, m.index_of(0, 0), tolerance)
    ||| near_pixel(m, i, m.index_of(m.width - 1, 0), tolerance)
    ||| near_pixel(m, i, m.index_of(0, m.height - 1), tolerance)
    ||| near_pixel(m, i, m.index_of(m.width - 1, m.height - 1), tolerance)
}

/// Whether the RGB part of `p` lies within `tolerance` of `color`.
pub fn color_within_tolerance(p: [u8; 4], color: [u8; 3], tolerance: u8) -> (b: bool)
    ensures
        b == within_tolerance(
            sq_distance(
                p[0] as int,
                p[1] as int,
                p[2] as int,
                color[0] as int,
                color[1] as int,
                color[2] as int,
            ),
            tolerance,
        ),
{
    let dr: i64 = p[0] as i64 - color[0] as i64;
    let dg: i64 = p[1] as i64 - color[1] as i64;
    let db: i64 = p[2] as i64 - color[2] as i64;
    proof {
        assert(0 <= dr * dr <= 65025) by (nonlinear_arith)
            requires
                -255 <= dr <= 255,
        ;
        assert(0 <= dg * dg <= 65025) by (nonlinear_arith)
            requires
                -255 <= dg <= 255,
        ;
        assert(0 <= db * db <= 65025) by (nonlinear_arith)
            requires
                -255 <= db <= 255,
        ;
    }
    let sq: i64 = dr * dr + dg * dg + db * db;
    let t: i64 = tolerance as i64;
    proof {
        assert(0 <= t * t <= 65025) by (nonlinear_arith)
            requires
                0 <= t <= 255,
        ;
    }
    sq * 100_000_000 <= t * t * 299_290_035
}

// ---------------------------------------------------------------------------
// Counting
// ---------------------------------------------------------------------------

/// The number of `true` entries of `s`.
pub open spec fn count_true(s: Seq<bool>) -> nat
    decreases s.len(),
{
    if s.len() == 0 {
        0
    } else {
        count_true(s.drop_last()) + if s.last() {
            1nat
        } else {
            0nat
        }
    }
}

pub proof fn lemma_count_true_bound(s: Seq<bool>)
    ensures
        count_true(s) <= s.len(),
    decreases s.len(),
{
    if s.len() > 0 {
        lemma_count_true_bound(s.drop_last());
    }
}

pub proof fn lemma_count_true_set(s: Seq<bool>, i: int)
    requires
        0 <= i < s.len(),
        !s[i],
    ensures
        count_true(s.update(i, true)) == count_true(s) + 1,
    decreases s.len(),
{
    let u = s.update(i, true);
    if i == s.len() - 1 {
        assert(u.drop_last() =~= s.drop_last());
    } else {
        assert(u.drop_last() =~= s.drop_last().update(i, true));
        lemma_count_true_set(s.drop_last(), i);
    }
}

pub proof fn lemma_count_true_all_false(s: Seq<bool>)
    requires
        forall|i: int| 0 <= i < s.len() ==> !s[i],
    ensures
        count_true(s) == 0,
    decreases s.len(),
{
    if s.len() > 0 {
        lemma_count_true_all_false(s.drop_last());
    }
}

// ---------------------------------------------------------------------------
// Border-connected background
// ---------------------------------------------------------------------------

/// Pixel `i` lies in the first or last row or column of a `w` by `h` grid.
pub open spec fn on_border(w: nat, h: nat, i: int) -> bool {
    &&& 0 <= i < w * h
    &&& (i < w || i >= w * h - w || i % (w as int) == 0 || i % (w as int) == w - 1)
}

/// Pixels `i` and `j` of a `w` by `h` grid share an edge: `j` is the left,
/// right, upper or lower neighbour of `i`.
pub open spec fn grid_neighbours(w: nat, h: nat, i: int, j: int) -> bool {
    &&& 0 <= i < w * h
    &&& 0 <= j < w * h
    &&& {
        ||| (j == i - 1 && i % (w as int) != 0)
        ||| (j == i + 1 && i % (w as int) != w - 1)
        ||| j == i - w
        ||| j == i + w
    }
}

/// `p` is a chain of corner-coloured pixels that starts on the border and
/// steps between neighbouring pixels.
pub open spec fn is_edge_path(m: RgbaModel, tolerance: u8, p: Seq<int>) -> bool {
    &&& p.len() > 0
    &&& on_border(m.width, m.height, p[0])
    &&& forall|k: int|
        0 <= k < p.len() ==> 0 <= #[trigger] p[k] < m.pixel_count() && matches_a_corner(
            m,
            tolerance,
            p[k],
        )
    &&& forall|k: int|
        0 <= k < p.len() - 1 ==> #[trigger] grid_neighbours(m.width, m.height, p[k], p[k + 1])
}

/// Pixel `i` belongs to the background that a flood fill from the border
/// reaches: some chain of corner-coloured neighbours joins it to the border.
pub open spec fn edge_connected(m: RgbaModel, tolerance: u8, i: int) -> bool {
    exists|p: Seq<int>| #[trigger] is_edge_path(m, tolerance, p) && p.last() == i
}

/// Which pixels of `m` belong to the border-connected background.
pub open spec fn edge_background(m: RgbaModel, tolerance: u8) -> Seq<bool> {
    Seq::new(m.pixel_count(), |i: int| edge_connected(m, tolerance, i))
}

/// The colour of each corner, in the order top-left, top-right, bottom-left,
/// bottom-right.
pub open spec fn corner_index(m: RgbaModel, k: int) -> int {
    if k == 0 {
        m.index_of(0, 0)
    } else if k == 1 {
        m.index_of(m.width - 1, 0)
    } else if k == 2 {
        m.index_of(0, m.height - 1)
    } else {
        m.index_of(m.width - 1, m.height - 1)
    }
}

spec fn corners_of(m: RgbaModel, corners: Seq<[u8; 3]>) -> bool {
    &&& corners.len() == 4
    &&& forall|k: int, c: int|
        0 <= k < 4 && 0 <= c < 3 ==> #[trigger] corners[k][c] == m.ch(corner_index(m, k), c)
}

/// Flood-fill bookkeeping: everything marked is border-connected, the queue
/// holds distinct marked pixels, and `count` plus the queue length is the
/// number of marked pixels.
spec fn fill_state(m: RgbaModel, tolerance: u8, visited: Seq<bool>, queue: Seq<usize>, count: nat) -> bool {
    &&& visited.len() == m.pixel_count()
    &&& forall|i: int| 0 <= i < visited.len() && #[trigger] visited[i] ==> edge_connected(m, tolerance, i)
    &&& forall|k: int| 0 <= k < queue.len() ==> #[trigger] queue[k] < visited.len() && visited[queue[k] as int]
    &&& forall|a: int, b: int| 0 <= a < b < queue.len() ==> #[trigger] queue[a] != #[trigger] queue[b]
    &&& count + queue.len() == count_true(visited)
}

/// Every marked pixel that has left the queue has all of its corner-coloured
/// neighbours marked.
spec fn closed_outside_queue(m: RgbaModel, tolerance: u8, visited: Seq<bool>, queue: Seq<usize>) -> bool {
    forall|i: int, j: int|
        #![trigger visited[i], grid_neighbours(m.width, m.height, i, j)]
        0 <= i < visited.len() && visited[i] && !queue.contains(i as usize) && grid_neighbours(
            m.width,
            m.height,
            i,
            j,
        ) && matches_a_corner(m, tolerance, j) ==> visited[j]
}

fn matches_corner_color(image: &RgbaBuffer, corners: &Vec<[u8; 3]>, idx: usize, tolerance: u8) -> (b: bool)
    requires
        corners_of(image@, corners@),
        idx < image@.pixel_count(),
    ensures
        b == matches_a_corner(image@, tolerance, idx as int),
{
    let p = image.pixel_at(idx);
    let c0 = color_within_tolerance(p, corners[0], tolerance);
    let c1 = color_within_tolerance(p, corners[1], tolerance);
    let c2 = color_within_tolerance(p, corners[2], tolerance);
    let c3 = color_within_tolerance(p, corners[3], tolerance);
    proof {
        let m = image@;
        assert forall|k: int| 0 <= k < 4 implies #[trigger] corners@[k][0] == m.ch(corner_index(m, k), 0)
            && corners@[k][1] == m.ch(corner_index(m, k), 1) && corners@[k][2] == m.ch(corner_index(m, k), 2) by {
            assert(corners@[k][0] == m.ch(corner_index(m, k), 0));
            assert(corners@[k][1] == m.ch(corner_index(m, k), 1));
            assert(corners@[k][2] == m.ch(corner_index(m, k), 2));
        }
        assert(corners@[0][0] == m.ch(corner_index(m, 0), 0));
        assert(corners@[1][0] == m.ch(corner_index(m, 1), 0));
        assert(corners@[2][0] == m.ch(corner_index(m, 2), 0));
        assert(corners@[3][0] == m.ch(corner_index(m, 3), 0));
    }
    c0 || c1 || c2 || c3
}

/// Marks pixel `idx` and queues it, when it is unmarked and corner-coloured.
fn visit(
    image: &RgbaBuffer,
    corners: &Vec<[u8; 3]>,
    tolerance: u8,
    idx: usize,
    visited: &mut Vec<bool>,
    queue: &mut VecDeque<usize>,
    Ghost(count): Ghost<nat>,
)
    requires
        corners_of(image@, corners@),
        idx < image@.pixel_count(),
        fill_state(image@, tolerance, old(visited)@, old(queue)@, count),
        matches_a_corner(image@, tolerance, idx as int) ==> edge_connected(image@, tolerance, idx as int),
    ensures
        fill_state(image@, tolerance, final(visited)@, final(queue)@, count),
        matches_a_corner(image@, tolerance, idx as int) ==> final(visited)@[idx as int],
        if !old(visited)@[idx as int] && matches_a_corner(image@, tolerance, idx as int) {
            &&& final(visited)@ == old(visited)@.update(idx as int, true)
            &&& final(queue)@ == old(queue)@.push(idx)
        } else {
            &&& final(visited)@ == old(visited)@
            &&& final(queue)@ == old(queue)@
        },
{
    if !visited[idx] && matches_corner_color(image, corners, idx, tolerance) {
        proof {
            lemma_count_true_set(visited@, idx as int);
        }
        visited.set(idx, true);
        queue.push_back(idx);
        proof {
            let q = queue@;
            assert forall|a: int, b: int| 0 <= a < b < q.len() implies #[trigger] q[a] != #[trigger] q[b] by {
                if b == q.len() - 1 {
                    assert(visited@[q[a] as int] || true);
                    assert(old(visited)@[old(queue)@[a] as int]);
                }
            }
            assert forall|k: int| 0 <= k < q.len() implies #[trigger] q[k] < visited@.len() && visited@[q[k] as int] by {
                if k < q.len() - 1 {
                    assert(old(visited)@[old(queue)@[k] as int]);
                }
            }
        }
    }
}

/// Pixels of `s` in the last row, as indices.
proof fn lemma_closed_covers_paths(m: RgbaModel, tolerance: u8, visited: Seq<bool>, p: Seq<int>)
    requires
        visited.len() == m.pixel_count(),
        forall|i: int|
            on_border(m.width, m.height, i) && matches_a_corner(m, tolerance, i) ==> #[trigger] visited[i],
        forall|i: int, j: int|
            #![trigger visited[i], grid_neighbours(m.width, m.height, i, j)]
            0 <= i < visited.len() && visited[i] && grid_neighbours(m.width, m.height, i, j)
                && matches_a_corner(m, tolerance, j) ==> visited[j],
        is_edge_path(m, tolerance, p),
    ensures
        visited[p.last()],
    decreases p.len(),
{
    if p.len() == 1 {
        assert(matches_a_corner(m, tolerance, p[0]));
    } else {
        let q = p.drop_last();
        assert(is_edge_path(m, tolerance, q)) by {
            assert forall|k: int| 0 <= k < q.len() - 1 implies #[trigger] grid_neighbours(
                m.width,
                m.height,
                q[k],
                q[k + 1],
            ) by {
                assert(grid_neighbours(m.width, m.height, p[k], p[k + 1]));
            }
            assert forall|k: int| 0 <= k < q.len() implies 0 <= #[trigger] q[k] < m.pixel_count()
                && matches_a_corner(m, tolerance, q[k]) by {
                assert(0 <= p[k] < m.pixel_count());
            }
        }
        lemma_closed_covers_paths(m, tolerance, visited, q);
        let k = p.len() - 2;
        assert(grid_neighbours(m.width, m.height, p[k], p[k + 1]));
        assert(0 <= p[k + 1] < m.pixel_count());
        assert(visited[q.last()]);
    }
}

/// Extending a path by a corner-coloured neighbour of its last pixel.
proof fn lemma_extend_path(m: RgbaModel, tolerance: u8, p: Seq<int>, j: int)
    requires
        is_edge_path(m, tolerance, p),
        grid_neighbours(m.width, m.height, p.last(), j),
        matches_a_corner(m, tolerance, j),
    ensures
        is_edge_path(m, tolerance, p.push(j)),
        p.push(j).last() == j,
{
    let q = p.push(j);
    assert forall|k: int| 0 <= k < q.len() - 1 implies #[trigger] grid_neighbours(
        m.width,
        m.height,
        q[k],
        q[k + 1],
    ) by {
        if k < p.len() - 1 {
            assert(grid_neighbours(m.width, m.height, p[k], p[k + 1]));
        }
    }
    assert forall|k: int| 0 <= k < q.len() implies 0 <= #[trigger] q[k] < m.pixel_count()
        && matches_a_corner(m, tolerance, q[k]) by {
        if k < p.len() {
            assert(0 <= p[k] < m.pixel_count());
        }
    }
}

/// A corner-coloured neighbour of a border-connected pixel is border-connected.
proof fn lemma_neighbour_connected(m: RgbaModel, tolerance: u8, i: int, j: int)
    requires
        edge_connected(m, tolerance, i),
        grid_neighbours(m.width, m.height, i, j),
        matches_a_corner(m, tolerance, j),
    ensures
        edge_connected(m, tolerance, j),
{
    let p = choose|p: Seq<int>| #[trigger] is_edge_path(m, tolerance, p) && p.last() == i;
    lemma_extend_path(m, tolerance, p, j);
    assert(is_edge_path(m, tolerance, p.push(j)) && p.push(j).last() == j);
}

/// A corner-coloured border pixel is border-connected.
proof fn lemma_border_connected(m: RgbaModel, tolerance: u8, i: int)
    requires
        on_border(m.width, m.height, i),
        matches_a_corner(m, tolerance, i),
    ensures
        edge_connected(m, tolerance, i),
{
    let p = seq![i];
    assert(is_edge_path(m, tolerance, p));
    assert(p.last() == i);
}

/// Marks only ever get added, and every new mark is queued.
spec fn grows(v0: Seq<bool>, q0: Seq<usize>, v: Seq<bool>, q: Seq<usize>) -> bool {
    &&& v.len() == v0.len()
    &&& forall|i: int| 0 <= i < v0.len() && #[trigger] v0[i] ==> v[i]
    &&& forall|i: int| 0 <= i < v.len() && #[trigger] v[i] && !v0[i] ==> q.contains(i as usize)
    &&& forall|x: usize| #[trigger] q0.contains(x) ==> q.contains(x)
}

proof fn lemma_grows_step(
    v0: Seq<bool>,
    q0: Seq<usize>,
    v1: Seq<bool>,
    q1: Seq<usize>,
    v2: Seq<bool>,
    q2: Seq<usize>,
    idx: usize,
)
    requires
        grows(v0, q0, v1, q1),
        0 <= idx < v1.len(),
        (v2 == v1.update(idx as int, true) && q2 == q1.push(idx)) || (v2 == v1 && q2 == q1),
    ensures
        grows(v0, q0, v2, q2),
{
    if v2 == v1.update(idx as int, true) && q2 == q1.push(idx) {
        assert forall|x: usize| #[trigger] q1.contains(x) implies q2.contains(x) by {
            let k = choose|k: int| 0 <= k < q1.len() && q1[k] == x;
            assert(q2[k] == x);
        }
        assert(q2[q2.len() - 1] == idx);
        assert(q2.contains(idx));
        assert forall|x: usize| #[trigger] q0.contains(x) implies q2.contains(x) by {
            assert(q1.contains(x));
        }
        assert forall|i: int| 0 <= i < v2.len() && #[trigger] v2[i] && !v0[i] implies q2.contains(
            i as usize,
        ) by {
            if i != idx {
                assert(v1[i]);
                assert(q1.contains(i as usize));
            }
        }
        assert forall|i: int| 0 <= i < v0.len() && #[trigger] v0[i] implies v2[i] by {
            assert(v1[i]);
        }
    }
}

/// The pixels of `image` that a flood fill from the border reaches through
/// corner-coloured neighbours, and how many there are.
fn edge_background_fill(image: &RgbaBuffer, tolerance: u8) -> (r: (Vec<bool>, usize))
    requires
        image@.width > 0,
        image@.height > 0,
    ensures
        r.0@ == edge_background(image@, tolerance),
        r.1 == count_true(r.0@),
{
    let ghost m = image@;
    image.check_well_formed();
    let (w, h) = image.dimensions();
    let n = image.pixel_count();
    let wu = w as usize;
    proof {
        assert((w as int) <= (w as int) * (h as int)) by (nonlinear_arith)
            requires
                h >= 1,
                w >= 0,
        ;
    }
    let mut corners: Vec<[u8; 3]> = Vec::new();
    let p0 = image.get_pixel(0, 0);
    corners.push([p0[0], p0[1], p0[2]]);
    let p1 = image.get_pixel(w - 1, 0);
    corners.push([p1[0], p1[1], p1[2]]);
    let p2 = image.get_pixel(0, h - 1);
    corners.push([p2[0], p2[1], p2[2]]);
    let p3 = image.get_pixel(w - 1, h - 1);
    corners.push([p3[0], p3[1], p3[2]]);
    proof {
        assert forall|k: int, c: int| 0 <= k < 4 && 0 <= c < 3 implies #[trigger] corners@[k][c]
            == m.ch(corner_index(m, k), c) by {
            if k == 0 {
                assert(p0[c] == m.ch(m.index_of(0, 0), c));
            } else if k == 1 {
                assert(p1[c] == m.ch(m.index_of(w - 1, 0), c));
            } else if k == 2 {
                assert(p2[c] == m.ch(m.index_of(0, h - 1), c));
            } else {
                assert(p3[c] == m.ch(m.index_of(w - 1, h - 1), c));
            }
        }
    }
    let mut visited: Vec<bool> = Vec::new();
    while visited.len() < n
        invariant
            visited@.len() <= n,
            forall|i: int| 0 <= i < visited@.len() ==> !#[trigger] visited@[i],
        decreases n - visited@.len(),
    {
        visited.push(false);
    }
    proof {
        lemma_count_true_all_false(visited@);
    }
    let mut queue: VecDeque<usize> = VecDeque::new();

    // Seed the fill with the corner-coloured pixels of the first and last rows.
    let mut x: usize = 0;
    while x < wu
        invariant
            corners_of(m, corners@),
            m == image@,
            n == m.pixel_count(),
            wu == m.width,
            0 < wu <= n,
            4 * n <= usize::MAX,
            x <= wu,
            fill_state(m, tolerance, visited@, queue@, 0),
            forall|i: int| 0 <= i < visited@.len() && #[trigger] visited@[i] ==> queue@.contains(
                i as usize,
            ),
            forall|xx: int|
                0 <= xx < x ==> (matches_a_corner(m, tolerance, xx) ==> #[trigger] visited@[xx]),
            forall|xx: int|
                0 <= xx < x ==> (matches_a_corner(m, tolerance, n - wu + xx)
                    ==> #[trigger] visited@[n - wu + xx]),
        decreases wu - x,
    {
        let ghost v0 = visited@;
        let ghost q0 = queue@;
        proof {
            if matches_a_corner(m, tolerance, x as int) {
                lemma_border_connected(m, tolerance, x as int);
            }
        }
        visit(image, &corners, tolerance, x, &mut visited, &mut queue, Ghost(0));
        let bottom = n - wu + x;
        proof {
            if matches_a_corner(m, tolerance, bottom as int) {
                lemma_border_connected(m, tolerance, bottom as int);
            }
        }
        let ghost v1 = visited@;
        let ghost q1 = queue@;
        visit(image, &corners, tolerance, bottom, &mut visited, &mut queue, Ghost(0));
        proof {
            assert(grows(v0, q0, v0, q0));
            lemma_grows_step(v0, q0, v0, q0, v1, q1, x);
            lemma_grows_step(v0, q0, v1, q1, visited@, queue@, bottom);
            assert forall|i: int| 0 <= i < visited@.len() && #[trigger] visited@[i] implies queue@.contains(
                i as usize,
            ) by {
                if v0[i] {
                    assert(q0.contains(i as usize));
                }
            }
        }
        x = x + 1;
    }

    // Seed with the first and last columns.
    let mut y: usize = 0;
    while y < h as usize
        invariant
            corners_of(m, corners@),
            m == image@,
            n == m.pixel_count(),
            wu == m.width,
            0 < wu <= n,
            y <= m.height,
            h == m.height,
            4 * n <= usize::MAX,
            fill_state(m, tolerance, visited@, queue@, 0),
            forall|i: int| 0 <= i < visited@.len() && #[trigger] visited@[i] ==> queue@.contains(
                i as usize,
            ),
            forall|xx: int|
                0 <= xx < wu ==> (matches_a_corner(m, tolerance, xx) ==> #[trigger] visited@[xx]),
            forall|xx: int|
                0 <= xx < wu ==> (matches_a_corner(m, tolerance, n - wu + xx)
                    ==> #[trigger] visited@[n - wu + xx]),
            forall|yy: int|
                0 <= yy < y ==> (matches_a_corner(m, tolerance, row_start(wu as int, yy))
                    ==> visited@[row_start(wu as int, yy)]),
            forall|yy: int|
                0 <= yy < y ==> (matches_a_corner(m, tolerance, row_start(wu as int, yy) + wu - 1)
                    ==> visited@[row_start(wu as int, yy) + wu - 1]),
        decreases m.height - y,
    {
        let ghost v0 = visited@;
        let ghost q0 = queue@;
        proof {
            lemma_pixel_index(wu as int, m.height as int, 0, y as int);
            lemma_pixel_index(wu as int, m.height as int, wu - 1, y as int);
            assert((y as int) * (wu as int) <= (y as int) * (wu as int) + (wu - 1));
        }
        let left = y * wu;
        let right = y * wu + wu - 1;
        proof {
            lemma_row_start_mod(wu as int, y as int);
            assert(left == row_start(wu as int, y as int));
            if matches_a_corner(m, tolerance, left as int) {
                lemma_border_connected(m, tolerance, left as int);
            }
            if matches_a_corner(m, tolerance, right as int) {
                lemma_border_connected(m, tolerance, right as int);
            }
        }
        visit(image, &corners, tolerance, left, &mut visited, &mut queue, Ghost(0));
        let ghost v1 = visited@;
        let ghost q1 = queue@;
        visit(image, &corners, tolerance, right, &mut visited, &mut queue, Ghost(0));
        proof {
            assert(grows(v0, q0, v0, q0));
            lemma_grows_step(v0, q0, v0, q0, v1, q1, left);
            lemma_grows_step(v0, q0, v1, q1, visited@, queue@, right);
            assert forall|i: int| 0 <= i < visited@.len() && #[trigger] visited@[i] implies queue@.contains(
                i as usize,
            ) by {
                if v0[i] {
                    assert(q0.contains(i as usize));
                }
            }
            assert forall|yy: int|
                0 <= yy < y + 1 && matches_a_corner(m, tolerance, row_start(wu as int, yy)) implies
                visited@[row_start(wu as int, yy)] by {
                lemma_pixel_index(wu as int, m.height as int, 0, yy);
                if yy < y {
                    assert(matches_a_corner(m, tolerance, row_start(wu as int, yy)) ==> v0[row_start(
                        wu as int,
                        yy,
                    )]);
                } else {
                    assert(row_start(wu as int, yy) == left);
                    assert(v1[left as int]);
                }
            }
            assert forall|yy: int|
                0 <= yy < y + 1 && matches_a_corner(m, tolerance, row_start(wu as int, yy) + wu - 1) implies
                visited@[row_start(wu as int, yy) + wu - 1] by {
                lemma_pixel_index(wu as int, m.height as int, wu - 1, yy);
                if yy < y {
                    assert(matches_a_corner(m, tolerance, row_start(wu as int, yy) + wu - 1)
                        ==> v0[row_start(wu as int, yy) + wu - 1]);
                } else {
                    assert(row_start(wu as int, yy) + wu - 1 == right);
                }
            }
        }
        y = y + 1;
    }
    proof {
        assert forall|i: int| on_border(m.width, m.height, i) && matches_a_corner(m, tolerance, i) implies #[trigger] visited@[i] by {
            lemma_border_cases(wu as int, m.height as int, i);
            if i < wu {
                assert(visited@[i]);
            } else if i >= n - wu {
                assert(visited@[n - wu + (i - (n - wu))]);
            } else if i % (wu as int) == 0 {
                assert(visited@[row_start(wu as int, i / (wu as int))]);
            } else {
                assert(visited@[row_start(wu as int, i / (wu as int)) + wu - 1]);
            }
        }
        assert forall|i: int, j: int|
            #![trigger visited@[i], grid_neighbours(m.width, m.height, i, j)]
            0 <= i < visited@.len() && visited@[i] && !queue@.contains(i as usize) && grid_neighbours(
                m.width,
                m.height,
                i,
                j,
            ) && matches_a_corner(m, tolerance, j) implies visited@[j] by {}
    }

    // Breadth-first fill.
    let mut count: usize = 0;
    while queue.len() > 0
        invariant
            corners_of(m, corners@),
            m == image@,
            n == m.pixel_count(),
            wu == m.width,
            0 < wu <= n,
            4 * n <= usize::MAX,
            fill_state(m, tolerance, visited@, queue@, count as nat),
            closed_outside_queue(m, tolerance, visited@, queue@),
            forall|i: int|
                on_border(m.width, m.height, i) && matches_a_corner(m, tolerance, i)
                    ==> #[trigger] visited@[i],
        decreases n - count,
    {
        proof {
            lemma_count_true_bound(visited@);
        }
        let ghost q_before = queue@;
        let idx = queue.pop_front().unwrap();
        count = count + 1;
        let ghost v0 = visited@;
        let ghost q0 = queue@;
        proof {
            assert(q_before[0] == idx);
            assert(!q0.contains(idx)) by {
                if q0.contains(idx) {
                    let k = choose|k: int| 0 <= k < q0.len() && q0[k] == idx;
                    assert(q_before[0] == q_before[k + 1]);
                }
            }
            assert(fill_state(m, tolerance, v0, q0, count as nat)) by {
                assert forall|k: int| 0 <= k < q0.len() implies #[trigger] q0[k] < v0.len() && v0[q0[k] as int] by {
                    assert(q_before[k + 1] == q0[k]);
                }
                assert forall|a: int, b: int| 0 <= a < b < q0.len() implies #[trigger] q0[a] != #[trigger] q0[b] by {
                    assert(q_before[a + 1] == q0[a]);
                    assert(q_before[b + 1] == q0[b]);
                }
            }
            assert(edge_connected(m, tolerance, idx as int));
            assert(grows(v0, q0, v0, q0));
            lemma_mod_bound(idx as int, wu as int);
        }
        let x = idx % wu;
        proof {
            assert(idx < n);
            assert(x == (idx as int) % (wu as int));
            assert(0 < m.height) by (nonlinear_arith)
                requires
                    0 <= idx < m.width * m.height,
            ;
        }
        if x > 0 {
            let ghost v1 = visited@;
            let ghost q1 = queue@;
            proof {
                lemma_horizontal_neighbours(wu as int, m.height as int, idx as int);
                if matches_a_corner(m, tolerance, idx - 1) {
                    lemma_neighbour_connected(m, tolerance, idx as int, idx - 1);
                }
            }
            visit(image, &corners, tolerance, idx - 1, &mut visited, &mut queue, Ghost(count as nat));
            proof {
                lemma_grows_step(v0, q0, v1, q1, visited@, queue@, (idx - 1) as usize);
            }
        }
        if x + 1 < wu {
            let ghost v1 = visited@;
            let ghost q1 = queue@;
            proof {
                lemma_horizontal_neighbours(wu as int, m.height as int, idx as int);
                if matches_a_corner(m, tolerance, idx + 1) {
                    lemma_neighbour_connected(m, tolerance, idx as int, idx + 1);
                }
            }
            visit(image, &corners, tolerance, idx + 1, &mut visited, &mut queue, Ghost(count as nat));
            proof {
                lemma_grows_step(v0, q0, v1, q1, visited@, queue@, (idx + 1) as usize);
            }
        }
        if idx >= wu {
            let ghost v1 = visited@;
            let ghost q1 = queue@;
            proof {
                if matches_a_corner(m, tolerance, idx - wu) {
                    lemma_neighbour_connected(m, tolerance, idx as int, idx - wu);
                }
            }
            visit(image, &corners, tolerance, idx - wu, &mut visited, &mut queue, Ghost(count as nat));
            proof {
                lemma_grows_step(v0, q0, v1, q1, visited@, queue@, (idx - wu) as usize);
            }
        }
        if idx + wu < n {
            let ghost v1 = visited@;
            let ghost q1 = queue@;
            proof {
                if matches_a_corner(m, tolerance, idx + wu) {
                    lemma_neighbour_connected(m, tolerance, idx as int, idx + wu);
                }
            }
            visit(image, &corners, tolerance, idx + wu, &mut visited, &mut queue, Ghost(count as nat));
            proof {
                lemma_grows_step(v0, q0, v1, q1, visited@, queue@, (idx + wu) as usize);
            }
        }
        proof {
            let v = visited@;
            let q = queue@;
            assert(grows(v0, q0, v, q));
            assert forall|i: int, j: int|
                #![trigger v[i], grid_neighbours(m.width, m.height, i, j)]
                0 <= i < v.len() && v[i] && !q.contains(i as usize) && grid_neighbours(
                    m.width,
                    m.height,
                    i,
                    j,
                ) && matches_a_corner(m, tolerance, j) implies v[j] by {
                if i == idx {
                } else {
                    assert(v0[i]);
                    assert(!q0.contains(i as usize));
                    assert(!q_before.contains(i as usize)) by {
                        if q_before.contains(i as usize) {
                            let k = choose|k: int| 0 <= k < q_before.len() && q_before[k] == i as usize;
                            assert(k != 0);
                            assert(q0[k - 1] == i as usize);
                        }
                    }
                    assert(v0[j]);
                }
            }
            assert forall|i: int|
                on_border(m.width, m.height, i) && matches_a_corner(m, tolerance, i) implies #[trigger] v[i] by {
                assert(v0[i]);
            }
        }
    }
    proof {
        assert(queue@.len() == 0);
        let bg = edge_background(m, tolerance);
        assert forall|i: int| 0 <= i < n implies visited@[i] == #[trigger] bg[i] by {
            if edge_connected(m, tolerance, i) {
                let p = choose|p: Seq<int>| #[trigger] is_edge_path(m, tolerance, p) && p.last() == i;
                assert forall|a: int, b: int|
                    #![trigger visited@[a], grid_neighbours(m.width, m.height, a, b)]
                    0 <= a < visited@.len() && visited@[a] && grid_neighbours(m.width, m.height, a, b)
                        && matches_a_corner(m, tolerance, b) implies visited@[b] by {
                    assert(!queue@.contains(a as usize));
                }
                lemma_closed_covers_paths(m, tolerance, visited@, p);
            }
        }
        assert(visited@ =~= bg);
    }
    (visited, count)
}

/// The index of the first pixel of row `y` in a grid `w` wide.
pub open spec fn row_start(w: int, y: int) -> int {
    y * w
}

proof fn lemma_row_start_mod(w: int, y: int)
    requires
        0 < w,
        0 <= y,
    ensures
        (y * w) % w == 0,
        (y * w + w - 1) % w == w - 1,
        (y * w) / w == y,
        (y * w + w - 1) / w == y,
{
    vstd::arithmetic::div_mod::lemma_fundamental_div_mod_converse(y * w, w, y, 0);
    vstd::arithmetic::div_mod::lemma_fundamental_div_mod_converse(y * w + w - 1, w, y, w - 1);
}

proof fn lemma_horizontal_neighbours(w: int, h: int, i: int)
    requires
        0 < w,
        0 < h,
        0 <= i < w * h,
    ensures
        i % w != 0 ==> i >= 1,
        i % w != w - 1 ==> i + 1 < w * h,
{
    lemma_index_split(w, h, i);
    let y = i / w;
    assert((y + 1) * w <= h * w) by (nonlinear_arith)
        requires
            0 <= y < h,
            0 < w,
    ;
    assert((y + 1) * w == y * w + w) by (nonlinear_arith);
    assert(h * w == w * h) by (nonlinear_arith);
}

proof fn lemma_mod_bound(i: int, w: int)
    requires
        0 < w,
        0 <= i,
    ensures
        0 <= i % w < w,
{
}

/// A border pixel is in the first or last row, or is `row_start(w, y)` or
/// `row_start(w, y) + w - 1` for its row `y`.
proof fn lemma_border_cases(w: int, h: int, i: int)
    requires
        0 < w,
        0 < h,
        0 <= i < w * h,
    ensures
        i % w == 0 ==> i == row_start(w, i / w) && 0 <= i / w < h,
        i % w == w - 1 ==> i == row_start(w, i / w) + w - 1 && 0 <= i / w < h,
{
    lemma_index_split(w, h, i);
}

// ---------------------------------------------------------------------------
// Alpha edits by mask
// ---------------------------------------------------------------------------

/// Sets alpha to zero wherever `mask` holds; colours stay as they are.
fn clear_alpha_where(image: &mut RgbaBuffer, mask: &Vec<bool>)
    requires
        mask@.len() == old(image)@.pixel_count(),
    ensures
        final(image)@.same_shape(old(image)@),
        final(image)@.bytes.len() == old(image)@.bytes.len(),
        forall|i: int, c: int|
            0 <= i < old(image)@.pixel_count() && 0 <= c < 3 ==> #[trigger] final(image)@.ch(i, c)
                == old(image)@.ch(i, c),
        forall|i: int|
            0 <= i < old(image)@.pixel_count() ==> #[trigger] final(image)@.alpha(i) == if mask@[i] {
                0
            } else {
                old(image)@.alpha(i)
            },
{
    let n = image.pixel_count();
    let mut i: usize = 0;
    while i < n
        invariant
            n == old(image)@.pixel_count(),
            mask@.len() == n,
            i <= n,
            image@.same_shape(old(image)@),
            image@.bytes.len() == old(image)@.bytes.len(),
            forall|j: int, c: int|
                0 <= j < n && 0 <= c < 3 ==> #[trigger] image@.ch(j, c) == old(image)@.ch(j, c),
            forall|j: int|
                0 <= j < n ==> #[trigger] image@.alpha(j) == if j < i && mask@[j] {
                    0
                } else {
                    old(image)@.alpha(j)
                },
        decreases n - i,
    {
        let ghost prev = image@;
        if mask[i] {
            image.set_channel(i, 3, 0);
        }
        proof {
            assert forall|j: int| 0 <= j < n implies #[trigger] image@.alpha(j) == if j < i + 1
                && mask@[j] {
                0
            } else {
                old(image)@.alpha(j)
            } by {
                assert(prev.alpha(j) == prev.ch(j, 3));
            }
        }
        i = i + 1;
    }
}

/// Makes the background transparent: every pixel that a flood fill from the
/// image border reaches through pixels within `tolerance` of one of the four
/// corner colours gets alpha zero. Returns how many pixels were cleared.
pub fn smart_edge_remove(image: &mut RgbaBuffer, tolerance: u8) -> (count: usize)
    ensures
        final(image)@.same_shape(old(image)@),
        final(image)@.bytes.len() == old(image)@.bytes.len(),
        forall|i: int, c: int|
            0 <= i < old(image)@.pixel_count() && 0 <= c < 3 ==> #[trigger] final(image)@.ch(i, c)
                == old(image)@.ch(i, c),
        forall|i: int|
            0 <= i < old(image)@.pixel_count() ==> #[trigger] final(image)@.alpha(i) == if edge_connected(
                old(image)@,
                tolerance,
                i,
            ) {
                0
            } else {
                old(image)@.alpha(i)
            },
        count == count_true(edge_background(old(image)@, tolerance)),
{
    let (w, h) = image.dimensions();
    if w == 0 || h == 0 {
        proof {
            let wn = old(image)@.width;
            let hn = old(image)@.height;
            assert(wn * hn == 0) by (nonlinear_arith)
                requires
                    wn == 0 || hn == 0,
            ;
            assert(count_true(edge_background(old(image)@, tolerance)) == 0);
        }
        return 0;
    }
    let (visited, count) = edge_background_fill(&*image, tolerance);
    clear_alpha_where(image, &visited);
    count
}

/// The pixels of `m` within `tolerance` of the colour `picked`.
pub open spec fn picked_color_mask(m: RgbaModel, picked: [u8; 3], tolerance: u8) -> Seq<bool> {
    Seq::new(
        m.pixel_count(),
        |i: int| near_color(m, i, picked[0] as int, picked[1] as int, picked[2] as int, tolerance),
    )
}

/// Pixel `i` has exactly the colour `(r, g, b)`.
pub open spec fn has_rgb(m: RgbaModel, i: int, r: int, g: int, b: int) -> bool {
    m.ch(i, 0) == r && m.ch(i, 1) == g && m.ch(i, 2) == b
}

proof fn lemma_same_colour_is_near(m: RgbaModel, i: int, r: int, g: int, b: int, tolerance: u8)
    requires
        has_rgb(m, i, r, g, b),
    ensures
        near_color(m, i, r, g, b, tolerance),
{
    let t = tolerance as int;
    let sq = sq_distance(m.ch(i, 0) as int, m.ch(i, 1) as int, m.ch(i, 2) as int, r, g, b);
    assert(sq == 0) by (nonlinear_arith)
        requires
            sq == (m.ch(i, 0) - r) * (m.ch(i, 0) - r) + (m.ch(i, 1) - g) * (m.ch(i, 1) - g) + (m.ch(i, 2)
                - b) * (m.ch(i, 2) - b),
            m.ch(i, 0) == r,
            m.ch(i, 1) == g,
            m.ch(i, 2) == b,
    ;
    assert(0 <= t * t * 299_290_035) by (nonlinear_arith);
    assert(within_tolerance(sq, tolerance));
}

/// `smart_edge_remove` clears every border pixel within `tolerance` of the
/// colour of any of the four corners (and what joins it through such
/// pixels): here, such a border pixel belongs to the background it clears.
pub proof fn law_border_pixel_near_any_corner_is_background(m: RgbaModel, tolerance: u8, k: int, i: int)
    requires
        m.well_formed(),
        0 <= k < 4,
        on_border(m.width, m.height, i),
        near_pixel(m, i, corner_index(m, k), tolerance),
    ensures
        edge_connected(m, tolerance, i),
        edge_background(m, tolerance)[i],
{
    let p = seq![i];
    assert(matches_a_corner(m, tolerance, i));
    assert(is_edge_path(m, tolerance, p));
    assert(p.last() == i);
}

/// Each corner of a non-empty image lies on its border and has its own
/// colour, so `smart_edge_remove` always clears all four corners.
pub proof fn law_corners_are_background(m: RgbaModel, tolerance: u8, k: int)
    requires
        m.well_formed(),
        m.width > 0,
        m.height > 0,
        0 <= k < 4,
    ensures
        edge_connected(m, tolerance, corner_index(m, k)),
        edge_background(m, tolerance)[corner_index(m, k)],
{
    let w = m.width as int;
    let h = m.height as int;
    assert((h - 1) * w == w * h - w) by (nonlinear_arith);
    assert(w * h >= w) by (nonlinear_arith)
        requires
            h >= 1,
            w >= 1,
    ;
    let c = corner_index(m, k);
    assert(on_border(m.width, m.height, c));
    lemma_same_colour_is_near(m, c, m.ch(c, 0) as int, m.ch(c, 1) as int, m.ch(c, 2) as int, tolerance);
    law_border_pixel_near_any_corner_is_background(m, tolerance, k, c);
}

/// `remove_picked_color` clears every pixel whose red, green and blue are
/// those of `picked`, whatever the tolerance.
pub proof fn law_picked_colour_itself_is_cleared(m: RgbaModel, picked: [u8; 3], tolerance: u8, i: int)
    requires
        0 <= i < m.pixel_count(),
        has_rgb(m, i, picked[0] as int, picked[1] as int, picked[2] as int),
    ensures
        picked_color_mask(m, picked, tolerance)[i],
{
    lemma_same_colour_is_near(m, i, picked[0] as int, picked[1] as int, picked[2] as int, tolerance);
}

proof fn lemma_channel_within_twice(d: int, rest: int, t: int)
    requires
        0 <= t,
        0 <= rest,
        (d * d + rest) * 100_000_000 <= t * t * 299_290_035,
    ensures
        -2 * t <= d <= 2 * t,
{
    assert(d * d * 100_000_000 <= t * t * 299_290_035) by (nonlinear_arith)
        requires
            (d * d + rest) * 100_000_000 <= t * t * 299_290_035,
            0 <= rest,
    ;
    let dd = d * d;
    let tt = t * t;
    assert(tt >= 0) by (nonlinear_arith)
        requires
            tt == t * t,
    ;
    if d > 2 * t {
        assert(dd > 4 * tt) by (nonlinear_arith)
            requires
                d > 2 * t,
                t >= 0,
                dd == d * d,
                tt == t * t,
        ;
    }
    if d < -2 * t {
        assert(dd > 4 * tt) by (nonlinear_arith)
            requires
                d < -2 * t,
                t >= 0,
                dd == d * d,
                tt == t * t,
        ;
    }
}

/// A pixel that `remove_picked_color` clears is close to `picked` channel by
/// channel: its red differs from `picked[0]`, its green from `picked[1]` and
/// its blue from `picked[2]` by at most twice the tolerance each; with
/// tolerance zero only the picked colour itself is cleared.
pub proof fn law_cleared_pixels_are_near_the_picked_colour(m: RgbaModel, picked: [u8; 3], tolerance: u8, i: int)
    requires
        0 <= i < m.pixel_count(),
        picked_color_mask(m, picked, tolerance)[i],
    ensures
        forall|c: int| 0 <= c < 3 ==> -2 * tolerance <= #[trigger] m.ch(i, c) - picked[c] <= 2 * tolerance,
        tolerance == 0 ==> has_rgb(m, i, picked[0] as int, picked[1] as int, picked[2] as int),
{
    let t = tolerance as int;
    let dr = m.ch(i, 0) - picked[0];
    let dg = m.ch(i, 1) - picked[1];
    let db = m.ch(i, 2) - picked[2];
    assert(near_color(m, i, picked[0] as int, picked[1] as int, picked[2] as int, tolerance));
    assert(dg * dg + db * db >= 0 && dr * dr + db * db >= 0 && dr * dr + dg * dg >= 0) by (nonlinear_arith);
    lemma_channel_within_twice(dr, dg * dg + db * db, t);
    assert((dg * dg + (dr * dr + db * db)) == dr * dr + dg * dg + db * db);
    lemma_channel_within_twice(dg, dr * dr + db * db, t);
    assert((db * db + (dr * dr + dg * dg)) == dr * dr + dg * dg + db * db);
    lemma_channel_within_twice(db, dr * dr + dg * dg, t);
}

/// Makes every pixel within `tolerance` of `picked` transparent, wherever it
/// is. Returns how many pixels matched.
pub fn remove_picked_color(image: &mut RgbaBuffer, picked: [u8; 3], tolerance: u8) -> (count: usize)
    ensures
        final(image)@.same_shape(old(image)@),
        final(image)@.bytes.len() == old(image)@.bytes.len(),
        forall|i: int, c: int|
            0 <= i < old(image)@.pixel_count() && 0 <= c < 3 ==> #[trigger] final(image)@.ch(i, c)
                == old(image)@.ch(i, c),
        forall|i: int|
            0 <= i < old(image)@.pixel_count() ==> #[trigger] final(image)@.alpha(i) == if picked_color_mask(
                old(image)@,
                picked,
                tolerance,
            )[i] {
                0
            } else {
                old(image)@.alpha(i)
            },
        count == count_true(picked_color_mask(old(image)@, picked, tolerance)),
{
    let ghost m = image@;
    let ghost full = picked_color_mask(m, picked, tolerance);
    let n = image.pixel_count();
    let mut mask: Vec<bool> = Vec::new();
    let mut count: usize = 0;
    let mut i: usize = 0;
    while i < n
        invariant
            m == image@,
            n == m.pixel_count(),
            full == picked_color_mask(m, picked, tolerance),
            i <= n,
            mask@ == full.subrange(0, i as int),
            count == count_true(mask@),
        decreases n - i,
    {
        proof {
            lemma_count_true_bound(mask@);
        }
        let p = image.pixel_at(i);
        let hit = color_within_tolerance(p, picked, tolerance);
        mask.push(hit);
        if hit {
            count = count + 1;
        }
        proof {
            assert(mask@.drop_last() =~= full.subrange(0, i as int));
            assert(mask@ =~= full.subrange(0, i + 1));
        }
        i = i + 1;
    }
    proof {
        assert(mask@ =~= full);
    }
    clear_alpha_where(image, &mask);
    count
}

/// Makes alpha binary: below `threshold` becomes 0, the rest becomes 255.
pub fn threshold_alpha(image: &mut RgbaBuffer, threshold: u8)
    ensures
        final(image)@.same_shape(old(image)@),
        final(image)@.bytes.len() == old(image)@.bytes.len(),
        forall|i: int, c: int|
            0 <= i < old(image)@.pixel_count() && 0 <= c < 3 ==> #[trigger] final(image)@.ch(i, c)
                == old(image)@.ch(i, c),
        forall|i: int|
            0 <= i < old(image)@.pixel_count() ==> #[trigger] final(image)@.alpha(i) == if old(
                image,
            )@.alpha(i) < threshold {
                0u8
            } else {
                255u8
            },
{
    let n = image.pixel_count();
    let mut i: usize = 0;
    while i < n
        invariant
            n == old(image)@.pixel_count(),
            i <= n,
            image@.same_shape(old(image)@),
            image@.bytes.len() == old(image)@.bytes.len(),
            forall|j: int, c: int|
                0 <= j < n && 0 <= c < 3 ==> #[trigger] image@.ch(j, c) == old(image)@.ch(j, c),
            forall|j: int|
                0 <= j < n ==> #[trigger] image@.alpha(j) == if j < i {
                    if old(image)@.alpha(j) < threshold {
                        0u8
                    } else {
                        255u8
                    }
                } else {
                    old(image)@.alpha(j)
                },
        decreases n - i,
    {
        let a = image.channel_at(i, 3);
        let v: u8 = if a < threshold {
            0
        } else {
            255
        };
        let ghost prev = image@;
        image.set_channel(i, 3, v);
        proof {
            assert forall|j: int| 0 <= j < n implies #[trigger] image@.alpha(j) == if j < i + 1 {
                if old(image)@.alpha(j) < threshold {
                    0u8
                } else {
                    255u8
                }
            } else {
                old(image)@.alpha(j)
            } by {
                assert(prev.alpha(j) == prev.ch(j, 3));
            }
        }
        i = i + 1;
    }
}

// ---------------------------------------------------------------------------
// Alpha softening
// ---------------------------------------------------------------------------

/// Sum of the alpha values of row `y`, columns `x0 .. x1`.
pub open spec fn row_alpha_sum(m: RgbaModel, y: int, x0: int, x1: int) -> int
    decreases x1 - x0,
{
    if x1 <= x0 {
        0
    } else {
        row_alpha_sum(m, y, x0, x1 - 1) + m.alpha(m.index_of(x1 - 1, y)) as int
    }
}

/// Sum of the alpha values in columns `x0 .. x1` of rows `y0 .. y1`.
pub open spec fn alpha_sum(m: RgbaModel, x0: int, x1: int, y0: int, y1: int) -> int
    decreases y1 - y0,
{
    if y1 <= y0 {
        0
    } else {
        alpha_sum(m, x0, x1, y0, y1 - 1) + row_alpha_sum(m, y1 - 1, x0, x1)
    }
}

/// First coordinate of a window of radius `r` around `c`, cut off at zero.
pub open spec fn window_start(c: int, r: int) -> int {
    if c >= r {
        c - r
    } else {
        0
    }
}

/// One past the last coordinate of a window of radius `r` around `c`, cut off
/// at `limit`.
pub open spec fn window_end(c: int, r: int, limit: int) -> int {
    if c + r + 1 <= limit {
        c + r + 1
    } else {
        limit
    }
}

/// `s / n` rounded to the nearest integer, halves rounded up.
pub open spec fn round_div(s: int, n: int) -> int {
    s / n + if 2 * (s % n) >= n {
        1int
    } else {
        0int
    }
}

/// The alpha that a box blur of radius `r` gives the pixel at `(x, y)`: the
/// rounded mean alpha of the window of radius `r` around it, cut off at the
/// image edges.
pub open spec fn blurred_alpha(m: RgbaModel, x: int, y: int, r: int) -> int {
    let x0 = window_start(x, r);
    let x1 = window_end(x, r, m.width as int);
    let y0 = window_start(y, r);
    let y1 = window_end(y, r, m.height as int);
    round_div(alpha_sum(m, x0, x1, y0, y1), (x1 - x0) * (y1 - y0))
}

proof fn lemma_row_split(m: RgbaModel, y: int, a: int, b: int, c: int)
    requires
        a <= b <= c,
    ensures
        row_alpha_sum(m, y, a, c) == row_alpha_sum(m, y, a, b) + row_alpha_sum(m, y, b, c),
    decreases c - b,
{
    if c > b {
        lemma_row_split(m, y, a, b, c - 1);
    }
}

proof fn lemma_row_bound(m: RgbaModel, y: int, a: int, b: int)
    requires
        a <= b,
    ensures
        0 <= row_alpha_sum(m, y, a, b) <= 255 * (b - a),
    decreases b - a,
{
    if b > a {
        lemma_row_bound(m, y, a, b - 1);
    }
}

/// A block sum is the difference of two sums that start at column zero.
proof fn lemma_cols_from_zero(m: RgbaModel, x0: int, x1: int, y0: int, y1: int)
    requires
        0 <= x0 <= x1,
    ensures
        alpha_sum(m, x0, x1, y0, y1) == alpha_sum(m, 0, x1, y0, y1) - alpha_sum(m, 0, x0, y0, y1),
    decreases y1 - y0,
{
    if y1 > y0 {
        lemma_cols_from_zero(m, x0, x1, y0, y1 - 1);
        lemma_row_split(m, y1 - 1, 0, x0, x1);
    }
}

/// A block sum is the difference of two sums that start at row zero.
proof fn lemma_rows_from_zero(m: RgbaModel, x0: int, x1: int, y0: int, y1: int)
    requires
        0 <= y0 <= y1,
    ensures
        alpha_sum(m, x0, x1, y0, y1) == alpha_sum(m, x0, x1, 0, y1) - alpha_sum(m, x0, x1, 0, y0),
    decreases y1 - y0,
{
    if y1 > y0 {
        lemma_rows_from_zero(m, x0, x1, y0, y1 - 1);
    }
}

proof fn lemma_block_bound(m: RgbaModel, x0: int, x1: int, y0: int, y1: int)
    requires
        x0 <= x1,
        y0 <= y1,
    ensures
        0 <= alpha_sum(m, x0, x1, y0, y1) <= 255 * ((x1 - x0) * (y1 - y0)),
    decreases y1 - y0,
{
    if y1 > y0 {
        lemma_block_bound(m, x0, x1, y0, y1 - 1);
        lemma_row_bound(m, y1 - 1, x0, x1);
        let a = x1 - x0;
        let b = y1 - y0;
        assert(255 * (a * (b - 1)) + 255 * a == 255 * (a * b)) by (nonlinear_arith);
    }
}

/// The block sum of columns `x0 .. x1`, rows `y0 .. y1` from four prefix sums.
proof fn lemma_block_from_prefixes(m: RgbaModel, x0: int, x1: int, y0: int, y1: int)
    requires
        0 <= x0 <= x1,
        0 <= y0 <= y1,
    ensures
        alpha_sum(m, x0, x1, y0, y1) == (alpha_sum(m, 0, x1, 0, y1) - alpha_sum(m, 0, x1, 0, y0)) - (
        alpha_sum(m, 0, x0, 0, y1) - alpha_sum(m, 0, x0, 0, y0)),
{
    lemma_cols_from_zero(m, x0, x1, y0, y1);
    lemma_rows_from_zero(m, 0, x1, y0, y1);
    lemma_rows_from_zero(m, 0, x0, y0, y1);
}

proof fn lemma_round_div_bound(s: int, n: int)
    requires
        0 < n,
        0 <= s <= 255 * n,
    ensures
        0 <= round_div(s, n) <= 255,
        0 <= s / n <= 255,
        0 <= s % n < n,
{
    let q = s / n;
    let r = s % n;
    assert(s == q * n + r && 0 <= r < n) by (nonlinear_arith)
        requires
            0 < n,
            q == s / n,
            r == s % n,
    ;
    assert(0 <= q <= 255) by (nonlinear_arith)
        requires
            0 < n,
            0 <= r < n,
            s == q * n + r,
            0 <= s <= 255 * n,
    ;
    if q == 255 {
        assert(r == 0) by (nonlinear_arith)
            requires
                s == 255 * n + r,
                0 <= r,
                s <= 255 * n,
        ;
    }
}

/// A block without columns sums to zero.
proof fn lemma_no_columns(m: RgbaModel, x: int, y0: int, y1: int)
    ensures
        alpha_sum(m, x, x, y0, y1) == 0,
    decreases y1 - y0,
{
    if y1 > y0 {
        lemma_no_columns(m, x, y0, y1 - 1);
    }
}

/// With radius zero the blur keeps every alpha.
pub proof fn lemma_blur_radius_zero(m: RgbaModel, x: int, y: int)
    requires
        0 <= x < m.width,
        0 <= y < m.height,
    ensures
        blurred_alpha(m, x, y, 0) == m.alpha(m.index_of(x, y)),
{
    let a = m.alpha(m.index_of(x, y)) as int;
    assert(alpha_sum(m, x, x + 1, y, y) == 0);
    assert(row_alpha_sum(m, y, x, x) == 0);
    assert(row_alpha_sum(m, y, x, x + 1) == a);
    assert(alpha_sum(m, x, x + 1, y, y + 1) == a);
    assert(a / 1 == a && a % 1 == 0) by (nonlinear_arith);
    assert(round_div(a, 1) == a);
    assert(window_start(x, 0) == x);
    assert(window_end(x, 0, m.width as int) == x + 1);
    assert(window_end(y, 0, m.height as int) == y + 1);
    assert(((x + 1) - x) * ((y + 1) - y) == 1) by (nonlinear_arith);
}

/// The alpha that `soften_alpha` gives a pixel is the mean alpha of its
/// window, rounded to the nearest integer with halves rounded up: the window
/// spans the columns `x - r ..= x + r` and rows `y - r ..= y + r`, cut off at
/// the image edges, it is never empty, and with `n` its number of pixels and `s` their alpha
/// sum, the new alpha `b` satisfies `s - n/2 < b·n <= s + n/2`.
pub proof fn law_softened_alpha_is_rounded_window_mean(m: RgbaModel, x: int, y: int, r: int)
    requires
        0 <= x < m.width,
        0 <= y < m.height,
        0 <= r,
    ensures
        ({
            let x0 = window_start(x, r);
            let x1 = window_end(x, r, m.width as int);
            let y0 = window_start(y, r);
            let y1 = window_end(y, r, m.height as int);
            let n = (x1 - x0) * (y1 - y0);
            let s = alpha_sum(m, x0, x1, y0, y1);
            let b = blurred_alpha(m, x, y, r);
            &&& x0 == x - r || (x0 == 0 && x - r < 0)
            &&& x0 >= 0 && x0 >= x - r
            &&& x1 == x + r + 1 || (x1 == m.width && x + r + 1 > m.width)
            &&& x1 <= m.width && x1 <= x + r + 1
            &&& y0 == y - r || (y0 == 0 && y - r < 0)
            &&& y0 >= 0 && y0 >= y - r
            &&& y1 == y + r + 1 || (y1 == m.height && y + r + 1 > m.height)
            &&& y1 <= m.height && y1 <= y + r + 1
            &&& n > 0
            &&& 2 * s - n < 2 * b * n <= 2 * s + n
        }),
{
    let x0 = window_start(x, r);
    let x1 = window_end(x, r, m.width as int);
    let y0 = window_start(y, r);
    let y1 = window_end(y, r, m.height as int);
    let n = (x1 - x0) * (y1 - y0);
    let s = alpha_sum(m, x0, x1, y0, y1);
    assert(n > 0) by (nonlinear_arith)
        requires
            x1 - x0 > 0,
            y1 - y0 > 0,
            n == (x1 - x0) * (y1 - y0),
    ;
    let q = s / n;
    let rem = s % n;
    vstd::arithmetic::div_mod::lemma_fundamental_div_mod(s, n);
    assert(0 <= rem < n);
    let b = blurred_alpha(m, x, y, r);
    assert(b == q + if 2 * rem >= n { 1int } else { 0int });
    assert(s == n * q + rem);
    if 2 * rem >= n {
        assert(b * n == q * n + n) by (nonlinear_arith)
            requires
                b == q + 1,
        ;
    } else {
        assert(b * n == q * n) by (nonlinear_arith)
            requires
                b == q,
        ;
    }
    assert(n * q == q * n) by (nonlinear_arith);
    assert(2 * b * n == 2 * (b * n)) by (nonlinear_arith);
}

/// Replaces each alpha value by the rounded mean alpha of the
/// `(2 * radius + 1)`-wide square around it, cut off at the image edges.
/// Colours stay as they are; radius zero changes nothing.
pub fn soften_alpha(image: &mut RgbaBuffer, radius: u32)
    requires
        255 * old(image)@.pixel_count() <= u64::MAX,
    ensures
        final(image)@.same_shape(old(image)@),
        final(image)@.bytes.len() == old(image)@.bytes.len(),
        forall|i: int, c: int|
            0 <= i < old(image)@.pixel_count() && 0 <= c < 3 ==> #[trigger] final(image)@.ch(i, c)
                == old(image)@.ch(i, c),
        forall|x: int, y: int|
            0 <= x < old(image)@.width && 0 <= y < old(image)@.height ==> #[trigger] final(image)@.alpha(old(image)@.index_of(x, y))
                == blurred_alpha(old(image)@, x, y, radius as int),
{
    let ghost m = image@;
    image.check_well_formed();
    let (w, h) = image.dimensions();
    if w == 0 || h == 0 || radius == 0 {
        proof {
            assert forall|x: int, y: int| 0 <= x < m.width && 0 <= y < m.height implies #[trigger] image@.alpha(
                m.index_of(x, y),
            ) == blurred_alpha(m, x, y, radius as int) by {
                lemma_blur_radius_zero(m, x, y);
            }
        }
        return;
    }
    let wu = w as usize;
    let hu = h as usize;
    proof {
        assert((w as int) * (h as int) <= 255 * ((w as int) * (h as int))) by (nonlinear_arith)
            requires w >= 1, h >= 1;
    }

    // Prefix sums: integral[y][x] is the alpha sum of columns 0 .. x, rows 0 .. y.
    let mut integral: Vec<Vec<u64>> = Vec::new();
    let mut first: Vec<u64> = Vec::new();
    while first.len() <= wu
        invariant
            first@.len() <= wu + 1,
            forall|k: int| 0 <= k < first@.len() ==> #[trigger] first@[k] == 0,
        decreases wu + 1 - first@.len(),
    {
        first.push(0);
    }
    proof {
        assert forall|xx: int| 0 <= xx <= wu implies #[trigger] first@[xx] == alpha_sum(m, 0, xx, 0, 0) by {}
    }
    integral.push(first);
    let mut y: usize = 0;
    while y < hu
        invariant
            m == image@,
            wu == m.width,
            hu == m.height,
            0 < wu <= u32::MAX,
            0 < hu <= u32::MAX,
            255 * (m.width * m.height) <= u64::MAX,
            y <= hu,
            integral@.len() == y + 1,
            forall|yy: int| 0 <= yy <= y ==> (#[trigger] integral@[yy])@.len() == wu + 1,
            forall|yy: int, xx: int|
                0 <= yy <= y && 0 <= xx <= wu ==> #[trigger] integral@[yy]@[xx] == alpha_sum(
                    m,
                    0,
                    xx,
                    0,
                    yy,
                ),
        decreases hu - y,
    {
        let mut row: Vec<u64> = Vec::new();
        row.push(0);
        proof {
            lemma_no_columns(m, 0, 0, y + 1);
        }
        let mut row_sum: u64 = 0;
        let mut x: usize = 0;
        while x < wu
            invariant
                m == image@,
                wu == m.width,
                hu == m.height,
                0 < wu <= u32::MAX,
                hu <= u32::MAX,
                255 * (m.width * m.height) <= u64::MAX,
                y < hu,
                x <= wu,
                integral@.len() == y + 1,
                forall|yy: int| 0 <= yy <= y ==> (#[trigger] integral@[yy])@.len() == wu + 1,
                forall|yy: int, xx: int|
                    0 <= yy <= y && 0 <= xx <= wu ==> #[trigger] integral@[yy]@[xx] == alpha_sum(
                        m,
                        0,
                        xx,
                        0,
                        yy,
                    ),
                row_sum == row_alpha_sum(m, y as int, 0, x as int),
                row@.len() == x + 1,
                forall|xx: int| 0 <= xx <= x ==> #[trigger] row@[xx] == alpha_sum(m, 0, xx, 0, y + 1),
            decreases wu - x,
        {
            let i = image.index_of(x as u32, y as u32);
            let a = image.channel_at(i, 3);
            proof {
                lemma_block_bound(m, 0, x + 1, 0, y + 1);
                lemma_row_bound(m, y as int, 0, x + 1);
                assert(255 * ((x + 1) * (y + 1)) <= 255 * (m.width * m.height)) by (nonlinear_arith)
                    requires
                        x + 1 <= m.width,
                        y + 1 <= m.height,
                ;
                assert(255 * (x + 1) <= 255 * ((x + 1) * (y + 1))) by (nonlinear_arith)
                    requires
                        y >= 0,
                        x >= 0,
                ;
            }
            proof {
                assert(row_alpha_sum(m, y as int, 0, x + 1) == row_sum + a);
                assert(alpha_sum(m, 0, x + 1, 0, y + 1) == alpha_sum(m, 0, x + 1, 0, y as int)
                    + row_alpha_sum(m, y as int, 0, x + 1));
                lemma_block_bound(m, 0, x + 1, 0, y as int);
            }
            row_sum = row_sum + a as u64;
            let above = integral[y][x + 1];
            row.push(above + row_sum);
            x = x + 1;
        }
        integral.push(row);
        y = y + 1;
    }

    // Each pixel's alpha becomes the rounded mean of its window.
    let r = radius as u64;
    let mut y: usize = 0;
    while y < hu
        invariant
            m == old(image)@,
            wu == m.width,
            hu == m.height,
            0 < wu <= u32::MAX,
            0 < hu <= u32::MAX,
            r == radius,
            255 * (m.width * m.height) <= u64::MAX,
            y <= hu,
            integral@.len() == hu + 1,
            forall|yy: int| 0 <= yy <= hu ==> (#[trigger] integral@[yy])@.len() == wu + 1,
            forall|yy: int, xx: int|
                0 <= yy <= hu && 0 <= xx <= wu ==> #[trigger] integral@[yy]@[xx] == alpha_sum(
                    m,
                    0,
                    xx,
                    0,
                    yy,
                ),
            image@.same_shape(m),
            image@.bytes.len() == m.bytes.len(),
            forall|i: int, c: int|
                0 <= i < m.pixel_count() && 0 <= c < 3 ==> #[trigger] image@.ch(i, c) == m.ch(i, c),
            forall|xx: int, yy: int|
                0 <= xx < wu && 0 <= yy < hu ==> #[trigger] image@.alpha(m.index_of(xx, yy)) == if yy < y {
                    blurred_alpha(m, xx, yy, r as int)
                } else {
                    m.alpha(m.index_of(xx, yy)) as int
                },
        decreases hu - y,
    {
        let yw = y as u64;
        let y0: u64 = if yw >= r { yw - r } else { 0 };
        let y1: u64 = if yw + r + 1 <= hu as u64 { yw + r + 1 } else { hu as u64 };
        let mut x: usize = 0;
        while x < wu
            invariant
                m == old(image)@,
                wu == m.width,
                hu == m.height,
                0 < wu <= u32::MAX,
                0 < hu <= u32::MAX,
                r == radius,
                255 * (m.width * m.height) <= u64::MAX,
                y < hu,
                x <= wu,
                y0 == window_start(y as int, r as int),
                y1 == window_end(y as int, r as int, hu as int),
                integral@.len() == hu + 1,
                forall|yy: int| 0 <= yy <= hu ==> (#[trigger] integral@[yy])@.len() == wu + 1,
                forall|yy: int, xx: int|
                    0 <= yy <= hu && 0 <= xx <= wu ==> #[trigger] integral@[yy]@[xx] == alpha_sum(
                        m,
                        0,
                        xx,
                        0,
                        yy,
                    ),
                image@.same_shape(m),
                image@.bytes.len() == m.bytes.len(),
                forall|i: int, c: int|
                    0 <= i < m.pixel_count() && 0 <= c < 3 ==> #[trigger] image@.ch(i, c) == m.ch(i, c),
                forall|xx: int, yy: int|
                    0 <= xx < wu && 0 <= yy < hu ==> #[trigger] image@.alpha(m.index_of(xx, yy)) == if yy < y
                        || (yy == y && xx < x) {
                        blurred_alpha(m, xx, yy, r as int)
                    } else {
                        m.alpha(m.index_of(xx, yy)) as int
                    },
            decreases wu - x,
        {
            let xw = x as u64;
            let x0: u64 = if xw >= r { xw - r } else { 0 };
            let x1: u64 = if xw + r + 1 <= wu as u64 { xw + r + 1 } else { wu as u64 };
            let a = integral[y1 as usize][x1 as usize];
            let b = integral[y0 as usize][x1 as usize];
            let c = integral[y1 as usize][x0 as usize];
            let d = integral[y0 as usize][x0 as usize];
            proof {
                lemma_rows_from_zero(m, 0, x1 as int, y0 as int, y1 as int);
                lemma_rows_from_zero(m, 0, x0 as int, y0 as int, y1 as int);
                lemma_block_bound(m, 0, x1 as int, y0 as int, y1 as int);
                lemma_block_bound(m, 0, x0 as int, y0 as int, y1 as int);
                lemma_block_bound(m, x0 as int, x1 as int, y0 as int, y1 as int);
                lemma_block_from_prefixes(m, x0 as int, x1 as int, y0 as int, y1 as int);
                lemma_cols_from_zero(m, x0 as int, x1 as int, y0 as int, y1 as int);
            }
            let sum: u64 = (a - b) - (c - d);
            proof {
                assert(0 < (x1 - x0) * (y1 - y0) <= m.width * m.height) by (nonlinear_arith)
                    requires
                        0 < x1 - x0 <= m.width,
                        0 < y1 - y0 <= m.height,
                ;
            }
            let n: u64 = (x1 - x0) * (y1 - y0);
            proof {
                lemma_round_div_bound(sum as int, n as int);
            }
            let q = sum / n;
            let rem = sum % n;
            proof {
                assert(q == (sum as int) / (n as int));
                assert(q <= 255);
            }
            let v: u64 = if 2 * rem >= n { q + 1 } else { q };
            let i = image.index_of(x as u32, y as u32);
            let ghost prev = image@;
            image.set_channel(i, 3, v as u8);
            proof {
                assert forall|xx: int, yy: int| 0 <= xx < wu && 0 <= yy < hu implies #[trigger] image@.alpha(
                    m.index_of(xx, yy),
                ) == if yy < y || (yy == y && xx < x + 1) {
                    blurred_alpha(m, xx, yy, r as int)
                } else {
                    m.alpha(m.index_of(xx, yy)) as int
                } by {
                    lemma_pixel_index(wu as int, hu as int, xx, yy);
                    lemma_index_injective(wu as int, xx, yy, x as int, y as int);
                    assert(prev.alpha(m.index_of(xx, yy)) == prev.ch(m.index_of(xx, yy), 3));
                }
            }
            x = x + 1;
        }
        y = y + 1;
    }
}


// ---------------------------------------------------------------------------
// Brush strokes
// ---------------------------------------------------------------------------

/// What a brush does to the pixels it covers.
#[derive(Debug, Clone, Copy, PartialEq, Eq, Structural)]
pub enum BrushMode {
    /// Alpha becomes zero.
    Erase,
    /// The pixel is copied back from the original image.
    Restore,
}

/// The pixel at `(x, y)` is among `covered`.
pub open spec fn covers(covered: Seq<(u32, u32)>, x: int, y: int) -> bool {
    exists|k: int| 0 <= k < covered.len() && #[trigger] covered[k] == (x as u32, y as u32)
}

/// `apply_brush_to_pixels` brushes exactly the listed pixels: each pixel
/// `(x, y)` in the list is covered, and a pixel that is not in the list is
/// not.
pub proof fn law_brush_covers_exactly_the_listed_pixels(covered: Seq<(u32, u32)>, x: u32, y: u32)
    ensures
        covers(covered, x as int, y as int) <==> covered.contains((x, y)),
{
    if covered.contains((x, y)) {
        let k = choose|k: int| 0 <= k < covered.len() && covered[k] == (x, y);
        assert(covered[k] == ((x as int) as u32, (y as int) as u32));
    }
}

/// Applies a brush to the pixels `covered`: `Erase` sets their alpha to zero,
/// `Restore` copies them back from `original`. Other pixels stay as they are.
pub fn apply_brush_to_pixels(
    image: &mut RgbaBuffer,
    original: &RgbaBuffer,
    covered: &Vec<(u32, u32)>,
    mode: BrushMode,
)
    requires
        forall|k: int|
            0 <= k < covered@.len() ==> (#[trigger] covered@[k]).0 < old(image)@.width
                && covered@[k].1 < old(image)@.height,
        mode == BrushMode::Restore ==> forall|k: int|
            0 <= k < covered@.len() ==> (#[trigger] covered@[k]).0 < original@.width
                && covered@[k].1 < original@.height,
    ensures
        final(image)@.same_shape(old(image)@),
        final(image)@.bytes.len() == old(image)@.bytes.len(),
        forall|x: int, y: int, c: int|
            0 <= x < old(image)@.width && 0 <= y < old(image)@.height && 0 <= c < 4 ==> #[trigger] final(image)@.ch(old(image)@.index_of(x, y), c)
                == if !covers(covered@, x, y) {
                old(image)@.ch(old(image)@.index_of(x, y), c)
            } else if mode == BrushMode::Erase {
                if c == 3 {
                    0
                } else {
                    old(image)@.ch(old(image)@.index_of(x, y), c)
                }
            } else {
                original@.ch(original@.index_of(x, y), c)
            },
{
    let ghost m = image@;
    image.check_well_formed();
    let mut k: usize = 0;
    while k < covered.len()
        invariant
            m == old(image)@,
            m.well_formed(),
            k <= covered@.len(),
            forall|kk: int|
                0 <= kk < covered@.len() ==> (#[trigger] covered@[kk]).0 < m.width && covered@[kk].1
                    < m.height,
            mode == BrushMode::Restore ==> forall|kk: int|
                0 <= kk < covered@.len() ==> (#[trigger] covered@[kk]).0 < original@.width
                    && covered@[kk].1 < original@.height,
            image@.same_shape(m),
            image@.bytes.len() == m.bytes.len(),
            forall|x: int, y: int, c: int|
                0 <= x < m.width && 0 <= y < m.height && 0 <= c < 4 ==> #[trigger] image@.ch(
                    m.index_of(x, y),
                    c,
                ) == if !covers(covered@.subrange(0, k as int), x, y) {
                    m.ch(m.index_of(x, y), c)
                } else if mode == BrushMode::Erase {
                    if c == 3 {
                        0
                    } else {
                        m.ch(m.index_of(x, y), c)
                    }
                } else {
                    original@.ch(original@.index_of(x, y), c)
                },
        decreases covered@.len() - k,
    {
        let (px, py) = covered[k];
        let ghost prev = image@;
        let ghost before = covered@.subrange(0, k as int);
        let ghost after = covered@.subrange(0, k + 1);
        match mode {
            BrushMode::Erase => {
                let i = image.index_of(px, py);
                image.set_channel(i, 3, 0);
            },
            BrushMode::Restore => {
                let p = original.get_pixel(px, py);
                image.put_pixel(px, py, p);
            },
        }
        proof {
            assert forall|x: int, y: int| 0 <= x < m.width && 0 <= y < m.height implies covers(after, x, y)
                == (covers(before, x, y) || (x == px && y == py)) by {
                if covers(after, x, y) {
                    let kk = choose|kk: int| 0 <= kk < after.len() && #[trigger] after[kk] == (
                    x as u32,
                    y as u32,
                    );
                    if kk < k {
                        assert(before[kk] == after[kk]);
                    }
                }
                if covers(before, x, y) {
                    let kk = choose|kk: int| 0 <= kk < before.len() && #[trigger] before[kk] == (
                    x as u32,
                    y as u32,
                    );
                    assert(after[kk] == before[kk]);
                }
                if x == px && y == py {
                    assert(after[k as int] == (x as u32, y as u32));
                }
            }
            assert forall|x: int, y: int, c: int|
                0 <= x < m.width && 0 <= y < m.height && 0 <= c < 4 implies #[trigger] image@.ch(
                m.index_of(x, y),
                c,
            ) == if !covers(after, x, y) {
                m.ch(m.index_of(x, y), c)
            } else if mode == BrushMode::Erase {
                if c == 3 {
                    0
                } else {
                    m.ch(m.index_of(x, y), c)
                }
            } else {
                original@.ch(original@.index_of(x, y), c)
            } by {
                lemma_pixel_index(m.width as int, m.height as int, x, y);
                lemma_index_injective(m.width as int, x, y, px as int, py as int);
                assert(prev.ch(m.index_of(x, y), c) == if !covers(before, x, y) {
                    m.ch(m.index_of(x, y), c)
                } else if mode == BrushMode::Erase {
                    if c == 3 {
                        0
                    } else {
                        m.ch(m.index_of(x, y), c)
                    }
                } else {
                    original@.ch(original@.index_of(x, y), c)
                });
            }
        }
        k = k + 1;
    }
    proof {
        assert(covered@.subrange(0, covered@.len() as int) =~= covered@);
    }
}

// ---------------------------------------------------------------------------
// Cropping
// ---------------------------------------------------------------------------

/// `image::imageops::crop_imm` followed by `SubImage::to_image`, on the RGBA
/// image `width` by `height` with bytes `data`: the `block_width` by
/// `block_height` block whose top-left pixel is `(x, y)`, as its width,
/// height and bytes. The block must lie inside the image.
#[verifier::external_body]
fn crop_block(
    width: u32,
    height: u32,
    data: &Vec<u8>,
    x: u32,
    y: u32,
    block_width: u32,
    block_height: u32,
) -> (r: (u32, u32, Vec<u8>))
    requires
        data@.len() == 4 * (width * height),
        x + block_width <= width,
        y + block_height <= height,
    ensures
        r.0 == block_width,
        r.1 == block_height,
        r.2@.len() == 4 * (block_width * block_height),
        forall|i: int, j: int, c: int|
            0 <= i < block_width && 0 <= j < block_height && 0 <= c < 4 ==> #[trigger] r.2@[4 * (j
                * block_width + i) + c] == data@[4 * ((y + j) * width + (x + i)) + c],
{
    let image = image::RgbaImage::from_raw(width, height, data.clone()).unwrap();
    let block = image::imageops::crop_imm(&image, x, y, block_width, block_height).to_image();
    let (w, h) = block.dimensions();
    (w, h, block.into_raw())
}

/// The block that `crop_rgba` copies: the origin is moved inside the image,
/// and width and height become at least one but no more than what remains of
/// the image past the origin. Returns `(x, y, width, height)`.
pub open spec fn crop_bounds(w: int, h: int, x: int, y: int, width: int, height: int) -> (int, int, int, int) {
    let cx = if x <= sat_sub(w, 1) {
        x
    } else {
        sat_sub(w, 1)
    };
    let cy = if y <= sat_sub(h, 1) {
        y
    } else {
        sat_sub(h, 1)
    };
    let cw = if width >= 1 {
        width
    } else {
        1
    };
    let ch = if height >= 1 {
        height
    } else {
        1
    };
    (cx, cy, if cw <= sat_sub(w, cx) {
        cw
    } else {
        sat_sub(w, cx)
    }, if ch <= sat_sub(h, cy) {
        ch
    } else {
        sat_sub(h, cy)
    })
}

/// The block that `crop_rgba` copies from a non-empty image always lies
/// inside it and is at least one pixel wide and high; a request that lies
/// inside the image is copied exactly as asked.
pub proof fn law_crop_block_lies_inside(w: int, h: int, x: int, y: int, width: int, height: int)
    requires
        w >= 1,
        h >= 1,
        x >= 0,
        y >= 0,
        width >= 0,
        height >= 0,
    ensures
        ({
            let (cx, cy, cw, ch) = crop_bounds(w, h, x, y, width, height);
            &&& 0 <= cx && cx + cw <= w
            &&& 0 <= cy && cy + ch <= h
            &&& cw >= 1 && ch >= 1
            &&& x + width <= w && y + height <= h && width >= 1 && height >= 1 ==> (cx, cy, cw, ch) == (
                x,
                y,
                width,
                height,
            )
        }),
{
}

/// `a - b`, or zero when `b` exceeds `a`.
pub open spec fn sat_sub(a: int, b: int) -> int {
    if a >= b {
        a - b
    } else {
        0
    }
}

/// Copies the requested block of `image`, moved and shrunk to fit inside it
/// as `crop_bounds` describes.
pub fn crop_rgba(image: &RgbaBuffer, x: u32, y: u32, width: u32, height: u32) -> (out: RgbaBuffer)
    ensures
        ({
            let (cx, cy, cw, ch) = crop_bounds(
                image@.width as int,
                image@.height as int,
                x as int,
                y as int,
                width as int,
                height as int,
            );
            &&& out@.width == cw
            &&& out@.height == ch
            &&& out@.well_formed()
            &&& forall|i: int, j: int, c: int|
                0 <= i < cw && 0 <= j < ch && 0 <= c < 4 ==> #[trigger] out@.ch(out@.index_of(i, j), c)
                    == image@.ch(image@.index_of(cx + i, cy + j), c)
        }),
{
    let (w, h) = image.dimensions();
    let cx = x.min(w.saturating_sub(1));
    let cy = y.min(h.saturating_sub(1));
    let cw = width.max(1).min(w.saturating_sub(cx));
    let ch = height.max(1).min(h.saturating_sub(cy));
    image.check_well_formed();
    let (bw, bh, data) = crop_block(w, h, image.as_raw(), cx, cy, cw, ch);
    let out = RgbaBuffer::from_raw(bw, bh, data);
    proof {
        let m = out->Some_0@;
        assert forall|i: int, j: int, c: int|
            0 <= i < cw && 0 <= j < ch && 0 <= c < 4 implies #[trigger] m.ch(m.index_of(i, j), c)
                == image@.ch(image@.index_of(cx + i, cy + j), c) by {
            assert(4 * (j * cw + i) + c == 4 * m.index_of(i, j) + c);
            assert(4 * ((cy + j) * w + (cx + i)) + c == 4 * image@.index_of(cx + i, cy + j) + c);
        }
    }
    out.unwrap()
}

/// `out` is `m` turned a quarter clockwise: `out` is `m.height` wide and
/// `m.width` high, and its pixel at column `x`, row `y` is the pixel of `m` at
/// column `y`, row `m.height - 1 - x`.
pub open spec fn is_turned_clockwise(m: RgbaModel, out: RgbaModel) -> bool {
    &&& out.width == m.height
    &&& out.height == m.width
    &&& out.well_formed()
    &&& forall|x: int, y: int, c: int|
        0 <= x < out.width && 0 <= y < out.height && 0 <= c < 4 ==> #[trigger] out.ch(out.index_of(x, y), c)
            == m.ch(m.index_of(y, m.height - 1 - x), c)
}

/// The image turned a quarter clockwise.
pub fn rotate_clockwise(image: &RgbaBuffer) -> (out: RgbaBuffer)
    ensures
        is_turned_clockwise(image@, out@),
{
    let (w, h) = image.dimensions();
    let n = image.pixel_count();
    proof {
        assert((h as int) * (w as int) == (w as int) * (h as int)) by (nonlinear_arith);
    }
    let mut out = RgbaBuffer::new(h, w);
    let mut y: u32 = 0;
    while y < w
        invariant
            w == image@.width,
            h == image@.height,
            out@.width == h,
            out@.height == w,
            out@.well_formed(),
            y <= w,
            forall|a: int, b: int, c: int|
                0 <= a < h && 0 <= b < y && 0 <= c < 4 ==> #[trigger] out@.ch(out@.index_of(a, b), c)
                    == image@.ch(image@.index_of(b, h - 1 - a), c),
        decreases w - y,
    {
        let mut x: u32 = 0;
        while x < h
            invariant
                w == image@.width,
                h == image@.height,
                out@.width == h,
                out@.height == w,
                out@.well_formed(),
                y < w,
                x <= h,
                forall|a: int, b: int, c: int|
                    0 <= a < h && 0 <= b < y && 0 <= c < 4 ==> #[trigger] out@.ch(out@.index_of(a, b), c)
                        == image@.ch(image@.index_of(b, h - 1 - a), c),
                forall|a: int, c: int|
                    0 <= a < x && 0 <= c < 4 ==> #[trigger] out@.ch(out@.index_of(a, y as int), c)
                        == image@.ch(image@.index_of(y as int, h - 1 - a), c),
            decreases h - x,
        {
            let p = image.get_pixel(y, h - 1 - x);
            let ghost before = out@;
            out.put_pixel(x, y, p);
            proof {
                let hi = h as int;
                let wi = w as int;
                lemma_pixel_index(hi, wi, x as int, y as int);
                assert forall|a: int, b: int, c: int|
                    0 <= a < h && 0 <= b < y && 0 <= c < 4 implies #[trigger] out@.ch(out@.index_of(a, b), c)
                        == image@.ch(image@.index_of(b, h - 1 - a), c) by {
                    lemma_pixel_index(hi, wi, a, b);
                    lemma_index_injective(hi, a, b, x as int, y as int);
                    assert(before.ch(before.index_of(a, b), c) == image@.ch(image@.index_of(b, h - 1 - a), c));
                }
                assert forall|a: int, c: int|
                    0 <= a < x + 1 && 0 <= c < 4 implies #[trigger] out@.ch(out@.index_of(a, y as int), c)
                        == image@.ch(image@.index_of(y as int, h - 1 - a), c) by {
                    lemma_pixel_index(hi, wi, a, y as int);
                    lemma_index_injective(hi, a, y as int, x as int, y as int);
                    if a < x {
                        assert(before.ch(before.index_of(a, y as int), c) == image@.ch(
                            image@.index_of(y as int, h - 1 - a),
                            c,
                        ));
                    }
                }
            }
            x = x + 1;
        }
        y = y + 1;
    }
    out
}

/// An image turns into exactly one image.
pub proof fn lemma_turn_is_unique(m: RgbaModel, a: RgbaModel, b: RgbaModel)
    requires
        is_turned_clockwise(m, a),
        is_turned_clockwise(m, b),
    ensures
        a == b,
{
    let w = a.width as int;
    let h = a.height as int;
    assert forall|k: int| 0 <= k < a.bytes.len() implies a.bytes[k] == b.bytes[k] by {
        let i = k / 4;
        let c = k % 4;
        assert(k == 4 * i + c && 0 <= c < 4 && 0 <= i < w * h);
        assert(0 < w) by (nonlinear_arith)
            requires
                0 <= i < w * h,
                0 <= h,
        ;
        lemma_index_split(w, h, i);
        let x = i % w;
        let y = i / w;
        assert(a.ch(a.index_of(x, y), c) == m.ch(m.index_of(y, m.height - 1 - x), c));
        assert(b.ch(b.index_of(x, y), c) == m.ch(m.index_of(y, m.height - 1 - x), c));
    }
    assert(a.bytes =~= b.bytes);
}

/// Turning an image a quarter clockwise four times gives back the image.
pub proof fn law_four_turns_restore_image(
    m0: RgbaModel,
    m1: RgbaModel,
    m2: RgbaModel,
    m3: RgbaModel,
    m4: RgbaModel,
)
    requires
        m0.well_formed(),
        is_turned_clockwise(m0, m1),
        is_turned_clockwise(m1, m2),
        is_turned_clockwise(m2, m3),
        is_turned_clockwise(m3, m4),
    ensures
        m4 == m0,
{
    let w = m0.width as int;
    let h = m0.height as int;
    assert(m4.bytes.len() == m0.bytes.len());
    assert forall|k: int| 0 <= k < m0.bytes.len() implies m4.bytes[k] == m0.bytes[k] by {
        let i = k / 4;
        let c = k % 4;
        assert(k == 4 * i + c && 0 <= c < 4 && 0 <= i < w * h);
        assert(0 < w) by (nonlinear_arith)
            requires
                0 <= i < w * h,
                0 <= h,
        ;
        lemma_index_split(w, h, i);
        let a = i % w;
        let b = i / w;
        lemma_pixel_index(h, w, b, w - 1 - a);
        lemma_pixel_index(w, h, w - 1 - a, h - 1 - b);
        lemma_pixel_index(h, w, h - 1 - b, a);
        assert(m4.ch(m4.index_of(a, b), c) == m3.ch(m3.index_of(b, w - 1 - a), c));
        assert(m3.ch(m3.index_of(b, w - 1 - a), c) == m2.ch(m2.index_of(w - 1 - a, h - 1 - b), c));
        assert(m2.ch(m2.index_of(w - 1 - a, h - 1 - b), c) == m1.ch(m1.index_of(h - 1 - b, a), c));
        assert(m1.ch(m1.index_of(h - 1 - b, a), c) == m0.ch(m0.index_of(a, b), c));
    }
    assert(m4.bytes =~= m0.bytes);
}

/// Some pixel of `m` is not fully transparent.
pub open spec fn has_visible_pixel(m: RgbaModel) -> bool {
    exists|i: int| 0 <= i < m.pixel_count() && #[trigger] m.alpha(i) > 0
}

/// An image counts as visible as soon as one pixel has any alpha at all,
/// and an image whose pixels are all fully transparent does not.
pub proof fn law_visible_means_some_alpha(m: RgbaModel, i: int)
    ensures
        0 <= i < m.pixel_count() && m.alpha(i) >= 1 ==> has_visible_pixel(m),
        (forall|j: int| 0 <= j < m.pixel_count() ==> #[trigger] m.alpha(j) == 0) ==> !has_visible_pixel(m),
{
}

/// Whether any pixel of `image` has a non-zero alpha.
pub fn has_visible_pixels(image: &RgbaBuffer) -> (b: bool)
    ensures
        b == has_visible_pixel(image@),
{
    let n = image.pixel_count();
    let mut i: usize = 0;
    while i < n
        invariant
            n == image@.pixel_count(),
            i <= n,
            forall|j: int| 0 <= j < i ==> #[trigger] image@.alpha(j) == 0,
        decreases n - i,
    {
        if image.channel_at(i, 3) > 0 {
            proof {
                assert(image@.alpha(i as int) > 0);
            }
            return true;
        }
        i = i + 1;
    }
    false
}

} // verus!
