use vstd::prelude::*;

use crate::ordering::strictly_sorted;
use crate::point::Point;

verus! {

/// Number of entries of `rows` below `y`.
pub open spec fn count_below(rows: Seq<i32>, y: int) -> int
    decreases rows.len(),
{
    if rows.len() == 0 {
        0
    } else {
        count_below(rows.drop_last(), y) + if rows.last() < y { 1int } else { 0int }
    }
}

/// The row of a point at `y` once the first `k` of the ascending `rows` are removed one at
/// a time: removing row `rows[i]` happens at its index shifted down by the `i` rows already
/// gone, and moves the point down when that index lies below it.
pub open spec fn adjusted_incrementally(rows: Seq<i32>, y: int, k: int) -> int
    decreases k,
{
    if k <= 0 {
        y
    } else {
        let prev = adjusted_incrementally(rows, y, k - 1);
        if rows[k - 1] - (k - 1) < prev {
            prev - 1
        } else {
            prev
        }
    }
}

/// The indices of the ascending `rows` once removed in order, each lowered by the rows
/// removed before it.
pub open spec fn shifted_rows(rows: Seq<i32>) -> Seq<i32> {
    Seq::new(rows.len(), |i: int| (rows[i] - i) as i32)
}

proof fn lemma_sorted_gap(rows: Seq<i32>, a: int, b: int)
    requires
        strictly_sorted(rows),
        0 <= a <= b < rows.len(),
    ensures
        rows[b] - rows[a] >= b - a,
    decreases b - a,
{
    if a < b {
        lemma_sorted_gap(rows, a, b - 1);
        assert(rows[b - 1] < rows[b]);
    }
}

proof fn lemma_count_below_prefix(rows: Seq<i32>, y: int, k: int)
    requires
        strictly_sorted(rows),
        0 <= k <= rows.len(),
    ensures
        0 <= count_below(rows.subrange(0, k), y) <= k,
        forall|j: int| 0 <= j < k ==> (rows[j] < y <==> j < count_below(rows.subrange(0, k), y)),
    decreases k,
{
    if k > 0 {
        let s = rows.subrange(0, k);
        assert(s.drop_last() =~= rows.subrange(0, k - 1));
        lemma_count_below_prefix(rows, y, k - 1);
        let m = count_below(rows.subrange(0, k - 1), y);
        if rows[k - 1] < y {
            assert forall|j: int| 0 <= j < k - 1 implies rows[j] < y by {
                assert(rows[j] < rows[k - 1]);
            }
        }
    }
}

/// Removing rows one at a time in ascending order, with the running adjustment, moves a
/// point at a kept row `y` to the same row as lowering it at once by the number of removed
/// rows beneath it.
pub proof fn lemma_batch_matches_incremental(rows: Seq<i32>, y: int)
    requires
        strictly_sorted(rows),
        forall|i: int| 0 <= i < rows.len() ==> #[trigger] rows[i] != y,
    ensures
        adjusted_incrementally(rows, y, rows.len() as int) == y - count_below(rows, y),
{
    lemma_incremental_prefix(rows, y, rows.len() as int);
    assert(rows.subrange(0, rows.len() as int) =~= rows);
}

proof fn lemma_incremental_prefix(rows: Seq<i32>, y: int, k: int)
    requires
        strictly_sorted(rows),
        forall|i: int| 0 <= i < rows.len() ==> #[trigger] rows[i] != y,
        0 <= k <= rows.len(),
    ensures
        adjusted_incrementally(rows, y, k) == y - count_below(rows.subrange(0, k), y),
    decreases k,
{
    if k > 0 {
        lemma_incremental_prefix(rows, y, k - 1);
        lemma_count_below_prefix(rows, y, k - 1);
        let s = rows.subrange(0, k);
        assert(s.drop_last() =~= rows.subrange(0, k - 1));
        let m = count_below(rows.subrange(0, k - 1), y);
        let r = rows[k - 1];
        if r < y {
            // every earlier row is below as well
            if m < k - 1 {
                assert(rows[m] < r);
                assert(false);
            }
        } else {
            assert(r > y);
            if m < k - 1 {
                lemma_sorted_gap(rows, m, k - 1);
                assert(rows[m] >= y);
                assert(rows[m] != y);
            }
        }
    }
}

/// A copy of `rows`.
pub fn copy_rows(rows: &Vec<i32>) -> (r: Vec<i32>)
    ensures
        r@ == rows@,
{
    let mut r: Vec<i32> = Vec::new();
    let mut i: usize = 0;
    while i < rows.len()
        invariant
            i <= rows.len(),
            r@ == rows@.subrange(0, i as int),
        decreases rows.len() - i,
    {
        r.push(rows[i]);
        i += 1;
    }
    assert(r@ =~= rows@);
    r
}

/// Number of entries of `rows` below `y`.
pub fn rows_below(rows: &Vec<i32>, y: i32) -> (r: usize)
    ensures
        r == count_below(rows@, y as int),
{
    let mut n: usize = 0;
    let mut i: usize = 0;
    while i < rows.len()
        invariant
            i <= rows.len(),
            n <= i,
            n == count_below(rows@.subrange(0, i as int), y as int),
        decreases rows.len() - i,
    {
        proof {
            assert(rows@.subrange(0, i as int + 1).drop_last() =~= rows@.subrange(0, i as int));
        }
        if rows[i] < y {
            n += 1;
        }
        i += 1;
    }
    assert(rows@.subrange(0, rows.len() as int) =~= rows@);
    n
}

/// Each of the ascending `rows` lowered by the number of rows before it.
pub fn shift_rows(rows: &Vec<i32>) -> (r: Vec<i32>)
    requires
        strictly_sorted(rows@),
    ensures
        r@ == shifted_rows(rows@),
{
    let mut r: Vec<i32> = Vec::new();
    let mut i: usize = 0;
    while i < rows.len()
        invariant
            strictly_sorted(rows@),
            i <= rows.len(),
            r@ == shifted_rows(rows@).subrange(0, i as int),
        decreases rows.len() - i,
    {
        proof {
            lemma_sorted_gap(rows@, 0, i as int);
        }
        let v: i64 = rows[i] as i64 - i as i64;
        r.push(v as i32);
        i += 1;
    }
    assert(r@ =~= shifted_rows(rows@));
    r
}

/// A point at `p`, lowered by the number of `rows` beneath it.
pub open spec fn lowered(rows: Seq<i32>, p: Point) -> Point {
    Point(p.0, (p.1 - count_below(rows, p.1 as int)) as i32)
}

/// Each of `points` lowered by the number of `rows` beneath it.
pub open spec fn lowered_all(rows: Seq<i32>, points: Seq<Point>) -> Seq<Point> {
    Seq::new(points.len(), |i: int| lowered(rows, points[i]))
}

proof fn lemma_count_below_bounds(rows: Seq<i32>, y: int)
    ensures
        0 <= count_below(rows, y) <= rows.len(),
    decreases rows.len(),
{
    if rows.len() > 0 {
        lemma_count_below_bounds(rows.drop_last(), y);
    }
}

proof fn lemma_count_below_small(rows: Seq<i32>, y: int)
    requires
        strictly_sorted(rows),
        i32::MIN <= y,
    ensures
        count_below(rows, y) <= y - i32::MIN,
{
    lemma_count_below_bounds(rows, y);
    lemma_count_below_prefix(rows, y, rows.len() as int);
    assert(rows.subrange(0, rows.len() as int) =~= rows);
    let m = count_below(rows, y);
    if m > 0 {
        lemma_sorted_gap(rows, 0, m - 1);
        assert(rows[m - 1] < y);
    }
}

/// Each of `points` lowered by the number of the ascending `rows` beneath it.
pub fn lower_points(rows: &Vec<i32>, points: &Vec<Point>) -> (r: Vec<Point>)
    requires
        strictly_sorted(rows@),
    ensures
        r@ == lowered_all(rows@, points@),
{
    let mut r: Vec<Point> = Vec::new();
    let mut i: usize = 0;
    while i < points.len()
        invariant
            strictly_sorted(rows@),
            i <= points.len(),
            r@ == Seq::new(i as nat, |k: int| lowered(rows@, points@[k])),
        decreases points.len() - i,
    {
        let p = points[i];
        let below = rows_below(rows, p.1);
        proof {
            lemma_count_below_small(rows@, p.1 as int);
            lemma_count_below_bounds(rows@, p.1 as int);
        }
        let v: i64 = p.1 as i64 - below as i64;
        r.push(Point(p.0, v as i32));
        proof {
            assert(r@ =~= Seq::new((i + 1) as nat, |k: int| lowered(rows@, points@[k])));
        }
        i += 1;
    }
    assert(r@ =~= lowered_all(rows@, points@));
    r
}

} // verus!
