use vstd::prelude::*;

use crate::board::{Board, MAX_DIM};
use crate::point::Point;

verus! {

/// Largest fall bound or offset the resolver works with.
pub const MAX_FALL: u64 = 1073741824;

/// How one shape's fall is bounded by another's.
#[derive(Clone, Copy, PartialEq, Eq, Structural, Debug)]
pub enum ShapeDependency {
    /// The shape rests directly on the target shape: it falls no further than the target.
    Adjacent(usize),
    /// The shape falls no further than the target shape plus the given number of rows.
    Fall(usize, u64),
}

impl ShapeDependency {
    pub open spec fn target(self) -> int {
        match self {
            ShapeDependency::Adjacent(t) => t as int,
            ShapeDependency::Fall(t, _) => t as int,
        }
    }

    pub open spec fn offset(self) -> int {
        match self {
            ShapeDependency::Adjacent(_) => 0,
            ShapeDependency::Fall(_, o) => o as int,
        }
    }

    pub fn get_target(&self) -> (r: usize)
        ensures
            r == self.target(),
    {
        match self {
            ShapeDependency::Adjacent(t) => *t,
            ShapeDependency::Fall(t, _) => *t,
        }
    }

    pub fn get_offset(&self) -> (r: u64)
        ensures
            r == self.offset(),
    {
        match self {
            ShapeDependency::Adjacent(_) => 0,
            ShapeDependency::Fall(_, o) => *o,
        }
    }
}

/// The dependency lists name only existing shapes and carry bounded offsets.
pub open spec fn graph_ok(own: Seq<u64>, deps: Seq<Seq<ShapeDependency>>) -> bool {
    &&& deps.len() == own.len()
    &&& forall|i: int| 0 <= i < own.len() ==> #[trigger] own[i] <= MAX_FALL
    &&& forall|i: int, k: int|
        0 <= i < deps.len() && 0 <= k < deps[i].len() ==> 0 <= (#[trigger] deps[i][k]).target() < own.len()
            && deps[i][k].offset() <= MAX_FALL
}

/// `c` assigns each shape a fall that stays within its own bound and within every bound
/// its dependencies put on it.
pub open spec fn consistent(own: Seq<u64>, deps: Seq<Seq<ShapeDependency>>, c: Seq<int>) -> bool {
    &&& c.len() == own.len()
    &&& forall|i: int| 0 <= i < c.len() ==> #[trigger] c[i] <= own[i]
    &&& forall|i: int, k: int|
        0 <= i < c.len() && 0 <= k < deps[i].len() ==> c[i] <= c[(#[trigger] deps[i][k]).target()]
            + deps[i][k].offset()
}

pub open spec fn graph_view(deps: Seq<Vec<ShapeDependency>>) -> Seq<Seq<ShapeDependency>> {
    Seq::new(deps.len(), |i: int| deps[i]@)
}

/// `r` is consistent, and no consistent assignment lets any shape fall further.
pub open spec fn greatest_consistent(own: Seq<u64>, deps: Seq<Seq<ShapeDependency>>, r: Seq<int>) -> bool {
    &&& consistent(own, deps, r)
    &&& forall|c: Seq<int>| #[trigger] consistent(own, deps, c) ==> forall|i: int| 0 <= i < c.len() ==> #[trigger] c[i] <= r[i]
}

pub open spec fn min_int(a: int, b: int) -> int {
    if a <= b { a } else { b }
}

/// Two shapes that each bound the other's fall (shape 0 by shape 1 plus `o0`, shape 1 by
/// shape 0 plus `o1`) with own bounds `f0` and `f1`: shape 0 falls `min(f0, f1 + o0)` and
/// shape 1 falls `min(f1, f0 + o1)`. So the shape with the smaller own bound falls exactly
/// that bound, and the other falls the least of its own bound and the first's plus its offset.
pub proof fn lemma_mutual_support_resolution(own: Seq<u64>, o0: u64, o1: u64, r: Seq<int>)
    requires
        own.len() == 2,
        greatest_consistent(
            own,
            seq![seq![ShapeDependency::Fall(1, o0)], seq![ShapeDependency::Fall(0, o1)]],
            r,
        ),
    ensures
        r[0] == min_int(own[0] as int, own[1] + o0),
        r[1] == min_int(own[1] as int, own[0] + o1),
        own[0] <= own[1] ==> r[0] == own[0] && r[1] == min_int(own[1] as int, own[0] + o1),
        own[1] <= own[0] ==> r[1] == own[1] && r[0] == min_int(own[0] as int, own[1] + o0),
{
    let deps = seq![seq![ShapeDependency::Fall(1, o0)], seq![ShapeDependency::Fall(0, o1)]];
    let m = seq![min_int(own[0] as int, own[1] + o0), min_int(own[1] as int, own[0] + o1)];
    assert(deps[0][0].target() == 1 && deps[0][0].offset() == o0);
    assert(deps[1][0].target() == 0 && deps[1][0].offset() == o1);
    assert(deps[0].len() == 1 && deps[1].len() == 1);
    assert(consistent(own, deps, m));
    assert(r[0] <= own[0] && r[1] <= own[1]);
    assert(r[0] <= r[1] + o0);
    assert(r[1] <= r[0] + o1);
    assert(m[0] <= r[0] && m[1] <= r[1]);
}

pub open spec fn as_ints(v: Seq<u64>) -> Seq<int> {
    Seq::new(v.len(), |i: int| v[i] as int)
}

/// Resolves the fall of every shape of a support graph. Shape `i` may fall at most `own[i]`
/// rows by itself, and each of its dependencies bounds it further. The result is the
/// greatest assignment consistent with all bounds: every shape falls as far as its
/// supports let it. Within a cycle of mutual support, the shape that lands first is
/// settled first and bounds the others.
pub fn resolve_fall_bounds(own: &Vec<u64>, deps: &Vec<Vec<ShapeDependency>>) -> (r: Vec<u64>)
    requires
        graph_ok(own@, graph_view(deps@)),
    ensures
        greatest_consistent(own@, graph_view(deps@), as_ints(r@)),
{
    let ghost g = graph_view(deps@);
    let n = own.len();
    let mut t: Vec<u64> = own.clone();
    assert(t@ =~= own@);
    let mut done: Vec<bool> = vec![false; n];
    proof {
        assert(done@ =~= Seq::new(n as nat, |k: int| false));
        lemma_count_true_none(n as nat);
    }
    let mut settled: usize = 0;
    while settled < n
        invariant
            graph_ok(own@, g),
            g == graph_view(deps@),
            n == own.len(),
            t.len() == n,
            done.len() == n,
            settled <= n,
            // exactly `settled` shapes are done
            settled == count_true(done@),
            forall|i: int| 0 <= i < n ==> #[trigger] t@[i] <= own@[i],
            // no consistent assignment exceeds the tentative bounds
            forall|c: Seq<int>|
                #[trigger] consistent(own@, g, c) ==> forall|i: int| 0 <= i < n ==> #[trigger] c[i] <= t@[i],
            // settled shapes land no later than unsettled ones
            forall|a: int, u: int|
                0 <= a < n && 0 <= u < n && done@[a] && !done@[u] ==> #[trigger] t@[a] <= #[trigger] t@[u],
            // a dependency on a settled shape is honoured
            forall|i: int, k: int|
                0 <= i < n && 0 <= k < g[i].len() && done@[(#[trigger] g[i][k]).target()] ==> t@[i]
                    <= t@[g[i][k].target()] + g[i][k].offset(),
        decreases n - settled,
    {
        // pick the unsettled shape that lands first
        let mut j: usize = n;
        let mut i: usize = 0;
        while i < n
            invariant
                n == t.len(),
                n == done.len(),
                i <= n,
                j == n || (j < i && !done@[j as int]),
                j < n ==> forall|u: int| 0 <= u < i && !done@[u] ==> t@[j as int] <= #[trigger] t@[u],
                j == n ==> forall|u: int| 0 <= u < i ==> #[trigger] done@[u],
            decreases n - i,
        {
            if !done[i] && (j == n || t[i] < t[j]) {
                j = i;
            }
            i += 1;
        }
        proof {
            lemma_count_true_bounds(done@);
            if j == n {
                assert(false);
            }
        }
        let tj = t[j];
        let ghost done_before = done@;
        done.set(j, true);
        proof {
            lemma_count_true_set(done_before, j as int);
            lemma_count_true_bounds(done@);
        }
        // relax the unsettled shapes that depend on it
        let mut i: usize = 0;
        while i < n
            invariant
                graph_ok(own@, g),
                g == graph_view(deps@),
                n == own.len(),
                t.len() == n,
                done.len() == n,
                j < n,
                done@[j as int],
                tj == t@[j as int],
                i <= n,
                forall|x: int| 0 <= x < n ==> #[trigger] t@[x] <= own@[x],
                forall|c: Seq<int>|
                    #[trigger] consistent(own@, g, c) ==> forall|x: int| 0 <= x < n ==> #[trigger] c[x] <= t@[x],
                forall|a: int, u: int|
                    0 <= a < n && 0 <= u < n && done@[a] && !done@[u] ==> #[trigger] t@[a] <= #[trigger] t@[u],
                forall|x: int, k: int|
                    0 <= x < n && 0 <= k < g[x].len() && done@[(#[trigger] g[x][k]).target()] 
                        && g[x][k].target() != j ==> t@[x] <= t@[g[x][k].target()] + g[x][k].offset(),
                forall|x: int, k: int|
                    0 <= x < i && !done@[x] && 0 <= k < g[x].len() && (#[trigger] g[x][k]).target() == j ==> t@[x]
                        <= tj + g[x][k].offset(),
                forall|a: int| 0 <= a < n && done@[a] ==> #[trigger] t@[a] <= tj,
                forall|x: int, k: int|
                    0 <= x < n && done@[x] && x != j && 0 <= k < g[x].len() && (#[trigger] g[x][k]).target() == j
                        ==> t@[x] <= tj + g[x][k].offset(),
                forall|k: int|
                    0 <= k < g[j as int].len() && done@[(#[trigger] g[j as int][k]).target()] ==> t@[j as int]
                        <= t@[g[j as int][k].target()] + g[j as int][k].offset(),
            decreases n - i,
        {
            if !done[i] {
                let ds = &deps[i];
                assert(ds@ == g[i as int]);
                let mut k: usize = 0;
                while k < ds.len()
                    invariant
                        graph_ok(own@, g),
                        ds@ == g[i as int],
                        n == own.len(),
                        t.len() == n,
                        done.len() == n,
                        i < n,
                        j < n,
                        !done@[i as int],
                        done@[j as int],
                        tj == t@[j as int],
                        k <= ds.len(),
                        forall|x: int| 0 <= x < n ==> #[trigger] t@[x] <= own@[x],
                        forall|c: Seq<int>|
                            #[trigger] consistent(own@, g, c) ==> forall|x: int| 0 <= x < n ==> #[trigger] c[x] <= t@[x],
                        forall|a: int, u: int|
                            0 <= a < n && 0 <= u < n && done@[a] && !done@[u] ==> #[trigger] t@[a] <= #[trigger] t@[u],
                        forall|x: int, m: int|
                            0 <= x < n && 0 <= m < g[x].len() && done@[(#[trigger] g[x][m]).target()] 
                                && g[x][m].target() != j ==> t@[x] <= t@[g[x][m].target()] + g[x][m].offset(),
                        forall|x: int, m: int|
                            0 <= x < i && !done@[x] && 0 <= m < g[x].len() && (#[trigger] g[x][m]).target() == j ==> t@[x]
                                <= tj + g[x][m].offset(),
                        forall|a: int| 0 <= a < n && done@[a] ==> #[trigger] t@[a] <= tj,
                        forall|m: int|
                            0 <= m < k && (#[trigger] g[i as int][m]).target() == j ==> t@[i as int] <= tj + g[i as int][m].offset(),
                        forall|x: int, m: int|
                            0 <= x < n && done@[x] && x != j && 0 <= m < g[x].len() && (#[trigger] g[x][m]).target() == j
                                ==> t@[x] <= tj + g[x][m].offset(),
                        forall|m: int|
                            0 <= m < g[j as int].len() && done@[(#[trigger] g[j as int][m]).target()] ==> t@[j as int]
                                <= t@[g[j as int][m].target()] + g[j as int][m].offset(),
                    decreases ds.len() - k,
                {
                    let dep = ds[k];
                    assert(dep == g[i as int][k as int]);
                    if dep.get_target() == j {
                        let cand = tj + dep.get_offset();
                        if cand < t[i] {
                            let ghost t_before = t@;
                            t.set(i, cand);
                            proof {
                                assert forall|c: Seq<int>| #[trigger] consistent(own@, g, c) implies forall|x: int|
                                    0 <= x < n ==> #[trigger] c[x] <= t@[x] by {
                                    assert(c[i as int] <= c[j as int] + g[i as int][k as int].offset());
                                    assert(c[j as int] <= t_before[j as int]);
                                }
                            }
                        }
                    }
                    k += 1;
                }
            }
            i += 1;
        }
        settled += 1;
    }
    proof {
        assert forall|x: int| 0 <= x < n implies #[trigger] done@[x] by {
            if !done@[x] {
                lemma_count_true_bounds(done@);
            }
        }
        let r = as_ints(t@);
        assert forall|x: int, k: int|
            0 <= x < r.len() && 0 <= k < g[x].len() implies r[x] <= r[(#[trigger] g[x][k]).target()]
                + g[x][k].offset() by {
            assert(done@[g[x][k].target()]);
        }
        assert forall|c: Seq<int>|
            #[trigger] consistent(own@, g, c) implies forall|x: int| 0 <= x < c.len() ==> #[trigger] c[x] <= r[x] by {
            assert forall|x: int| 0 <= x < c.len() implies #[trigger] c[x] <= r[x] by {
                assert(c[x] <= t@[x]);
            }
        }
    }
    t
}

/// Shapes found on a board: the cells of each, its own fall bound, and its dependencies.
pub struct ShapeGraph {
    pub points: Vec<Vec<Point>>,
    pub own: Vec<u64>,
    pub deps: Vec<Vec<ShapeDependency>>,
}

impl ShapeGraph {
    pub open spec fn wf(&self) -> bool {
        &&& graph_ok(self.own@, graph_view(self.deps@))
        &&& self.points@.len() == self.own@.len()
    }

    /// The value of the cells of shape `s`.
    pub open spec fn value_of(&self, board: &Board, s: int) -> u32 {
        board.cells()[(self.points@[s]@[0].0 as int, self.points@[s]@[0].1 as int)]
    }

    /// The graph is the one the flood fill of `discover_shapes` finds on `board` from
    /// `seeds`: shapes are nonempty, disjoint, one-valued regions of filled cells closed
    /// under neighbours of their value, every filled seed lies in one, and each shape's own
    /// bound and dependencies are those its cells give.
    pub open spec fn found_on(&self, board: &Board, seeds: Seq<Point>, floor: int) -> bool {
        let pts = points_view(self.points@);
        &&& self.wf()
        &&& self.disjoint()
        &&& forall|s: int| 0 <= s < pts.len() ==> (#[trigger] pts[s]).len() >= 1 && all_filled(board, pts[s])
            && all_valued(board, pts[s], self.value_of(board, s)) && pts[s].no_duplicates()
        &&& forall|i: int| 0 <= i < seeds.len() && board.cells().contains_key((seeds[i].0 as int, seeds[i].1 as int))
            ==> exists|s: int, m: int| 0 <= s < pts.len() && 0 <= m < pts[s].len() && #[trigger] pts[s][m] == seeds[i]
        &&& forall|s: int, m: int, q: Point|
            0 <= s < pts.len() && 0 <= m < pts[s].len() && next_to(#[trigger] pts[s][m], q)
                && #[trigger] board.cells().contains_key((q.0 as int, q.1 as int))
                && board.cells()[(q.0 as int, q.1 as int)] == self.value_of(board, s)
                ==> exists|m2: int| 0 <= m2 < pts[s].len() && #[trigger] pts[s][m2] == q
        &&& forall|s: int, m: int, q: Point|
            0 <= s < pts.len() && 0 <= m < pts[s].len() && beside_or_above(#[trigger] pts[s][m], q)
                && #[trigger] board.cells().contains_key((q.0 as int, q.1 as int))
                ==> exists|t: int, m2: int| 0 <= t < pts.len() && 0 <= m2 < pts[t].len() && #[trigger] pts[t][m2] == q
        &&& forall|s: int| 0 <= s < pts.len() ==> seeds.contains((#[trigger] pts[s])[0]) || exists|t: int, m: int|
            0 <= t < s && 0 <= m < pts[t].len() && #[trigger] pushed_by(board, pts[t][m], pts[s][0], floor, self.value_of(board, t))
        &&& forall|s: int| 0 <= s < pts.len() ==> self.own@[s] == #[trigger] shape_bound(board, pts[s], floor, board.stored_rows())
        &&& forall|s: int| 0 <= s < pts.len() ==> (#[trigger] graph_view(self.deps@)[s]).len() == shape_deps(board, pts[s], floor, self.value_of(board, s)).len()
        &&& forall|s: int, k: int| 0 <= s < pts.len() && 0 <= k < graph_view(self.deps@)[s].len() ==> {
            let d = #[trigger] graph_view(self.deps@)[s][k];
            let e = shape_deps(board, pts[s], floor, self.value_of(board, s))[k];
            &&& d.offset() == e.1
            &&& exists|m2: int| 0 <= m2 < pts[d.target()].len() && #[trigger] pts[d.target()][m2] == e.0
        }
    }

    /// No cell belongs to two shapes.
    pub open spec fn disjoint(&self) -> bool {
        forall|s1: int, k1: int, s2: int, k2: int|
            0 <= s1 < self.points@.len() && 0 <= s2 < self.points@.len() && 0 <= k1 < self.points@[s1]@.len()
                && 0 <= k2 < self.points@[s2]@.len() && #[trigger] self.points@[s1]@[k1] == #[trigger] self.points@[s2]@[k2]
                ==> s1 == s2
    }
}

/// Index of cell `p` in a row-major grid of width `w`.
pub open spec fn grid_of(p: Point, w: int) -> int {
    p.1 * w + p.0
}

/// `p` is a cell of a grid of width `w` and `h` rows, and `owner` gives it to shape `s`.
pub open spec fn owned_by(owner: Seq<Option<usize>>, w: int, h: int, p: Point, s: int) -> bool {
    &&& 0 <= p.0 < w
    &&& 0 <= p.1 < h
    &&& 0 <= grid_of(p, w) < owner.len()
    &&& owner[grid_of(p, w)] == Some(s as usize)
}

proof fn lemma_grid_in(p: Point, w: int, h: int)
    requires
        0 <= p.0 < w,
        0 <= p.1 < h,
    ensures
        0 <= grid_of(p, w) < h * w,
{
    assert(0 <= p.1 * w + p.0 < h * w) by (nonlinear_arith)
        requires 0 <= p.0 < w, 0 <= p.1 < h;
}

proof fn lemma_push_contains(s: Seq<Point>, x: Point)
    ensures
        s.push(x).contains(x),
        forall|y: Point| s.contains(y) ==> #[trigger] s.push(x).contains(y),
{
    assert(s.push(x)[s.len() as int] == x);
    assert forall|y: Point| s.contains(y) implies #[trigger] s.push(x).contains(y) by {
        let i = choose|i: int| 0 <= i < s.len() && s[i] == y;
        assert(s.push(x)[i] == y);
    }
}

proof fn lemma_grid_injective(a: Point, b: Point, w: int)
    requires
        0 <= a.0 < w,
        0 <= b.0 < w,
        grid_of(a, w) == grid_of(b, w),
    ensures
        a == b,
{
    assert(a.1 == b.1) by (nonlinear_arith)
        requires 0 <= a.0 < w, 0 <= b.0 < w, a.1 * w + a.0 == b.1 * w + b.0;
}

/// Number of empty cells from `(x, y)` down to the first filled one.
pub open spec fn room(board: &Board, x: int, y: int) -> nat
    decreases y + 1,
{
    if y < 0 || board.filled(x, y) {
        0
    } else {
        1 + room(board, x, y - 1)
    }
}

proof fn lemma_room(board: &Board, x: int, y: int, n: int)
    requires
        0 <= n,
        forall|k: int| 0 <= k < n ==> !board.filled(x, #[trigger] (y - k)),
        board.filled(x, y - n),
    ensures
        room(board, x, y) == n,
    decreases n,
{
    if n > 0 {
        assert(!board.filled(x, y - 0));
        assert forall|k: int| 0 <= k < n - 1 implies !board.filled(x, #[trigger] ((y - 1) - k)) by {
            assert(!board.filled(x, y - (k + 1)));
        }
        assert(board.filled(x, (y - 1) - (n - 1)));
        lemma_room(board, x, y - 1, n - 1);
    }
}

/// The fall the cell `c` allows its shape by itself: none when the cell below lies at or
/// below `floor`; no more than its own row when a cell lies right below it; otherwise the
/// empty run below it when that run ends at or below `floor`, and its own row when not.
pub open spec fn cell_bound(board: &Board, c: Point, floor: int) -> int {
    let by = c.1 - 1;
    if by <= floor {
        0
    } else if board.cells().contains_key((c.0 as int, by)) {
        c.1 as int
    } else {
        let f = room(board, c.0 as int, by) as int;
        if by - f <= floor { f } else { c.1 as int }
    }
}

/// The dependency the cell `c` gives a shape of `value`: the cell below it when that holds
/// another value, or, below an empty run, the first filled cell when that lies above
/// `floor`, with the run's length. The cell and the offset are given.
pub open spec fn cell_dep(board: &Board, c: Point, floor: int, value: u32) -> Option<(Point, int)> {
    let by = c.1 - 1;
    if by <= floor {
        None
    } else if board.cells().contains_key((c.0 as int, by)) {
        if board.cells()[(c.0 as int, by)] == value {
            None
        } else {
            Some((Point(c.0, by as i32), 0))
        }
    } else {
        let f = room(board, c.0 as int, by) as int;
        if by - f <= floor {
            None
        } else {
            Some((Point(c.0, (by - f) as i32), f))
        }
    }
}

/// The least of `base` and the bounds of `cells`.
pub open spec fn shape_bound(board: &Board, cells: Seq<Point>, floor: int, base: int) -> int
    decreases cells.len(),
{
    if cells.len() == 0 {
        base
    } else {
        min_int(shape_bound(board, cells.drop_last(), floor, base), cell_bound(board, cells.last(), floor))
    }
}

/// The dependencies of `cells`, in order.
pub open spec fn shape_deps(board: &Board, cells: Seq<Point>, floor: int, value: u32) -> Seq<(Point, int)>
    decreases cells.len(),
{
    if cells.len() == 0 {
        Seq::empty()
    } else {
        let prev = shape_deps(board, cells.drop_last(), floor, value);
        match cell_dep(board, cells.last(), floor, value) {
            Some(d) => prev.push(d),
            None => prev,
        }
    }
}

pub open spec fn deps_view(v: Seq<(Point, u64)>) -> Seq<(Point, int)> {
    Seq::new(v.len(), |k: int| (v[k].0, v[k].1 as int))
}

/// `q` is one of the four cells next to `c`.
pub open spec fn next_to(c: Point, q: Point) -> bool {
    ||| q.0 == c.0 && (q.1 == c.1 + 1 || q.1 == c.1 - 1)
    ||| q.1 == c.1 && (q.0 == c.0 + 1 || q.0 == c.0 - 1)
}

/// `q` is next to `c` beside or above it.
pub open spec fn beside_or_above(c: Point, q: Point) -> bool {
    next_to(c, q) && q.1 >= c.1
}

/// `q` was queued while exploring cell `c` of a shape of value `v`: it lies beside or above
/// `c`, or it is the cell `c`'s dependency names.
pub open spec fn pushed_by(board: &Board, c: Point, q: Point, floor: int, v: u32) -> bool {
    beside_or_above(c, q) || (cell_dep(board, c, floor, v) is Some && cell_dep(board, c, floor, v)->Some_0.0 == q)
}

/// Each frontier entry is the queued cell at the matching index of `fq`.
pub open spec fn queue_links(frontier: Seq<Point>, fq: Seq<int>, queued: Seq<Point>) -> bool {
    &&& fq.len() == frontier.len()
    &&& forall|i: int| 0 <= i < fq.len() ==> 0 <= #[trigger] fq[i] < queued.len() && queued[fq[i]] == frontier[i]
}

/// Every queued cell past the seeds was queued by a cell of a shape: a finished one (below
/// `s`, in `sp`) or the current one (`s`, in `cur`).
pub open spec fn origins_ok(board: &Board, queued: Seq<Point>, origin: Seq<(int, int)>, nseeds: int, sp: Seq<Seq<Point>>, cur: Seq<Point>, floor: int) -> bool {
    &&& origin.len() == queued.len()
    &&& forall|j: int| nseeds <= j < queued.len() ==> {
        let o = #[trigger] origin[j];
        &&& 0 <= o.0 <= sp.len()
        &&& o.0 < sp.len() ==> 0 <= o.1 < sp[o.0].len() && pushed_by(board, sp[o.0][o.1], queued[j], floor,
            board.cells()[(sp[o.0][0].0 as int, sp[o.0][0].1 as int)])
        &&& o.0 == sp.len() ==> 0 <= o.1 < cur.len() && pushed_by(board, cur[o.1], queued[j], floor,
            board.cells()[(cur[0].0 as int, cur[0].1 as int)])
    }
}

/// Each finished shape began at a queued cell; one past the seeds was queued by an earlier shape.
pub open spec fn starts_ok(sp: Seq<Seq<Point>>, starts: Seq<int>, queued: Seq<Point>, origin: Seq<(int, int)>, nseeds: int) -> bool {
    &&& starts.len() == sp.len()
    &&& forall|t: int| 0 <= t < sp.len() ==> 0 <= #[trigger] starts[t] < queued.len() && queued[starts[t]] == sp[t][0]
        && (starts[t] >= nseeds ==> origin[starts[t]].0 < t)
}

/// `p` is a cell of the grid that some shape has claimed.
pub open spec fn claimed(owner: Seq<Option<usize>>, w: int, h: int, p: Point) -> bool {
    &&& 0 <= p.0 < w
    &&& 0 <= p.1 < h
    &&& 0 <= grid_of(p, w) < owner.len()
    &&& owner[grid_of(p, w)] is Some
}

/// Number of cells no shape has claimed.
pub open spec fn unclaimed(owner: Seq<Option<usize>>) -> nat
    decreases owner.len(),
{
    if owner.len() == 0 {
        0
    } else {
        unclaimed(owner.drop_last()) + if owner.last() is None { 1nat } else { 0nat }
    }
}

proof fn lemma_unclaimed_claim(owner: Seq<Option<usize>>, i: int, v: usize)
    requires
        0 <= i < owner.len(),
        owner[i] is None,
    ensures
        unclaimed(owner.update(i, Some(v))) + 1 == unclaimed(owner),
    decreases owner.len(),
{
    let t = owner.update(i, Some(v));
    if i == owner.len() - 1 {
        assert(t.drop_last() =~= owner.drop_last());
    } else {
        assert(t.drop_last() =~= owner.drop_last().update(i, Some(v)));
        lemma_unclaimed_claim(owner.drop_last(), i, v);
    }
}

/// Giving the unowned cell `q` to shape `s` keeps every earlier claim.
proof fn lemma_claim(before: Seq<Option<usize>>, after: Seq<Option<usize>>, w: int, h: int, q: Point, s: int)
    requires
        0 <= q.0 < w,
        0 <= q.1 < h,
        0 <= grid_of(q, w) < before.len(),
        before[grid_of(q, w)] is None,
        after == before.update(grid_of(q, w), Some(s as usize)),
    ensures
        owned_by(after, w, h, q, s),
        forall|p: Point, t: int| owned_by(before, w, h, p, t) ==> #[trigger] owned_by(after, w, h, p, t),
        forall|p: Point| claimed(before, w, h, p) ==> #[trigger] claimed(after, w, h, p),
        unclaimed(after) + 1 == unclaimed(before),
{
    lemma_unclaimed_claim(before, grid_of(q, w), s as usize);
}

pub open spec fn points_view(v: Seq<Vec<Point>>) -> Seq<Seq<Point>> {
    Seq::new(v.len(), |i: int| v[i]@)
}

/// The cells of the first `n` shapes whose bound in `b` is positive, each with that bound.
pub open spec fn emitted(points: Seq<Seq<Point>>, b: Seq<int>, n: int) -> Seq<(Point, i32)>
    decreases n,
{
    if n <= 0 {
        Seq::empty()
    } else {
        let prev = emitted(points, b, n - 1);
        if b[n - 1] > 0 {
            prev + Seq::new(points[n - 1].len(), |k: int| (points[n - 1][k], b[n - 1] as i32))
        } else {
            prev
        }
    }
}

proof fn lemma_emitted_ok(board: &Board, points: Seq<Seq<Point>>, b: Seq<int>, n: int)
    requires
        0 <= n <= points.len(),
        n <= b.len(),
        forall|s: int| 0 <= s < points.len() ==> all_filled(board, #[trigger] points[s]),
        forall|s: int| 0 <= s < b.len() ==> #[trigger] b[s] <= MAX_FALL,
    ensures
        falls_ok(board, emitted(points, b, n)),
    decreases n,
{
    if n > 0 {
        lemma_emitted_ok(board, points, b, n - 1);
        let prev = emitted(points, b, n - 1);
        if b[n - 1] > 0 {
            let add = Seq::new(points[n - 1].len(), |k: int| (points[n - 1][k], b[n - 1] as i32));
            let all = prev + add;
            assert forall|i: int| 0 <= i < all.len() implies board.cells().contains_key(((#[trigger] all[i]).0.0 as int, all[i].0.1 as int))
                && all[i].1 > 0 by {
                if i >= prev.len() {
                    assert(all[i] == add[i - prev.len()]);
                    assert(all_filled(board, points[n - 1]));
                }
            }
        }
    }
}

/// `falls` lists every cell of each shape of `g` that moves, with the shape's fall in the
/// greatest assignment consistent with the graph.
pub open spec fn falls_of_graph(g: ShapeGraph, falls: Seq<(Point, i32)>) -> bool {
    exists|b: Seq<int>| greatest_consistent(g.own@, graph_view(g.deps@), b) && falls == #[trigger] emitted(points_view(g.points@), b, g.own@.len() as int)
}

/// The filled cells of row `y` among its first `x` columns, left to right.
pub open spec fn filled_in_row(board: &Board, y: int, x: int) -> Seq<Point>
    decreases x,
{
    if x <= 0 {
        Seq::empty()
    } else {
        let prev = filled_in_row(board, y, x - 1);
        if board.cells().contains_key((x - 1, y)) {
            prev.push(Point((x - 1) as i32, y as i32))
        } else {
            prev
        }
    }
}

/// The filled cells of the first `n` of `rows`, row by row.
pub open spec fn row_seeds(board: &Board, rows: Seq<i32>, n: int) -> Seq<Point>
    decreases n,
{
    if n <= 0 {
        Seq::empty()
    } else {
        row_seeds(board, rows, n - 1) + filled_in_row(board, rows[n - 1] as int, board.spec_width())
    }
}

/// No cell falls below row 0, and no cell is listed twice.
pub open spec fn falls_fit(falls: Seq<(Point, i32)>) -> bool {
    &&& forall|i: int| 0 <= i < falls.len() ==> (#[trigger] falls[i]).0.1 - falls[i].1 >= 0
    &&& forall|i: int, j: int| 0 <= i < falls.len() && 0 <= j < falls.len() && i != j ==> (#[trigger] falls[i]).0 != (#[trigger] falls[j]).0
}

/// Where entry `i` of `emitted(points, b, n)` comes from: a shape below `n` and a cell of it.
proof fn lemma_emitted_member(points: Seq<Seq<Point>>, b: Seq<int>, n: int, i: int) -> (r: (int, int))
    requires
        0 <= n <= points.len(),
        n <= b.len(),
        0 <= i < emitted(points, b, n).len(),
    ensures
        0 <= r.0 < n,
        0 <= r.1 < points[r.0].len(),
        emitted(points, b, n)[i].0 == points[r.0][r.1],
    decreases n,
{
    let prev = emitted(points, b, n - 1);
    if b[n - 1] > 0 {
        let add = Seq::new(points[n - 1].len(), |k: int| (points[n - 1][k], b[n - 1] as i32));
        assert(emitted(points, b, n) =~= prev + add);
        if i >= prev.len() {
            (n - 1, i - prev.len())
        } else {
            lemma_emitted_member(points, b, n - 1, i)
        }
    } else {
        assert(emitted(points, b, n) =~= prev);
        lemma_emitted_member(points, b, n - 1, i)
    }
}

proof fn lemma_room_bound(board: &Board, x: int, y: int)
    ensures
        room(board, x, y) <= if y < 0 { 0 } else { y + 1 },
    decreases y + 1,
{
    if y >= 0 && !board.filled(x, y) {
        lemma_room_bound(board, x, y - 1);
    }
}

proof fn lemma_shape_bound_below(board: &Board, cells: Seq<Point>, floor: int, base: int, m: int)
    requires
        board.wf(),
        0 <= m < cells.len(),
        board.cells().contains_key((cells[m].0 as int, cells[m].1 as int)),
    ensures
        shape_bound(board, cells, floor, base) <= cells[m].1,
    decreases cells.len(),
{
    if m == cells.len() - 1 {
        let c = cells[m];
        board.lemma_cells_in_range((c.0 as int, c.1 as int));
        lemma_room_bound(board, c.0 as int, c.1 - 1);
    } else {
        assert(cells.drop_last()[m] == cells[m]);
        lemma_shape_bound_below(board, cells.drop_last(), floor, base, m);
    }
}

proof fn lemma_emitted_fit(points: Seq<Seq<Point>>, b: Seq<int>, n: int)
    requires
        0 <= n <= points.len(),
        n <= b.len(),
        forall|s: int| 0 <= s < b.len() ==> #[trigger] b[s] <= MAX_FALL,
        forall|s: int, k: int| 0 <= s < points.len() && 0 <= k < points[s].len() ==> b[s] <= (#[trigger] points[s][k]).1,
        forall|s: int| 0 <= s < points.len() ==> (#[trigger] points[s]).no_duplicates(),
        forall|s1: int, k1: int, s2: int, k2: int|
            0 <= s1 < points.len() && 0 <= s2 < points.len() && 0 <= k1 < points[s1].len() && 0 <= k2 < points[s2].len()
                && #[trigger] points[s1][k1] == #[trigger] points[s2][k2] ==> s1 == s2,
    ensures
        falls_fit(emitted(points, b, n)),
    decreases n,
{
    if n > 0 {
        lemma_emitted_fit(points, b, n - 1);
        let prev = emitted(points, b, n - 1);
        if b[n - 1] > 0 {
            let add = Seq::new(points[n - 1].len(), |k: int| (points[n - 1][k], b[n - 1] as i32));
            let all = prev + add;
            assert(all =~= emitted(points, b, n));
            assert forall|i: int| 0 <= i < all.len() implies (#[trigger] all[i]).0.1 - all[i].1 >= 0 by {
                if i >= prev.len() {
                    assert(all[i] == add[i - prev.len()]);
                    assert(b[n - 1] <= points[n - 1][i - prev.len()].1);
                } else {
                    assert(all[i] == prev[i]);
                }
            }
            assert forall|i: int, j: int| 0 <= i < all.len() && 0 <= j < all.len() && i != j implies (#[trigger] all[i]).0 != (#[trigger] all[j]).0 by {
                if i >= prev.len() && j >= prev.len() {
                    assert(all[i] == add[i - prev.len()]);
                    assert(all[j] == add[j - prev.len()]);
                    assert(points[n - 1].no_duplicates());
                } else if i < prev.len() && j < prev.len() {
                    assert(all[i] == prev[i] && all[j] == prev[j]);
                } else {
                    let x = if i < prev.len() { i } else { j };
                    let y = if i < prev.len() { j } else { i };
                    assert(all[x] == prev[x]);
                    assert(all[y] == add[y - prev.len()]);
                    let w = lemma_emitted_member(points, b, n - 1, x);
                    if all[x].0 == all[y].0 {
                        assert(points[w.0][w.1] == points[n - 1][y - prev.len()]);
                    }
                }
            }
        }
    }
}

/// A falling point: every entry names a filled cell and a positive distance.
pub open spec fn falls_ok(board: &Board, falls: Seq<(Point, i32)>) -> bool {
    forall|i: int|
        0 <= i < falls.len() ==> board.cells().contains_key(((#[trigger] falls[i]).0.0 as int, falls[i].0.1 as int))
            && falls[i].1 > 0
}

/// Every point of the list names a filled cell holding `value`.
pub open spec fn all_valued(board: &Board, points: Seq<Point>, value: u32) -> bool {
    forall|i: int| 0 <= i < points.len() ==> board.cells()[((#[trigger] points[i]).0 as int, points[i].1 as int)] == value
}

/// All cells of the list hold one value.
pub open spec fn monochrome(board: &Board, points: Seq<Point>) -> bool {
    forall|i: int, j: int| 0 <= i < points.len() && 0 <= j < points.len() ==> board.cells()[((#[trigger] points[i]).0 as int, points[i].1 as int)]
        == board.cells()[((#[trigger] points[j]).0 as int, points[j].1 as int)]
}

/// Every point of the list names a filled cell.
pub open spec fn all_filled(board: &Board, points: Seq<Point>) -> bool {
    forall|i: int| 0 <= i < points.len() ==> board.cells().contains_key(((#[trigger] points[i]).0 as int, points[i].1 as int))
}

/// Index of a stored cell in a row-major grid of the board's width.
fn grid_index(p: Point, width: usize, rows: usize) -> (r: usize)
    requires
        0 <= p.0 < width,
        0 <= p.1 < rows,
        rows * width <= usize::MAX,
    ensures
        r == p.1 * width + p.0,
        r < rows * width,
{
    proof {
        assert(p.1 * width + p.0 < rows * width) by (nonlinear_arith)
            requires 0 <= p.0 < width, 0 <= p.1 < rows;

    }
    (p.1 as usize) * width + (p.0 as usize)
}

/// The shape owning `p`, if `p` is a stored cell that has been given to a shape.
fn owner_of(owner: &Vec<Option<usize>>, board: &Board, p: Point) -> (r: Option<usize>)
    requires
        board.wf(),
        owner.len() == board.stored_rows() * board.spec_width(),
    ensures
        r is Some ==> 0 <= p.0 < board.spec_width() && 0 <= p.1 < board.stored_rows() && owner@[p.1 * board.spec_width() + p.0] == r,
        0 <= p.0 < board.spec_width() && 0 <= p.1 < board.stored_rows() ==> owner@[p.1 * board.spec_width() + p.0] == r,
{
    let w = board.get_width();
    let h = board.num_active_rows();
    proof { board.lemma_dims(); }
    if p.0 < 0 || p.0 as usize >= w || p.1 < 0 || p.1 as usize >= h {
        None
    } else {
        owner[grid_index(p, w, h)]
    }
}

/// Discovers the shapes reachable from `seeds` and what bounds their falls.
///
/// A shape is a connected region of cells of one value (its four neighbours of that value
/// belong to it). Shapes are discovered by flood fill from the seeds, each shape's cells
/// explored in the order they join it. The cell below a shape's cell decides what bounds
/// the shape (`cell_bound`, `cell_dep`): at or below `lowest_row` it is grounded; a cell of
/// another value makes it rest on that cell's shape; an empty cell lets it fall to the
/// first filled cell beneath, which either lies at or below `lowest_row` (an own bound) or
/// belongs to a shape whose fall, plus the gap, bounds this one. Cells of other values
/// beside, above or below a shape are queued and explored as shapes of their own. Rows
/// below 0 hold no cells, so `lowest_row` is at least -1.
pub fn discover_shapes(board: &Board, seeds: &Vec<Point>, lowest_row: i32) -> (g: ShapeGraph)
    requires
        board.wf(),
        lowest_row >= -1,
    ensures
        g.found_on(board, seeds@, lowest_row as int),
{
    let w = board.get_width();
    let h = board.num_active_rows();
    proof {
        board.lemma_dims();

    }
    let ghost floor = lowest_row as int;
    let cells = h * w;
    let mut owner: Vec<Option<usize>> = vec![None; cells];
    // position of each claimed cell in its shape's list
    let ghost mut pos: Seq<int> = Seq::new(cells as nat, |i: int| 0int);
    let mut shape_points: Vec<Vec<Point>> = Vec::new();
    let mut own: Vec<u64> = Vec::new();
    let mut pending: Vec<Vec<(Point, u64)>> = Vec::new();
    let mut frontier: Vec<Point> = Vec::new();
    let mut i: usize = 0;
    while i < seeds.len()
        invariant
            i <= seeds.len(),
            frontier@ == seeds@.subrange(0, i as int),
        decreases seeds.len() - i,
    {
        frontier.push(seeds[i]);
        i += 1;
    }
    // every cell ever queued, seeds first
    let ghost mut queued: Seq<Point> = seeds@;
    // for each pending dependency, where its cell was queued
    let ghost mut pending_q: Seq<Seq<int>> = Seq::empty();
    // provenance: frontier entries' places in `queued`, who queued each cell, where shapes began
    let ghost mut fq: Seq<int> = Seq::new(seeds@.len(), |i: int| i);
    let ghost mut origin: Seq<(int, int)> = Seq::new(seeds@.len(), |i: int| (0int, 0int));
    let ghost mut starts: Seq<int> = Seq::empty();
    let ghost nseeds = seeds@.len() as int;
    proof {
        assert(frontier@ =~= seeds@);
        assert forall|j: int| 0 <= j < owner@.len() implies #[trigger] owner@[j] is None by {}
        assert forall|j: int| 0 <= j < queued.len() implies frontier@.contains(#[trigger] queued[j]) by {
            assert(frontier@[j] == queued[j]);
        }
    }
    // every step discards a queued cell or explores a claimed one, which queues at most four
    // more: five times the unclaimed cells plus the queue shrinks
    while frontier.len() > 0
        invariant
            board.wf(),
            floor == lowest_row as int,
            floor >= -1,
            w == board.spec_width(),
            h == board.stored_rows(),
            cells == h * w,
            h <= MAX_DIM,
            w <= MAX_DIM,
            h * w <= usize::MAX,
            owner.len() == cells,
            pos.len() == cells,
            shape_points.len() == own.len(),
            pending.len() == own.len(),
            pending_q.len() == own.len(),
            seeds@ == queued.subrange(0, seeds@.len() as int),
            nseeds == seeds@.len(),
            queue_links(frontier@, fq, queued),
            origins_ok(board, queued, origin, nseeds, points_view(shape_points@), Seq::<Point>::empty(), floor),
            starts_ok(points_view(shape_points@), starts, queued, origin, nseeds),
            seeds@.len() <= queued.len(),
            forall|j: int| 0 <= j < queued.len() ==> !board.cells().contains_key(((#[trigger] queued[j]).0 as int, queued[j].1 as int))
                || frontier@.contains(queued[j]) || claimed(owner@, w as int, h as int, queued[j]),
            forall|s: int| 0 <= s < shape_points.len() ==> (#[trigger] shape_points@[s]@).len() >= 1
                && all_filled(board, shape_points@[s]@)
                && all_valued(board, shape_points@[s]@, board.cells()[(shape_points@[s]@[0].0 as int, shape_points@[s]@[0].1 as int)]),
            forall|s: int| 0 <= s < own.len() ==> own@[s] as int == #[trigger] shape_bound(board, shape_points@[s]@, floor, h as int),
            forall|s: int| 0 <= s < own.len() ==> #[trigger] own@[s] <= MAX_FALL,
            forall|s: int| 0 <= s < pending.len() ==> deps_view(#[trigger] pending@[s]@) == shape_deps(board, shape_points@[s]@, floor,
                board.cells()[(shape_points@[s]@[0].0 as int, shape_points@[s]@[0].1 as int)]),
            forall|s: int, k: int| 0 <= s < pending.len() && 0 <= k < pending@[s]@.len() ==> (#[trigger] pending@[s]@[k]).1 <= MAX_FALL,
            forall|s: int| 0 <= s < pending.len() ==> (#[trigger] pending_q[s]).len() == pending@[s]@.len(),
            forall|s: int, k: int| 0 <= s < pending.len() && 0 <= k < pending@[s]@.len() ==> board.cells().contains_key(((#[trigger] pending@[s]@[k]).0.0 as int, pending@[s]@[k].0.1 as int)),
            forall|s: int, k: int| 0 <= s < pending.len() && 0 <= k < pending@[s]@.len() ==> 0 <= #[trigger] pending_q[s][k] < queued.len()
                && queued[pending_q[s][k]] == pending@[s]@[k].0,
            forall|t: int, k: int| 0 <= t < shape_points.len() && 0 <= k < shape_points@[t]@.len() ==> owned_by(owner@, w as int, h as int, #[trigger] shape_points@[t]@[k], t),
            forall|t: int, k: int| 0 <= t < shape_points.len() && 0 <= k < shape_points@[t]@.len() ==> pos[grid_of(#[trigger] shape_points@[t]@[k], w as int)] == k,
            forall|t: int, k: int, q: Point| 0 <= t < shape_points.len() && 0 <= k < shape_points@[t]@.len() && beside_or_above(#[trigger] shape_points@[t]@[k], q)
                && #[trigger] board.cells().contains_key((q.0 as int, q.1 as int)) ==> queued.contains(q) || claimed(owner@, w as int, h as int, q),
            forall|t: int, k: int, q: Point| 0 <= t < shape_points.len() && 0 <= k < shape_points@[t]@.len() && next_to(#[trigger] shape_points@[t]@[k], q)
                && #[trigger] board.cells().contains_key((q.0 as int, q.1 as int))
                && board.cells()[(q.0 as int, q.1 as int)] == board.cells()[(shape_points@[t]@[0].0 as int, shape_points@[t]@[0].1 as int)]
                ==> owned_by(owner@, w as int, h as int, q, t),
            forall|j: int| 0 <= j < cells && #[trigger] owner@[j] is Some ==> (owner@[j]->Some_0 as int) < shape_points.len()
                && 0 <= pos[j] < shape_points@[owner@[j]->Some_0 as int]@.len()
                && grid_of(shape_points@[owner@[j]->Some_0 as int]@[pos[j]], w as int) == j,
        decreases 5 * unclaimed(owner@) + frontier@.len(),
    {
        let ghost m_start = 5 * unclaimed(owner@) + frontier@.len();
        let ghost fr = frontier@;
        let p = frontier.pop().unwrap();
        let ghost pstart = fq.last();
        proof {
            fq = fq.drop_last();
            assert(fr =~= frontier@.push(p));
            assert forall|j: int| 0 <= j < queued.len() && fr.contains(#[trigger] queued[j]) && queued[j] != p implies frontier@.contains(queued[j]) by {
                let x = choose|x: int| 0 <= x < fr.len() && fr[x] == queued[j];
                assert(frontier@[x] == queued[j]);
            }
        }
        let value = match board.value_at(p) {
            Some(v) => v,
            None => {
                proof {
                    assert forall|j: int| 0 <= j < queued.len() implies !board.cells().contains_key(((#[trigger] queued[j]).0 as int, queued[j].1 as int))
                        || frontier@.contains(queued[j]) || claimed(owner@, w as int, h as int, queued[j]) by {
                        if queued[j] != p && fr.contains(queued[j]) {
                            assert(frontier@.contains(queued[j]));
                        }
                    }
                }
                continue;
            },
        };
        if owner_of(&owner, board, p).is_some() {
            proof {
                board.lemma_cells_in_range((p.0 as int, p.1 as int));
                lemma_grid_in(p, w as int, h as int);
                assert(claimed(owner@, w as int, h as int, p));
                assert forall|j: int| 0 <= j < queued.len() implies !board.cells().contains_key(((#[trigger] queued[j]).0 as int, queued[j].1 as int))
                    || frontier@.contains(queued[j]) || claimed(owner@, w as int, h as int, queued[j]) by {
                    if queued[j] != p && fr.contains(queued[j]) {
                        assert(frontier@.contains(queued[j]));
                    }
                }
            }
            continue;
        }
        proof { board.lemma_cells_in_range((p.0 as int, p.1 as int)); }
        let s = shape_points.len();
        let mut points: Vec<Point> = Vec::new();
        let mut deps: Vec<(Point, u64)> = Vec::new();
        let ghost mut deps_q: Seq<int> = Seq::empty();
        let mut bound: u64 = h as u64;
        let ghost before_claim = owner@;
        let idx = grid_index(p, w, h);
        owner.set(idx, Some(s));
        proof {
            lemma_claim(before_claim, owner@, w as int, h as int, p, s as int);
            pos = pos.update(idx as int, 0);
        }
        points.push(p);
        let mut next: usize = 0;
        while next < points.len()
            invariant
                5 * unclaimed(owner@) + 5 * (points@.len() - next) + frontier@.len() < m_start,
                board.wf(),
                floor == lowest_row as int,
                floor >= -1,
                w == board.spec_width(),
                h == board.stored_rows(),
                cells == h * w,
                h <= MAX_DIM,
                w <= MAX_DIM,
                h * w <= usize::MAX,
                owner.len() == cells,
                pos.len() == cells,
                next <= points@.len(),
                points@.len() >= 1,
                points@[0] == p,
                board.cells().contains_key((p.0 as int, p.1 as int)),
                board.cells()[(p.0 as int, p.1 as int)] == value,
                all_filled(board, points@),
                all_valued(board, points@, value),
                bound as int == shape_bound(board, points@.subrange(0, next as int), floor, h as int),
                bound <= h,
                deps_view(deps@) == shape_deps(board, points@.subrange(0, next as int), floor, value),
                forall|k: int| 0 <= k < deps@.len() ==> (#[trigger] deps@[k]).1 <= MAX_FALL,
                deps_q.len() == deps@.len(),
                forall|k: int| 0 <= k < deps@.len() ==> 0 <= #[trigger] deps_q[k] < queued.len() && queued[deps_q[k]] == deps@[k].0,
                forall|k: int| 0 <= k < deps@.len() ==> board.cells().contains_key(((#[trigger] deps@[k]).0.0 as int, deps@[k].0.1 as int)),
                s == shape_points.len(),
                shape_points.len() == own.len(),
                pending.len() == own.len(),
                pending_q.len() == own.len(),
                seeds@ == queued.subrange(0, seeds@.len() as int),
                nseeds == seeds@.len(),
                queue_links(frontier@, fq, queued),
                origins_ok(board, queued, origin, nseeds, points_view(shape_points@), points@, floor),
                starts_ok(points_view(shape_points@), starts, queued, origin, nseeds),
                0 <= pstart < queued.len() && queued[pstart] == p,
                pstart >= nseeds ==> origin[pstart].0 < s,
                seeds@.len() <= queued.len(),
                forall|j: int| 0 <= j < queued.len() ==> !board.cells().contains_key(((#[trigger] queued[j]).0 as int, queued[j].1 as int))
                    || frontier@.contains(queued[j]) || claimed(owner@, w as int, h as int, queued[j]),
                forall|s: int| 0 <= s < shape_points.len() ==> (#[trigger] shape_points@[s]@).len() >= 1
                    && all_filled(board, shape_points@[s]@)
                    && all_valued(board, shape_points@[s]@, board.cells()[(shape_points@[s]@[0].0 as int, shape_points@[s]@[0].1 as int)]),
                forall|s: int| 0 <= s < own.len() ==> own@[s] as int == #[trigger] shape_bound(board, shape_points@[s]@, floor, h as int),
                forall|s: int| 0 <= s < own.len() ==> #[trigger] own@[s] <= MAX_FALL,
                forall|s: int| 0 <= s < pending.len() ==> deps_view(#[trigger] pending@[s]@) == shape_deps(board, shape_points@[s]@, floor,
                    board.cells()[(shape_points@[s]@[0].0 as int, shape_points@[s]@[0].1 as int)]),
                forall|s: int, k: int| 0 <= s < pending.len() && 0 <= k < pending@[s]@.len() ==> (#[trigger] pending@[s]@[k]).1 <= MAX_FALL,
                forall|s: int| 0 <= s < pending.len() ==> (#[trigger] pending_q[s]).len() == pending@[s]@.len(),
                forall|s: int, k: int| 0 <= s < pending.len() && 0 <= k < pending@[s]@.len() ==> board.cells().contains_key(((#[trigger] pending@[s]@[k]).0.0 as int, pending@[s]@[k].0.1 as int)),
                forall|s: int, k: int| 0 <= s < pending.len() && 0 <= k < pending@[s]@.len() ==> 0 <= #[trigger] pending_q[s][k] < queued.len()
                    && queued[pending_q[s][k]] == pending@[s]@[k].0,
                forall|t: int, k: int| 0 <= t < shape_points.len() && 0 <= k < shape_points@[t]@.len() ==> owned_by(owner@, w as int, h as int, #[trigger] shape_points@[t]@[k], t),
                forall|t: int, k: int| 0 <= t < shape_points.len() && 0 <= k < shape_points@[t]@.len() ==> pos[grid_of(#[trigger] shape_points@[t]@[k], w as int)] == k,
                forall|t: int, k: int, q: Point| 0 <= t < shape_points.len() && 0 <= k < shape_points@[t]@.len() && beside_or_above(#[trigger] shape_points@[t]@[k], q)
                    && #[trigger] board.cells().contains_key((q.0 as int, q.1 as int)) ==> queued.contains(q) || claimed(owner@, w as int, h as int, q),
                forall|t: int, k: int, q: Point| 0 <= t < shape_points.len() && 0 <= k < shape_points@[t]@.len() && next_to(#[trigger] shape_points@[t]@[k], q)
                    && #[trigger] board.cells().contains_key((q.0 as int, q.1 as int))
                    && board.cells()[(q.0 as int, q.1 as int)] == board.cells()[(shape_points@[t]@[0].0 as int, shape_points@[t]@[0].1 as int)]
                    ==> owned_by(owner@, w as int, h as int, q, t),
                forall|k: int| 0 <= k < points@.len() ==> owned_by(owner@, w as int, h as int, #[trigger] points@[k], s as int),
                forall|k: int| 0 <= k < points@.len() ==> pos[grid_of(#[trigger] points@[k], w as int)] == k,
                forall|k: int, q: Point| 0 <= k < next && beside_or_above(#[trigger] points@[k], q)
                    && #[trigger] board.cells().contains_key((q.0 as int, q.1 as int)) ==> queued.contains(q) || claimed(owner@, w as int, h as int, q),
                forall|k: int, q: Point| 0 <= k < next && next_to(#[trigger] points@[k], q)
                    && #[trigger] board.cells().contains_key((q.0 as int, q.1 as int))
                    && board.cells()[(q.0 as int, q.1 as int)] == value
                    ==> owned_by(owner@, w as int, h as int, q, s as int),
                forall|j: int| 0 <= j < cells && #[trigger] owner@[j] is Some && (owner@[j]->Some_0 as int) < s ==> 0 <= pos[j]
                    < shape_points@[owner@[j]->Some_0 as int]@.len() && grid_of(shape_points@[owner@[j]->Some_0 as int]@[pos[j]], w as int) == j,
                forall|j: int| 0 <= j < cells && #[trigger] owner@[j] is Some ==> (owner@[j]->Some_0 as int) <= s,
                forall|j: int| 0 <= j < cells && #[trigger] owner@[j] == Some(s) ==> 0 <= pos[j] < points@.len()
                    && grid_of(points@[pos[j]], w as int) == j,
            decreases 5 * unclaimed(owner@) + 5 * (points@.len() - next) + frontier@.len(),
        {
            let ghost m_iter = 5 * unclaimed(owner@) + 5 * (points@.len() - next) + frontier@.len();
            let c = points[next];
            proof {
                assert(board.cells().contains_key((c.0 as int, c.1 as int)));
                board.lemma_cells_in_range((c.0 as int, c.1 as int));
            }
            let ghost explored = points@.subrange(0, next as int + 1);
            proof {
                assert(explored.drop_last() =~= points@.subrange(0, next as int));
                assert(explored.last() == c);
            }
            let ghost deps_before = deps@;
            // the cell below: what bounds the shape, and what it rests on
            let below = Point(c.0, c.1 - 1);
            let below_value = board.value_at(below);
            if below.1 <= lowest_row {
                bound = 0;
            } else {
                match below_value {
                    Some(v) => {
                        if v != value {
                            deps.push((below, 0));
                            let ghost fr0 = frontier@;
                            frontier.push(below);
                            proof {
                                lemma_push_contains(fr0, below);
                                deps_q = deps_q.push(queued.len() as int);
                                lemma_push_contains(queued, below);
                                fq = fq.push(queued.len() as int);
                                origin = origin.push((s as int, next as int));
                                queued = queued.push(below);
                            }
                        }
                        if (c.1 as u64) < bound {
                            bound = c.1 as u64;
                        }
                    },
                    None => {
                        let collision = board.point_first_collision(below);
                        let fall = 1 - collision.1;
                        let hit = below.1 - fall;
                        proof {
                            lemma_room(board, c.0 as int, below.1 as int, fall as int);
                        }
                        if hit <= lowest_row {
                            if (fall as u64) < bound {
                                bound = fall as u64;
                            }
                        } else {
                            deps.push((Point(c.0, hit), fall as u64));
                            let ghost fr0 = frontier@;
                            frontier.push(Point(c.0, hit));
                            proof {
                                lemma_push_contains(fr0, Point(c.0, hit));
                                deps_q = deps_q.push(queued.len() as int);
                                lemma_push_contains(queued, Point(c.0, hit));
                                fq = fq.push(queued.len() as int);
                                origin = origin.push((s as int, next as int));
                                queued = queued.push(Point(c.0, hit));
                            }
                            if (c.1 as u64) < bound {
                                bound = c.1 as u64;
                            }
                        }
                    },
                }
            }
            proof {
                assert(bound as int == shape_bound(board, explored, floor, h as int));
                assert(deps_view(deps@) =~= shape_deps(board, explored, floor, value));
            }
            // neighbours of the same value join the shape; others are explored later
            let up = Point(c.0, c.1 + 1);
            let left = Point(c.0 - 1, c.1);
            let right = Point(c.0 + 1, c.1);
            let neighbours = vec![up, left, right, below];
            let mut k: usize = 0;
            while k < 4
                invariant
                    board.wf(),
                    w == board.spec_width(),
                    h == board.stored_rows(),
                    cells == h * w,
                    h <= MAX_DIM,
                    w <= MAX_DIM,
                    h * w <= usize::MAX,
                    owner.len() == cells,
                    pos.len() == cells,
                    neighbours@ == seq![up, left, right, below],
                    up.0 == c.0 && up.1 == c.1 + 1,
                    left.0 == c.0 - 1 && left.1 == c.1,
                    right.0 == c.0 + 1 && right.1 == c.1,
                    below.0 == c.0 && below.1 == c.1 - 1,
                    next < points@.len(),
                    points@[next as int] == c,
                    points@.len() >= 1,
                    points@[0] == p,
                    explored == points@.subrange(0, next as int + 1),
                    all_filled(board, points@),
                    all_valued(board, points@, value),
                    k <= 4,
                    5 * unclaimed(owner@) + 5 * (points@.len() - next) + frontier@.len() <= m_iter + (if k < 3 { k as int } else { 3 })
                        + (deps@.len() - deps_before.len()),
                    deps@.len() - deps_before.len() <= 1,
                    deps_q.len() == deps@.len(),
                    forall|k2: int| 0 <= k2 < deps@.len() ==> 0 <= #[trigger] deps_q[k2] < queued.len() && queued[deps_q[k2]] == deps@[k2].0,
                    forall|s2: int| 0 <= s2 < pending.len() ==> (#[trigger] pending_q[s2]).len() == pending@[s2]@.len(),
                    forall|s2: int, k2: int| 0 <= s2 < pending.len() && 0 <= k2 < pending@[s2]@.len() ==> 0 <= #[trigger] pending_q[s2][k2] < queued.len()
                        && queued[pending_q[s2][k2]] == pending@[s2]@[k2].0,
                    pending.len() == shape_points.len(),
                    forall|s2: int| 0 <= s2 < shape_points.len() ==> (#[trigger] shape_points@[s2]@).len() >= 1
                        && all_filled(board, shape_points@[s2]@)
                        && all_valued(board, shape_points@[s2]@, board.cells()[(shape_points@[s2]@[0].0 as int, shape_points@[s2]@[0].1 as int)]),
                    m_iter < m_start,
                    s == shape_points.len(),
                    seeds@ == queued.subrange(0, seeds@.len() as int),
                    nseeds == seeds@.len(),
                    queue_links(frontier@, fq, queued),
                    origins_ok(board, queued, origin, nseeds, points_view(shape_points@), points@, floor),
                    starts_ok(points_view(shape_points@), starts, queued, origin, nseeds),
                    0 <= pstart < queued.len() && queued[pstart] == p,
                    pstart >= nseeds ==> origin[pstart].0 < s,
                    seeds@.len() <= queued.len(),
                    forall|j: int| 0 <= j < queued.len() ==> !board.cells().contains_key(((#[trigger] queued[j]).0 as int, queued[j].1 as int))
                        || frontier@.contains(queued[j]) || claimed(owner@, w as int, h as int, queued[j]),
                    forall|t: int, k: int| 0 <= t < shape_points.len() && 0 <= k < shape_points@[t]@.len() ==> owned_by(owner@, w as int, h as int, #[trigger] shape_points@[t]@[k], t),
                    forall|t: int, k: int, q: Point| 0 <= t < shape_points.len() && 0 <= k < shape_points@[t]@.len() && beside_or_above(#[trigger] shape_points@[t]@[k], q)
                        && #[trigger] board.cells().contains_key((q.0 as int, q.1 as int)) ==> queued.contains(q) || claimed(owner@, w as int, h as int, q),
                    forall|t: int, k: int, q: Point| 0 <= t < shape_points.len() && 0 <= k < shape_points@[t]@.len() && next_to(#[trigger] shape_points@[t]@[k], q)
                        && #[trigger] board.cells().contains_key((q.0 as int, q.1 as int))
                        && board.cells()[(q.0 as int, q.1 as int)] == board.cells()[(shape_points@[t]@[0].0 as int, shape_points@[t]@[0].1 as int)]
                        ==> owned_by(owner@, w as int, h as int, q, t),
                    forall|k2: int| 0 <= k2 < points@.len() ==> owned_by(owner@, w as int, h as int, #[trigger] points@[k2], s as int),
                    forall|k2: int| 0 <= k2 < points@.len() ==> pos[grid_of(#[trigger] points@[k2], w as int)] == k2,
                    forall|k2: int, q: Point| 0 <= k2 < next && beside_or_above(#[trigger] points@[k2], q)
                        && #[trigger] board.cells().contains_key((q.0 as int, q.1 as int)) ==> queued.contains(q) || claimed(owner@, w as int, h as int, q),
                    forall|j: int| 0 <= j < k && j < 3 && #[trigger] board.cells().contains_key((neighbours@[j].0 as int, neighbours@[j].1 as int))
                        ==> queued.contains(neighbours@[j]) || claimed(owner@, w as int, h as int, neighbours@[j]),
                    forall|k2: int, q: Point| 0 <= k2 < next && next_to(#[trigger] points@[k2], q)
                        && #[trigger] board.cells().contains_key((q.0 as int, q.1 as int))
                        && board.cells()[(q.0 as int, q.1 as int)] == value
                        ==> owned_by(owner@, w as int, h as int, q, s as int),
                    forall|j: int| 0 <= j < k && #[trigger] board.cells().contains_key((neighbours@[j].0 as int, neighbours@[j].1 as int))
                        && board.cells()[(neighbours@[j].0 as int, neighbours@[j].1 as int)] == value
                        ==> owned_by(owner@, w as int, h as int, neighbours@[j], s as int),
                    forall|j: int| 0 <= j < cells && #[trigger] owner@[j] is Some && (owner@[j]->Some_0 as int) < s ==> 0 <= pos[j]
                        < shape_points@[owner@[j]->Some_0 as int]@.len() && grid_of(shape_points@[owner@[j]->Some_0 as int]@[pos[j]], w as int) == j,
                    forall|j: int| 0 <= j < cells && #[trigger] owner@[j] is Some ==> (owner@[j]->Some_0 as int) <= s,
                    forall|j: int| 0 <= j < cells && #[trigger] owner@[j] == Some(s) ==> 0 <= pos[j] < points@.len()
                        && grid_of(points@[pos[j]], w as int) == j,
                decreases 4 - k,
            {
                let n = neighbours[k];
                match board.value_at(n) {
                    Some(v) => {
                        if v == value {
                            match owner_of(&owner, board, n) {
                                None => {
                                    proof { board.lemma_cells_in_range((n.0 as int, n.1 as int)); }
                                    let ghost before_claim = owner@;
                                    let idx = grid_index(n, w, h);
                                    owner.set(idx, Some(s));
                                    proof {
                                        lemma_claim(before_claim, owner@, w as int, h as int, n, s as int);
                                        pos = pos.update(idx as int, points@.len() as int);
                                    }
                                    points.push(n);
                                },
                                Some(t) => {
                                    proof {
                                        board.lemma_cells_in_range((n.0 as int, n.1 as int));
                                        lemma_grid_in(n, w as int, h as int);
                                        assert(owner@[grid_of(n, w as int)] is Some);
                                        if (t as int) < s as int {
                                            let vt = board.cells()[(shape_points@[t as int]@[0].0 as int, shape_points@[t as int]@[0].1 as int)];
                                            assert(all_valued(board, shape_points@[t as int]@, vt));
                                            assert(owner@[grid_of(n, w as int)] == Some(t));
                                            assert(owner@[grid_of(n, w as int)] is Some);
                                            // the finished shape `t` would own `c` too
                                            let m = pos[grid_of(n, w as int)];
                                            lemma_grid_injective(shape_points@[t as int]@[m], n, w as int);
                                            assert(shape_points@[t as int]@[m] == n);
                                            assert(board.cells()[(n.0 as int, n.1 as int)] == vt);
                                            assert(next_to(shape_points@[t as int]@[m], c));
                                            assert(owned_by(owner@, w as int, h as int, c, t as int));
                                            assert(owned_by(owner@, w as int, h as int, c, s as int));
                                            assert(false);
                                        }
                                        assert(owned_by(owner@, w as int, h as int, n, s as int));
                                    }
                                },
                            }
                        } else if k < 3 {
                            let ghost fr0 = frontier@;
                            frontier.push(n);
                            proof {
                                lemma_push_contains(fr0, n);
                                lemma_push_contains(queued, n);
                                fq = fq.push(queued.len() as int);
                                origin = origin.push((s as int, next as int));
                                queued = queued.push(n);
                            }
                        }
                    },
                    None => {},
                }
                k += 1;
            }
            proof {
                assert forall|q: Point| next_to(c, q) && #[trigger] board.cells().contains_key((q.0 as int, q.1 as int))
                    && board.cells()[(q.0 as int, q.1 as int)] == value implies owned_by(owner@, w as int, h as int, q, s as int) by {
                    if q == neighbours@[0] {} else if q == neighbours@[1] {} else if q == neighbours@[2] {} else {
                        assert(q == neighbours@[3]);
                    }
                }
                assert forall|q: Point| beside_or_above(c, q) && #[trigger] board.cells().contains_key((q.0 as int, q.1 as int))
                    implies queued.contains(q) || claimed(owner@, w as int, h as int, q) by {
                    if q == neighbours@[0] {} else if q == neighbours@[1] {} else {
                        assert(q == neighbours@[2]);
                    }
                }
                assert(points@.subrange(0, next as int + 1) == explored);
            }
            next += 1;
        }
        proof {
            assert(points@.subrange(0, next as int) =~= points@);
        }
        shape_points.push(points);
        own.push(bound);
        pending.push(deps);
        proof {
            pending_q = pending_q.push(deps_q);
            starts = starts.push(pstart);
        }
    }
    // resolve each dependency's target cell to the shape that owns it
    let n = own.len();
    let ghost pv = points_view(shape_points@);
    let mut graph: Vec<Vec<ShapeDependency>> = Vec::new();
    let mut s: usize = 0;
    while s < n
        invariant
            board.wf(),
            w == board.spec_width(),
            h == board.stored_rows(),
            owner.len() == board.stored_rows() * board.spec_width(),
            pos.len() == owner.len(),
            n == own.len(),
            n == shape_points.len(),
            pv == points_view(shape_points@),
            pending.len() == n,
            pending_q.len() == n,
            s <= n,
            graph.len() == s,
            frontier@.len() == 0,
            forall|j: int| 0 <= j < queued.len() ==> !board.cells().contains_key(((#[trigger] queued[j]).0 as int, queued[j].1 as int))
                || frontier@.contains(queued[j]) || claimed(owner@, w as int, h as int, queued[j]),
            forall|x: int| 0 <= x < n ==> #[trigger] own@[x] <= MAX_FALL,
            forall|x: int, k: int| 0 <= x < pending.len() && 0 <= k < pending@[x]@.len() ==> (#[trigger] pending@[x]@[k]).1 <= MAX_FALL,
            forall|x: int| 0 <= x < pending.len() ==> (#[trigger] pending_q[x]).len() == pending@[x]@.len(),
            forall|x: int, k: int| 0 <= x < pending.len() && 0 <= k < pending@[x]@.len() ==> board.cells().contains_key(((#[trigger] pending@[x]@[k]).0.0 as int, pending@[x]@[k].0.1 as int)),
            forall|x: int, k: int| 0 <= x < pending.len() && 0 <= k < pending@[x]@.len() ==> 0 <= #[trigger] pending_q[x][k] < queued.len()
                && queued[pending_q[x][k]] == pending@[x]@[k].0,
            forall|x: int| 0 <= x < s ==> (#[trigger] graph@[x]@).len() == pending@[x]@.len(),
            forall|x: int, k: int|
                0 <= x < s && 0 <= k < graph@[x]@.len() ==> 0 <= (#[trigger] graph@[x]@[k]).target() < n
                    && graph@[x]@[k].offset() <= MAX_FALL && graph@[x]@[k].offset() == pending@[x]@[k].1 as int
                    && exists|m2: int| 0 <= m2 < pv[graph@[x]@[k].target()].len() && #[trigger] pv[graph@[x]@[k].target()][m2] == pending@[x]@[k].0,
            forall|t: int, k: int| 0 <= t < shape_points.len() && 0 <= k < shape_points@[t]@.len() ==> owned_by(owner@, w as int, h as int, #[trigger] shape_points@[t]@[k], t),
            forall|j: int| 0 <= j < owner@.len() && #[trigger] owner@[j] is Some ==> (owner@[j]->Some_0 as int) < shape_points.len()
                && 0 <= pos[j] < shape_points@[owner@[j]->Some_0 as int]@.len()
                && grid_of(shape_points@[owner@[j]->Some_0 as int]@[pos[j]], w as int) == j,
        decreases n - s,
    {
        let ds = &pending[s];
        let mut resolved: Vec<ShapeDependency> = Vec::new();
        let mut k: usize = 0;
        while k < ds.len()
            invariant
                board.wf(),
                w == board.spec_width(),
                h == board.stored_rows(),
                owner.len() == board.stored_rows() * board.spec_width(),
                pos.len() == owner.len(),
                n == own.len(),
                n == shape_points.len(),
                pv == points_view(shape_points@),
                s < n,
                ds@ == pending@[s as int]@,
                pending_q[s as int].len() == ds@.len(),
                k <= ds.len(),
                resolved@.len() == k,
                frontier@.len() == 0,
                forall|j: int| 0 <= j < queued.len() ==> !board.cells().contains_key(((#[trigger] queued[j]).0 as int, queued[j].1 as int))
                    || frontier@.contains(queued[j]) || claimed(owner@, w as int, h as int, queued[j]),
                forall|m: int| 0 <= m < ds@.len() ==> (#[trigger] ds@[m]).1 <= MAX_FALL,
                forall|m: int| 0 <= m < ds@.len() ==> board.cells().contains_key(((#[trigger] ds@[m]).0.0 as int, ds@[m].0.1 as int)),
                forall|m: int| 0 <= m < ds@.len() ==> 0 <= #[trigger] pending_q[s as int][m] < queued.len()
                    && queued[pending_q[s as int][m]] == ds@[m].0,
                forall|m: int|
                    0 <= m < resolved@.len() ==> 0 <= (#[trigger] resolved@[m]).target() < n
                        && resolved@[m].offset() <= MAX_FALL && resolved@[m].offset() == ds@[m].1 as int
                        && exists|m2: int| 0 <= m2 < pv[resolved@[m].target()].len() && #[trigger] pv[resolved@[m].target()][m2] == ds@[m].0,
                forall|t: int, k: int| 0 <= t < shape_points.len() && 0 <= k < shape_points@[t]@.len() ==> owned_by(owner@, w as int, h as int, #[trigger] shape_points@[t]@[k], t),
                forall|j: int| 0 <= j < owner@.len() && #[trigger] owner@[j] is Some ==> (owner@[j]->Some_0 as int) < shape_points.len()
                    && 0 <= pos[j] < shape_points@[owner@[j]->Some_0 as int]@.len()
                    && grid_of(shape_points@[owner@[j]->Some_0 as int]@[pos[j]], w as int) == j,
            decreases ds.len() - k,
        {
            let (target, offset) = ds[k];
            proof {
                let qi = pending_q[s as int][k as int];
                assert(queued[qi] == target);
                assert(!frontier@.contains(target));
            }
            let found = owner_of(&owner, board, target);
            // every queued filled cell was claimed
            if found.is_none() || !(found.unwrap() < n) || board.value_at(target).is_none() {
                proof {
                    let qi = pending_q[s as int][k as int];
                    assert(queued[qi] == target);
                }
                proof {
                    assert(board.cells().contains_key((target.0 as int, target.1 as int)));
                    assert(claimed(owner@, w as int, h as int, target));
                    assert(false);
                }
                resolved.push(ShapeDependency::Adjacent(s));
            } else {
                let t = found.unwrap();
                let dep = if offset == 0 { ShapeDependency::Adjacent(t) } else { ShapeDependency::Fall(t, offset) };
                proof {
                    let j = grid_of(target, w as int);
                    assert(0 <= j < owner@.len()) by (nonlinear_arith)
                        requires
                            0 <= target.0 < w,
                            0 <= target.1 < h,
                            owner@.len() == h * w,
                            j == target.1 * w + target.0;
                    assert(owner@[j] == Some(t));
                    assert(owner@[j] is Some);
                    let m2 = pos[j];
                    assert(0 <= m2 < shape_points@[t as int]@.len());
                    assert(owned_by(owner@, w as int, h as int, shape_points@[t as int]@[m2], t as int));
                    lemma_grid_injective(shape_points@[t as int]@[m2], target, w as int);
                    assert(pv[t as int] == shape_points@[t as int]@);
                    assert(pv[dep.target()][m2] == target);
                }
                resolved.push(dep);
            }
            k += 1;
        }
        graph.push(resolved);
        s += 1;
    }
    proof {
        assert forall|x: int, k: int|
            0 <= x < graph_view(graph@).len() && 0 <= k < graph_view(graph@)[x].len() implies 0
                <= (#[trigger] graph_view(graph@)[x][k]).target() < own@.len() && graph_view(graph@)[x][k].offset()
                <= MAX_FALL by {
            assert(graph_view(graph@)[x] == graph@[x]@);
        }
    }
    let g = ShapeGraph { points: shape_points, own, deps: graph };
    proof {
        let pts = points_view(g.points@);
        assert forall|x: int| 0 <= x < pts.len() implies #[trigger] pts[x] == g.points@[x]@ by {}
        // a claimed cell lies in the shape that owns it
        assert forall|q: Point| #[trigger] claimed(owner@, w as int, h as int, q) implies exists|t: int, m: int|
            0 <= t < pts.len() && 0 <= m < pts[t].len() && pts[t][m] == q
            && owned_by(owner@, w as int, h as int, q, t) by {
            let j = grid_of(q, w as int);
            let t = owner@[j]->Some_0 as int;
            let m = pos[j];
            lemma_grid_injective(g.points@[t]@[m], q, w as int);
            assert(pts[t][m] == q);
        }
        assert forall|i: int| 0 <= i < seeds@.len() && board.cells().contains_key((seeds@[i].0 as int, seeds@[i].1 as int))
            implies exists|s: int, m: int| 0 <= s < pts.len() && 0 <= m < pts[s].len() && #[trigger] pts[s][m] == seeds@[i] by {
            assert(queued[i] == seeds@[i]);
            assert(!frontier@.contains(queued[i]));
            assert(claimed(owner@, w as int, h as int, seeds@[i]));
        }
        assert forall|s: int, m: int, q: Point|
            0 <= s < pts.len() && 0 <= m < pts[s].len() && next_to(#[trigger] pts[s][m], q)
                && #[trigger] board.cells().contains_key((q.0 as int, q.1 as int))
                && board.cells()[(q.0 as int, q.1 as int)] == g.value_of(board, s)
                implies exists|m2: int| 0 <= m2 < pts[s].len() && #[trigger] pts[s][m2] == q by {
            assert(g.points@[s]@[m] == pts[s][m]);
            assert(owned_by(owner@, w as int, h as int, q, s));
            assert(claimed(owner@, w as int, h as int, q));
            let t = choose|t: int, m: int| 0 <= t < pts.len() && 0 <= m < pts[t].len() && pts[t][m] == q
                && owned_by(owner@, w as int, h as int, q, t);
        }
        assert forall|s: int, m: int, q: Point|
            0 <= s < pts.len() && 0 <= m < pts[s].len() && beside_or_above(#[trigger] pts[s][m], q)
                && #[trigger] board.cells().contains_key((q.0 as int, q.1 as int))
                implies exists|t: int, m2: int| 0 <= t < pts.len() && 0 <= m2 < pts[t].len() && #[trigger] pts[t][m2] == q by {
            assert(g.points@[s]@[m] == pts[s][m]);
            if queued.contains(q) {
                let j = choose|j: int| 0 <= j < queued.len() && queued[j] == q;
                assert(!frontier@.contains(queued[j]));
            }
            assert(claimed(owner@, w as int, h as int, q));
        }
        assert forall|s: int| 0 <= s < pts.len() implies seeds@.contains((#[trigger] pts[s])[0]) || exists|t: int, m: int|
            0 <= t < s && 0 <= m < pts[t].len() && #[trigger] pushed_by(board, pts[t][m], pts[s][0], lowest_row as int, g.value_of(board, t)) by {
            let j = starts[s];
            assert(queued[j] == pts[s][0]);
            if j < nseeds {
                assert(seeds@[j] == queued[j]);
            } else {
                let o = origin[j];
                assert(o.0 < s);
                assert(pts[o.0] == g.points@[o.0]@);
                assert(pushed_by(board, pts[o.0][o.1], pts[s][0], lowest_row as int, g.value_of(board, o.0)));
            }
        }
        assert forall|s: int| 0 <= s < pts.len() implies (#[trigger] pts[s]).len() >= 1 && all_filled(board, pts[s])
            && all_valued(board, pts[s], g.value_of(board, s)) && pts[s].no_duplicates() by {
            assert forall|a: int, b: int| 0 <= a < pts[s].len() && 0 <= b < pts[s].len() && a != b implies pts[s][a] != pts[s][b] by {
                assert(pos[grid_of(g.points@[s]@[a], w as int)] == a);
                assert(pos[grid_of(g.points@[s]@[b], w as int)] == b);
            }
        }
        assert forall|s: int| 0 <= s < pts.len() implies g.own@[s] == #[trigger] shape_bound(board, pts[s], lowest_row as int, board.stored_rows()) by {
            assert(g.own@[s] as int == shape_bound(board, g.points@[s]@, floor, h as int));
        }
        assert forall|s: int| 0 <= s < pts.len() implies (#[trigger] graph_view(g.deps@)[s]).len() == shape_deps(board, pts[s], lowest_row as int, g.value_of(board, s)).len() by {
            assert(graph_view(g.deps@)[s] == g.deps@[s]@);
            assert(deps_view(pending@[s]@) == shape_deps(board, g.points@[s]@, floor, g.value_of(board, s)));
        }
        assert forall|s: int, k: int| 0 <= s < pts.len() && 0 <= k < graph_view(g.deps@)[s].len() implies {
            let d = #[trigger] graph_view(g.deps@)[s][k];
            let e = shape_deps(board, pts[s], lowest_row as int, g.value_of(board, s))[k];
            &&& d.offset() == e.1
            &&& exists|m2: int| 0 <= m2 < pts[d.target()].len() && #[trigger] pts[d.target()][m2] == e.0
        } by {
            assert(graph_view(g.deps@)[s] == g.deps@[s]@);
            assert(deps_view(pending@[s]@) == shape_deps(board, g.points@[s]@, floor, g.value_of(board, s)));
            assert(deps_view(pending@[s]@)[k] == (pending@[s]@[k].0, pending@[s]@[k].1 as int));
        }
    }
    g
}

/// Each cell of every shape of `g` that moves, with the distance it falls: its shape's
/// bound in the greatest assignment consistent with the graph (see `resolve_fall_bounds`).
/// Shapes come in order, each shape's cells in order; shapes that stay put are left out.
pub fn falls_of_shapes(g: &ShapeGraph) -> (r: Vec<(Point, i32)>)
    requires
        g.wf(),
    ensures
        exists|b: Seq<int>| greatest_consistent(g.own@, graph_view(g.deps@), b) && r@ == #[trigger] emitted(points_view(g.points@), b, g.own@.len() as int),
{
    let n = g.own.len();
    let bounds = resolve_fall_bounds(&g.own, &g.deps);
    proof {
        assert forall|x: int| 0 <= x < n implies #[trigger] bounds@[x] <= g.own@[x] by {
            assert(as_ints(bounds@)[x] <= g.own@[x]);
        }
    }
    let ghost bs = as_ints(bounds@);
    let ghost pv = points_view(g.points@);
    // every cell of a shape that moves falls by the shape's bound
    let mut out: Vec<(Point, i32)> = Vec::new();
    let mut s: usize = 0;
    while s < n
        invariant
            g.wf(),
            n == g.own.len(),
            n == g.points.len(),
            bounds.len() == n,
            bs == as_ints(bounds@),
            pv == points_view(g.points@),
            s <= n,
            forall|x: int| 0 <= x < n ==> #[trigger] g.own@[x] <= MAX_FALL,
            forall|x: int| 0 <= x < n ==> #[trigger] bounds@[x] <= g.own@[x],
            out@ == emitted(pv, bs, s as int),
        decreases n - s,
    {
        let b = bounds[s];
        let ghost before = out@;
        if b > 0 {
            let pts = &g.points[s];
            assert(pts@ == pv[s as int]);
            let mut k: usize = 0;
            while k < pts.len()
                invariant
                    0 < b <= MAX_FALL,
                    k <= pts.len(),
                    out@ == before + Seq::new(k as nat, |m: int| (pts@[m], b as i32)),
                decreases pts.len() - k,
            {
                out.push((pts[k], b as i32));
                k += 1;
                assert(out@ =~= before + Seq::new(k as nat, |m: int| (pts@[m], b as i32)));
            }
            assert(out@ =~= emitted(pv, bs, s as int + 1));
        } else {
            assert(out@ =~= emitted(pv, bs, s as int + 1));
        }
        s += 1;
    }
    out
}

/// Computes, for every shape reachable from `seeds`, how far it falls, and returns each of
/// its cells with that distance; shapes that stay put are left out. Cells at or below
/// `lowest_row` are treated as fixed ground.
pub fn sticky_falls(board: &Board, seeds: &Vec<Point>, lowest_row: i32) -> (r: Vec<(Point, i32)>)
    requires
        board.wf(),
        lowest_row >= -1,
    ensures
        falls_ok(board, r@),
        falls_fit(r@),
        exists|g: ShapeGraph| #[trigger] g.found_on(board, seeds@, lowest_row as int) && falls_of_graph(g, r@),
{
    let g = discover_shapes(board, seeds, lowest_row);
    let r = falls_of_shapes(&g);
    proof {
        let b = choose|b: Seq<int>| greatest_consistent(g.own@, graph_view(g.deps@), b) && r@ == #[trigger] emitted(points_view(g.points@), b, g.own@.len() as int);
        let pts = points_view(g.points@);
        lemma_emitted_ok(board, pts, b, g.own@.len() as int);
        assert forall|s: int, k: int| 0 <= s < pts.len() && 0 <= k < pts[s].len() implies b[s] <= (#[trigger] pts[s][k]).1 by {
            assert(b[s] <= g.own@[s]);
            lemma_shape_bound_below(board, pts[s], lowest_row as int, board.stored_rows(), k);
        }
        assert forall|s: int| 0 <= s < b.len() implies #[trigger] b[s] <= MAX_FALL by {
            assert(b[s] <= g.own@[s]);
        }
        assert forall|x: int| 0 <= x < pts.len() implies (#[trigger] pts[x]).no_duplicates() by {}
        assert forall|s1: int, k1: int, s2: int, k2: int|
            0 <= s1 < pts.len() && 0 <= s2 < pts.len() && 0 <= k1 < pts[s1].len() && 0 <= k2 < pts[s2].len()
                && #[trigger] pts[s1][k1] == #[trigger] pts[s2][k2] implies s1 == s2 by {
            assert(pts[s1] == g.points@[s1]@ && pts[s2] == g.points@[s2]@);
        }
        lemma_emitted_fit(pts, b, g.own@.len() as int);
        assert(falls_of_graph(g, r@));
    }
    r
}

/// The falls of the shapes reachable from `points`, down to the floor of the board.
pub fn calculate_sticky_falls(board: &Board, points: Vec<Point>) -> (r: Vec<(Point, i32)>)
    requires
        board.wf(),
    ensures
        falls_ok(board, r@),
        falls_fit(r@),
        exists|g: ShapeGraph| #[trigger] g.found_on(board, points@, -1) && falls_of_graph(g, r@),
{
    sticky_falls(board, &points, -1)
}

/// The falls of the shapes reachable from the filled cells of `rows`, down to the floor of
/// the board.
pub fn calculate_sticky_falls_from_rows(board: &Board, rows: Vec<i32>) -> (r: Vec<(Point, i32)>)
    requires
        board.wf(),
    ensures
        falls_ok(board, r@),
        falls_fit(r@),
        exists|g: ShapeGraph| #[trigger] g.found_on(board, row_seeds(board, rows@, rows@.len() as int), -1) && falls_of_graph(g, r@),
{
    let w = board.get_width();
    proof { board.lemma_dims(); }
    let mut seeds: Vec<Point> = Vec::new();
    let mut i: usize = 0;
    while i < rows.len()
        invariant
            board.wf(),
            w == board.spec_width(),
            w <= MAX_DIM,
            i <= rows.len(),
            seeds@ == row_seeds(board, rows@, i as int),
        decreases rows.len() - i,
    {
        let ghost before = seeds@;
        let mut x: usize = 0;
        while x < w
            invariant
                board.wf(),
                w == board.spec_width(),
                w <= MAX_DIM,
                x <= w,
                i < rows.len(),
                seeds@ == before + filled_in_row(board, rows@[i as int] as int, x as int),
            decreases w - x,
        {
            let p = Point(x as i32, rows[i]);
            if board.value_at(p).is_some() {
                seeds.push(p);
            }
            proof {
                assert(seeds@ =~= before + filled_in_row(board, rows@[i as int] as int, x as int + 1));
            }
            x += 1;
        }
        i += 1;
    }
    sticky_falls(board, &seeds, -1)
}

/// Number of `true` entries.
pub open spec fn count_true(s: Seq<bool>) -> nat
    decreases s.len(),
{
    if s.len() == 0 {
        0
    } else {
        count_true(s.drop_last()) + if s.last() { 1nat } else { 0nat }
    }
}

proof fn lemma_count_true_set(s: Seq<bool>, j: int)
    requires
        0 <= j < s.len(),
        !s[j],
    ensures
        count_true(s.update(j, true)) == count_true(s) + 1,
    decreases s.len(),
{
    let t = s.update(j, true);
    if j == s.len() - 1 {
        assert(t.drop_last() =~= s.drop_last());
    } else {
        assert(t.drop_last() =~= s.drop_last().update(j, true));
        lemma_count_true_set(s.drop_last(), j);
    }
}

proof fn lemma_count_true_bounds(s: Seq<bool>)
    ensures
        count_true(s) <= s.len(),
        (exists|x: int| 0 <= x < s.len() && !s[x]) ==> count_true(s) < s.len(),
        (forall|x: int| 0 <= x < s.len() ==> #[trigger] s[x]) ==> count_true(s) == s.len(),
    decreases s.len(),
{
    if s.len() > 0 {
        lemma_count_true_bounds(s.drop_last());
        if forall|x: int| 0 <= x < s.len() ==> #[trigger] s[x] {
            assert forall|x: int| 0 <= x < s.drop_last().len() implies #[trigger] s.drop_last()[x] by {
                assert(s[x]);
            }
        }
        if exists|x: int| 0 <= x < s.len() && !s[x] {
            let x = choose|x: int| 0 <= x < s.len() && !s[x];
            if x < s.len() - 1 {
                assert(s.drop_last()[x] == s[x]);
            }
        }
    }
}

proof fn lemma_count_true_none(n: nat)
    ensures
        count_true(Seq::new(n, |k: int| false)) == 0,
    decreases n,
{
    if n > 0 {
        assert(Seq::new(n, |k: int| false).drop_last() =~= Seq::new((n - 1) as nat, |k: int| false));
        lemma_count_true_none((n - 1) as nat);
    }
}

} // verus!
