use vstd::prelude::*;

use crate::point::Point;

verus! {

/// A strict total order used to put transition entries into canonical order.
pub trait CanonicalOrder: Sized {
    spec fn before(self, other: Self) -> bool;

    fn precedes(&self, other: &Self) -> (r: bool)
        ensures
            r == self.before(*other),
    ;

    fn same(&self, other: &Self) -> (r: bool)
        ensures
            r == (*self == *other),
    ;

    fn duplicate(&self) -> (r: Self)
        ensures
            r == *self,
    ;

    proof fn lemma_strict_total(a: Self, b: Self, c: Self)
        ensures
            !a.before(a),
            a.before(b) && b.before(c) ==> a.before(c),
            a.before(b) || b.before(a) || a == b,
    ;
}

/// Rows compare as integers.
impl CanonicalOrder for i32 {
    open spec fn before(self, other: i32) -> bool {
        self < other
    }

    fn precedes(&self, other: &i32) -> (r: bool) {
        *self < *other
    }

    fn same(&self, other: &i32) -> (r: bool) {
        *self == *other
    }

    fn duplicate(&self) -> (r: i32) {
        *self
    }

    proof fn lemma_strict_total(a: i32, b: i32, c: i32) {
    }
}

/// Points compare by row, then column.
impl CanonicalOrder for Point {
    open spec fn before(self, other: Point) -> bool {
        self.1 < other.1 || (self.1 == other.1 && self.0 < other.0)
    }

    fn precedes(&self, other: &Point) -> (r: bool) {
        self.1 < other.1 || (self.1 == other.1 && self.0 < other.0)
    }

    fn same(&self, other: &Point) -> (r: bool) {
        self.0 == other.0 && self.1 == other.1
    }

    fn duplicate(&self) -> (r: Point) {
        *self
    }

    proof fn lemma_strict_total(a: Point, b: Point, c: Point) {
    }
}

/// Falling points compare by row, then distance, then column.
impl CanonicalOrder for (Point, i32) {
    open spec fn before(self, other: (Point, i32)) -> bool {
        self.0.1 < other.0.1 || (self.0.1 == other.0.1 && (self.1 < other.1 || (self.1 == other.1
            && self.0.0 < other.0.0)))
    }

    fn precedes(&self, other: &(Point, i32)) -> (r: bool) {
        self.0.1 < other.0.1 || (self.0.1 == other.0.1 && (self.1 < other.1 || (self.1 == other.1
            && self.0.0 < other.0.0)))
    }

    fn same(&self, other: &(Point, i32)) -> (r: bool) {
        self.0.0 == other.0.0 && self.0.1 == other.0.1 && self.1 == other.1
    }

    fn duplicate(&self) -> (r: (Point, i32)) {
        (self.0, self.1)
    }

    proof fn lemma_strict_total(a: (Point, i32), b: (Point, i32), c: (Point, i32)) {
    }
}

/// Each entry comes strictly before every later one.
pub open spec fn strictly_sorted<T: CanonicalOrder>(s: Seq<T>) -> bool {
    forall|i: int, j: int| 0 <= i < j < s.len() ==> (#[trigger] s[i]).before(#[trigger] s[j])
}

/// Two strictly sorted sequences holding the same entries are equal.
pub proof fn lemma_sorted_unique<T: CanonicalOrder>(a: Seq<T>, b: Seq<T>)
    requires
        strictly_sorted(a),
        strictly_sorted(b),
        a.to_set() == b.to_set(),
    ensures
        a == b,
    decreases a.len(),
{
    if a.len() == 0 {
        if b.len() > 0 {
            assert(b.to_set().contains(b[0]));
        }
        assert(a =~= b);
    } else {
        assert(a.to_set().contains(a[0]));
        if b.len() == 0 {
            assert(false);
        }
        assert(b.to_set().contains(b[0]));
        let j = choose|j: int| 0 <= j < b.len() && b[j] == a[0];
        let i = choose|i: int| 0 <= i < a.len() && a[i] == b[0];
        T::lemma_strict_total(a[0], b[0], a[0]);
        if j > 0 {
            if i > 0 {
                T::lemma_strict_total(b[0], a[0], b[0]);
            }
        }
        if i > 0 && j == 0 {
            T::lemma_strict_total(a[0], a[i], a[0]);
        }
        assert(a[0] == b[0]);
        let ta = a.drop_first();
        let tb = b.drop_first();
        assert forall|i2: int, j2: int| 0 <= i2 < j2 < ta.len() implies (#[trigger] ta[i2]).before(#[trigger] ta[j2]) by {
            assert(ta[i2] == a[i2 + 1] && ta[j2] == a[j2 + 1]);
        }
        assert forall|i2: int, j2: int| 0 <= i2 < j2 < tb.len() implies (#[trigger] tb[i2]).before(#[trigger] tb[j2]) by {
            assert(tb[i2] == b[i2 + 1] && tb[j2] == b[j2 + 1]);
        }
        assert forall|x: T| ta.to_set().contains(x) <==> #[trigger] tb.to_set().contains(x) by {
            if ta.to_set().contains(x) {
                let k = choose|k: int| 0 <= k < ta.len() && ta[k] == x;
                assert(a.to_set().contains(a[k + 1]));
                let m = choose|m: int| 0 <= m < b.len() && b[m] == x;
                if m == 0 {
                    T::lemma_strict_total(a[0], a[k + 1], a[0]);
                    assert(a[0].before(a[k + 1]));
                }
                assert(tb[m - 1] == x);
            }
            if tb.to_set().contains(x) {
                let k = choose|k: int| 0 <= k < tb.len() && tb[k] == x;
                assert(b.to_set().contains(b[k + 1]));
                let m = choose|m: int| 0 <= m < a.len() && a[m] == x;
                if m == 0 {
                    T::lemma_strict_total(b[0], b[k + 1], b[0]);
                    assert(b[0].before(b[k + 1]));
                }
                assert(ta[m - 1] == x);
            }
        }
        assert(ta.to_set() =~= tb.to_set());
        lemma_sorted_unique(ta, tb);
        assert(a =~= seq![a[0]].add(ta));
        assert(b =~= seq![b[0]].add(tb));
    }
}

/// Concatenation in either order holds the same entries.
pub proof fn lemma_concat_set_commutes<T>(a: Seq<T>, b: Seq<T>)
    ensures
        (a + b).to_set() == (b + a).to_set(),
{
    assert forall|x: T| #[trigger] (a + b).to_set().contains(x) <==> (b + a).to_set().contains(x) by {
        if (a + b).to_set().contains(x) {
            let k = choose|k: int| 0 <= k < (a + b).len() && (a + b)[k] == x;
            if k < a.len() {
                assert((b + a)[b.len() + k] == x);
            } else {
                assert((b + a)[k - a.len()] == x);
            }
        }
        if (b + a).to_set().contains(x) {
            let k = choose|k: int| 0 <= k < (b + a).len() && (b + a)[k] == x;
            if k < b.len() {
                assert((a + b)[a.len() + k] == x);
            } else {
                assert((a + b)[k - b.len()] == x);
            }
        }
    }
    assert((a + b).to_set() =~= (b + a).to_set());
}

/// Adds `x` to the strictly sorted `v` at its place, unless it is already there.
pub fn insert_sorted<T: CanonicalOrder>(v: &mut Vec<T>, x: T)
    requires
        strictly_sorted(old(v)@),
    ensures
        strictly_sorted(final(v)@),
        final(v)@.to_set() == old(v)@.to_set().insert(x),
{
    let mut i: usize = 0;
    while i < v.len() && v[i].precedes(&x)
        invariant
            i <= v.len(),
            v@ == old(v)@,
            strictly_sorted(v@),
            forall|k: int| 0 <= k < i ==> (#[trigger] v@[k]).before(x),
        decreases v.len() - i,
    {
        i += 1;
    }
    if i < v.len() && v[i].same(&x) {
        assert(v@.to_set().contains(x));
        assert(v@.to_set().insert(x) =~= v@.to_set());
        return;
    }
    let ghost s = v@;
    proof {
        if i < s.len() {
            T::lemma_strict_total(s[i as int], x, x);
        }
    }
    v.insert(i, x);
    proof {
        assert(v@ =~= s.subrange(0, i as int).push(x).add(s.subrange(i as int, s.len() as int)));
        assert forall|a: int, b: int| 0 <= a < b < v@.len() implies (#[trigger] v@[a]).before(#[trigger] v@[b]) by {
            if a < i && b > i {
                T::lemma_strict_total(v@[a], x, v@[b]);
                if b > i + 1 {
                    T::lemma_strict_total(x, s[i as int], v@[b]);
                }
            } else if a == i && b > i + 1 {
                T::lemma_strict_total(x, s[i as int], v@[b]);
            }
        }
        assert forall|y: T| #[trigger] v@.to_set().contains(y) <==> s.to_set().insert(x).contains(y) by {
            if v@.to_set().contains(y) {
                let k = choose|k: int| 0 <= k < v@.len() && v@[k] == y;
                if k < i {
                    assert(s[k] == y);
                } else if k > i {
                    assert(s[k - 1] == y);
                }
            }
            if s.to_set().contains(y) {
                let k = choose|k: int| 0 <= k < s.len() && s[k] == y;
                if k < i {
                    assert(v@[k] == y);
                } else {
                    assert(v@[k + 1] == y);
                }
            }
            if y == x {
                assert(v@[i as int] == x);
            }
        }
        assert(v@.to_set() =~= s.to_set().insert(x));
    }
}

/// The entries of `v` in canonical order, each once.
pub fn sorted_dedup<T: CanonicalOrder>(v: &Vec<T>) -> (r: Vec<T>)
    ensures
        strictly_sorted(r@),
        r@.to_set() == v@.to_set(),
{
    let mut r: Vec<T> = Vec::new();
    let mut i: usize = 0;
    while i < v.len()
        invariant
            i <= v.len(),
            strictly_sorted(r@),
            r@.to_set() == v@.subrange(0, i as int).to_set(),
        decreases v.len() - i,
    {
        insert_sorted(&mut r, v[i].duplicate());
        proof {
            assert(v@.subrange(0, i as int + 1) =~= v@.subrange(0, i as int).push(v@[i as int]));
            v@.subrange(0, i as int).lemma_push_to_set_commute(v@[i as int]);
        }
        i += 1;
    }
    assert(v@.subrange(0, v@.len() as int) =~= v@);
    r
}

} // verus!
