use vstd::prelude::*;

use crate::fx::{FX_MAX, FX_TAU, emod, fx_bounded, spec_emod};

verus! {

/// A subset of the circle `[0, 2*pi)` held as disjoint, non-touching arcs
/// `(start, end)` in fixed-point units, sorted by start. Arcs may be
/// degenerate (`start == end`); a wrapping range is stored as its two
/// canonical pieces `(0, end)` and `(start, tau)`.
pub struct Interval {
    ranges: Vec<(i64, i64)>,
}

/// A single stored arc is well formed: both endpoints inside `[0, tau]`,
/// start not after end.
pub open spec fn arc_ok(a: (i64, i64)) -> bool {
    0 <= a.0 <= a.1 <= FX_TAU
}

/// The canonical shape every constructed `Interval` has: well-formed arcs,
/// each ending strictly before the next begins (disjoint, not even touching).
pub open spec fn canonical(s: Seq<(i64, i64)>) -> bool {
    &&& forall|i: int| 0 <= i < s.len() ==> arc_ok(#[trigger] s[i])
    &&& forall|i: int| 0 <= i && i + 1 < s.len() ==> (#[trigger] s[i]).1 < s[i + 1].0
}

/// Does the unit cell `[c, c+1)` of the circle lie inside one of the arcs?
/// The total number of covered cells is the set's measure.
pub open spec fn covers_cell(s: Seq<(i64, i64)>, c: int) -> bool {
    exists|i: int| 0 <= i < s.len() && (#[trigger] s[i]).0 <= c < s[i].1
}

/// Does the grid point `x` lie inside one of the (closed) arcs?
pub open spec fn covers_point(s: Seq<(i64, i64)>, x: int) -> bool {
    exists|i: int| 0 <= i < s.len() && (#[trigger] s[i]).0 <= x <= s[i].1
}

/// Total arc length: the sum of `end - start` over the stored arcs.
pub open spec fn spec_measure(s: Seq<(i64, i64)>) -> int
    decreases s.len(),
{
    if s.len() == 0 {
        0
    } else {
        spec_measure(s.drop_last()) + (s.last().1 - s.last().0)
    }
}

/// The set of unit cells covered by the arcs.
pub open spec fn cell_set(s: Seq<(i64, i64)>) -> Set<int> {
    Set::new(|c: int| covers_cell(s, c))
}

/// Coverage (by cells) contributed by one raw `(start, end)` input pair once
/// both endpoints are reduced into `[0, tau)` and a backwards pair is read as
/// a wrap around zero.
pub open spec fn pair_covers_cell(p: (i64, i64), c: int) -> bool {
    let s = spec_emod(p.0 as int, FX_TAU as int);
    let e = spec_emod(p.1 as int, FX_TAU as int);
    if s <= e {
        s <= c < e
    } else {
        0 <= c < e || s <= c < FX_TAU
    }
}

/// Point coverage contributed by one raw input pair, closed at both ends.
pub open spec fn pair_covers_point(p: (i64, i64), x: int) -> bool {
    let s = spec_emod(p.0 as int, FX_TAU as int);
    let e = spec_emod(p.1 as int, FX_TAU as int);
    if s <= e {
        s <= x <= e
    } else {
        0 <= x <= e || s <= x <= FX_TAU
    }
}

/// Cell coverage of a whole list of raw input pairs.
pub open spec fn pairs_cover_cell(ps: Seq<(i64, i64)>, c: int) -> bool {
    exists|i: int| 0 <= i < ps.len() && pair_covers_cell(#[trigger] ps[i], c)
}

/// Point coverage of a whole list of raw input pairs.
pub open spec fn pairs_cover_point(ps: Seq<(i64, i64)>, x: int) -> bool {
    exists|i: int| 0 <= i < ps.len() && pair_covers_point(#[trigger] ps[i], x)
}

/// In a canonical sequence every earlier arc ends strictly before every later
/// arc starts, not just its immediate neighbour.
pub proof fn lemma_canonical_ordered(s: Seq<(i64, i64)>, i: int, j: int)
    requires
        canonical(s),
        0 <= i < j < s.len(),
    ensures
        s[i].1 < s[j].0,
    decreases j - i,
{
    if j == i + 1 {
    } else {
        lemma_canonical_ordered(s, i, j - 1);
    }
}

/// Arcs of a canonical sequence are pairwise disjoint: two distinct arcs
/// share no point at all.
pub proof fn lemma_canonical_pairwise_disjoint(s: Seq<(i64, i64)>, i: int, j: int)
    requires
        canonical(s),
        0 <= i < s.len(),
        0 <= j < s.len(),
        i != j,
    ensures
        s[i].1 < s[j].0 || s[j].1 < s[i].0,
{
    if i < j {
        lemma_canonical_ordered(s, i, j);
    } else {
        lemma_canonical_ordered(s, j, i);
    }
}

proof fn lemma_covers_cell_push(s: Seq<(i64, i64)>, a: (i64, i64), c: int)
    ensures
        covers_cell(s.push(a), c) <==> (covers_cell(s, c) || (a.0 <= c < a.1)),
{
    if covers_cell(s, c) {
        let i = choose|i: int| 0 <= i < s.len() && (#[trigger] s[i]).0 <= c < s[i].1;
        assert(s.push(a)[i].0 <= c < s.push(a)[i].1);
    }
    if a.0 <= c < a.1 {
        assert(s.push(a)[s.len() as int].0 <= c < s.push(a)[s.len() as int].1);
    }
    if covers_cell(s.push(a), c) {
        let i = choose|i: int|
            0 <= i < s.push(a).len() && (#[trigger] s.push(a)[i]).0 <= c < s.push(a)[i].1;
        if i < s.len() {
            assert(s[i].0 <= c < s[i].1);
        }
    }
}

proof fn lemma_covers_point_push(s: Seq<(i64, i64)>, a: (i64, i64), x: int)
    ensures
        covers_point(s.push(a), x) <==> (covers_point(s, x) || (a.0 <= x <= a.1)),
{
    if covers_point(s, x) {
        let i = choose|i: int| 0 <= i < s.len() && (#[trigger] s[i]).0 <= x <= s[i].1;
        assert(s.push(a)[i].0 <= x <= s.push(a)[i].1);
    }
    if a.0 <= x <= a.1 {
        assert(s.push(a)[s.len() as int].0 <= x <= s.push(a)[s.len() as int].1);
    }
    if covers_point(s.push(a), x) {
        let i = choose|i: int|
            0 <= i < s.push(a).len() && (#[trigger] s.push(a)[i]).0 <= x <= s.push(a)[i].1;
        if i < s.len() {
            assert(s[i].0 <= x <= s[i].1);
        }
    }
}

proof fn lemma_covers_cell_take_step(s: Seq<(i64, i64)>, i: int, c: int)
    requires
        0 <= i < s.len(),
    ensures
        covers_cell(s.take(i + 1), c) <==> (covers_cell(s.take(i), c) || (s[i].0 <= c < s[i].1)),
{
    assert(s.take(i + 1) =~= s.take(i).push(s[i]));
    lemma_covers_cell_push(s.take(i), s[i], c);
}

proof fn lemma_covers_point_take_step(s: Seq<(i64, i64)>, i: int, x: int)
    requires
        0 <= i < s.len(),
    ensures
        covers_point(s.take(i + 1), x) <==> (covers_point(s.take(i), x) || (s[i].0 <= x <= s[i].1)),
{
    assert(s.take(i + 1) =~= s.take(i).push(s[i]));
    lemma_covers_point_push(s.take(i), s[i], x);
}

/// Insert the arc `[s, e]` into a canonical arc list, merging every stored
/// arc it overlaps or touches, so that the result is canonical again and
/// covers exactly the union.
fn insert_arc(v: &Vec<(i64, i64)>, s: i64, e: i64) -> (r: Vec<(i64, i64)>)
    requires
        canonical(v@),
        0 <= s <= e <= FX_TAU,
    ensures
        canonical(r@),
        forall|c: int| covers_cell(r@, c) <==> (covers_cell(v@, c) || s <= c < e),
        forall|x: int| covers_point(r@, x) <==> (covers_point(v@, x) || s <= x <= e),
{
    let n = v.len();
    let mut r: Vec<(i64, i64)> = Vec::new();
    let mut i: usize = 0;

    // Arcs that end strictly before the new arc begins stay as they are.
    while i < n && v[i].1 < s
        invariant
            canonical(v@),
            0 <= s <= e <= FX_TAU,
            n == v@.len(),
            0 <= i <= n,
            r@ == v@.take(i as int),
            forall|j: int| 0 <= j < i ==> (#[trigger] v@[j]).1 < s,
        decreases n - i,
    {
        let a = v[i];
        r.push(a);
        proof {
            assert(r@ =~= v@.take(i + 1));
        }
        i = i + 1;
    }

    let ghost i0 = i as int;

    // Grow the new arc over every stored arc that overlaps or touches it.
    let mut ms = s;
    let mut me = e;
    while i < n && v[i].0 <= me
        invariant
            canonical(v@),
            0 <= s <= e <= FX_TAU,
            n == v@.len(),
            0 <= i0 <= i as int <= n,
            0 <= ms <= s,
            e <= me <= FX_TAU,
            ms <= me,
            i as int == i0 && i0 < n ==> v@[i0].1 >= s,
            i as int > i0 ==> ms <= v@[i as int - 1].0,
            ms == s || (i0 < n && ms == v@[i0].0),
            forall|c: int|
                (ms <= c < me) <==> (s <= c < e || #[trigger] covers_cell(
                    v@.subrange(i0, i as int),
                    c,
                )),
            forall|x: int|
                (ms <= x <= me) <==> (s <= x <= e || #[trigger] covers_point(
                    v@.subrange(i0, i as int),
                    x,
                )),
        decreases n - i,
    {
        let a = v[i];
        let ghost oms = ms as int;
        let ghost ome = me as int;
        if a.0 < ms {
            ms = a.0;
        }
        if a.1 > me {
            me = a.1;
        }
        proof {
            // The window stays one contiguous arc: the merged arc begins no
            // later than the window's end and ends no earlier than its start.
            assert(a.0 <= ome);
            if i as int == i0 {
                assert(a.1 >= s);
                assert(a.0 >= ms);
            } else {
                assert(a.0 >= oms);
            }
            assert(v@.subrange(i0, i as int + 1) =~= v@.subrange(i0, i as int).push(a));
            assert forall|c: int|
                (ms <= c < me) <==> (s <= c < e || #[trigger] covers_cell(
                    v@.subrange(i0, i as int + 1),
                    c,
                )) by {
                lemma_covers_cell_push(v@.subrange(i0, i as int), a, c);
            }
            assert forall|x: int|
                (ms <= x <= me) <==> (s <= x <= e || #[trigger] covers_point(
                    v@.subrange(i0, i as int + 1),
                    x,
                )) by {
                lemma_covers_point_push(v@.subrange(i0, i as int), a, x);
            }
        }
        i = i + 1;
    }

    let ghost i1 = i as int;
    r.push((ms, me));
    proof {
        assert(r@ =~= v@.take(i0).push((ms, me)).add(v@.subrange(i1, i1)));
    }

    // The remaining arcs begin strictly after the merged arc ends.
    while i < n
        invariant
            canonical(v@),
            n == v@.len(),
            0 <= i0 <= i1 <= i as int <= n,
            r@ == v@.take(i0).push((ms, me)).add(v@.subrange(i1, i as int)),
        decreases n - i,
    {
        let a = v[i];
        r.push(a);
        proof {
            assert(r@ =~= v@.take(i0).push((ms, me)).add(v@.subrange(i1, i as int + 1)));
        }
        i = i + 1;
    }

    proof {
        let rs = r@;
        let pre = v@.take(i0);
        let post = v@.subrange(i1, n as int);
        assert(rs =~= pre.push((ms, me)).add(post));

        // Canonicality of the assembled list.
        assert forall|j: int| 0 <= j < rs.len() implies arc_ok(#[trigger] rs[j]) by {
            if j < i0 {
                assert(rs[j] == v@[j]);
            } else if j == i0 {
            } else {
                assert(rs[j] == v@[i1 + (j - i0 - 1)]);
            }
        }
        assert forall|j: int| 0 <= j && j + 1 < rs.len() implies (#[trigger] rs[j]).1 < rs[j
            + 1].0 by {
            if j + 1 < i0 {
                assert(rs[j] == v@[j] && rs[j + 1] == v@[j + 1]);
            } else if j + 1 == i0 {
                assert(rs[j] == v@[j]);
                assert(v@[j].1 < s);
                assert(ms == s || (i0 < n && ms == v@[i0].0));
                if i0 < n && ms == v@[i0].0 && ms < s {
                    if j < i0 {
                        lemma_canonical_ordered(v@, j, i0);
                    }
                }
            } else if j == i0 {
                assert(rs[j + 1] == v@[i1 + 0]);
                assert(i1 < n);
                assert(v@[i1].0 > me);
            } else {
                let a = i1 + (j - i0 - 1);
                let b = i1 + (j + 1 - i0 - 1);
                assert(rs[j] == v@[a] && rs[j + 1] == v@[b]);
                lemma_canonical_ordered(v@, a, b);
            }
        }

        // Exact cell coverage.
        assert forall|c: int|
            covers_cell(rs, c) <==> (covers_cell(v@, c) || s <= c < e) by {
            lemma_covers_insert_cover(v@, rs, i0, i1, ms as int, me as int, s as int, e as int, c);
        }
        assert forall|x: int|
            covers_point(rs, x) <==> (covers_point(v@, x) || s <= x <= e) by {
            lemma_point_insert_cover(v@, rs, i0, i1, ms as int, me as int, s as int, e as int, x);
        }
    }
    r
}

/// Cell-coverage bookkeeping for `insert_arc`: the assembled list covers a
/// cell exactly when the input or the inserted arc does.
proof fn lemma_covers_insert_cover(
    v: Seq<(i64, i64)>,
    rs: Seq<(i64, i64)>,
    i0: int,
    i1: int,
    ms: int,
    me: int,
    s: int,
    e: int,
    c: int,
)
    requires
        canonical(v),
        0 <= i0 <= i1 <= v.len(),
        rs =~= v.take(i0).push(((ms as i64), (me as i64))).add(v.subrange(i1, v.len() as int)),
        ms == ms as i64 as int && me == me as i64 as int,
        forall|j: int| 0 <= j < i0 ==> (#[trigger] v[j]).1 < s,
        forall|cc: int| (ms <= cc < me) <==> (s <= cc < e || covers_cell(v.subrange(i0, i1), cc)),
        ms <= s,
        e <= me,
    ensures
        covers_cell(rs, c) <==> (covers_cell(v, c) || s <= c < e),
{
    let pre = v.take(i0);
    let post = v.subrange(i1, v.len() as int);
    let mid = v.subrange(i0, i1);
    if covers_cell(rs, c) {
        let j = choose|j: int| 0 <= j < rs.len() && (#[trigger] rs[j]).0 <= c < rs[j].1;
        if j < i0 {
            assert(v[j].0 <= c < v[j].1);
        } else if j == i0 {
            assert(ms <= c < me);
            if !(s <= c < e) {
                assert(covers_cell(v.subrange(i0, i1), c));
                assert(covers_cell(mid, c));
                let k = choose|k: int| 0 <= k < mid.len() && (#[trigger] mid[k]).0 <= c < mid[k].1;
                assert(mid[k] == v[i0 + k]);
                assert(v[i0 + k].0 <= c < v[i0 + k].1);
            }
        } else {
            let k = i1 + (j - i0 - 1);
            assert(rs[j] == v[k]);
            assert(v[k].0 <= c < v[k].1);
        }
    }
    if covers_cell(v, c) {
        let j = choose|j: int| 0 <= j < v.len() && (#[trigger] v[j]).0 <= c < v[j].1;
        if j < i0 {
            assert(rs[j].0 <= c < rs[j].1);
        } else if j < i1 {
            assert(mid[j - i0].0 <= c < mid[j - i0].1);
            assert(covers_cell(mid, c));
            assert(ms <= c < me);
            assert(rs[i0].0 <= c < rs[i0].1);
        } else {
            let k = i0 + 1 + (j - i1);
            assert(rs[k] == v[j]);
            assert(rs[k].0 <= c < rs[k].1);
        }
    }
    if s <= c < e {
        assert(ms <= c < me);
        assert(rs[i0].0 <= c < rs[i0].1);
    }
}

/// Point-coverage bookkeeping for `insert_arc`.
proof fn lemma_point_insert_cover(
    v: Seq<(i64, i64)>,
    rs: Seq<(i64, i64)>,
    i0: int,
    i1: int,
    ms: int,
    me: int,
    s: int,
    e: int,
    x: int,
)
    requires
        canonical(v),
        0 <= i0 <= i1 <= v.len(),
        rs =~= v.take(i0).push(((ms as i64), (me as i64))).add(v.subrange(i1, v.len() as int)),
        ms == ms as i64 as int && me == me as i64 as int,
        forall|j: int| 0 <= j < i0 ==> (#[trigger] v[j]).1 < s,
        forall|xx: int| (ms <= xx <= me) <==> (s <= xx <= e || covers_point(v.subrange(i0, i1), xx)),
        ms <= s,
        e <= me,
    ensures
        covers_point(rs, x) <==> (covers_point(v, x) || s <= x <= e),
{
    let mid = v.subrange(i0, i1);
    if covers_point(rs, x) {
        let j = choose|j: int| 0 <= j < rs.len() && (#[trigger] rs[j]).0 <= x <= rs[j].1;
        if j < i0 {
            assert(v[j].0 <= x <= v[j].1);
        } else if j == i0 {
            assert(ms <= x <= me);
            if !(s <= x <= e) {
                assert(covers_point(v.subrange(i0, i1), x));
                assert(covers_point(mid, x));
                let k = choose|k: int| 0 <= k < mid.len() && (#[trigger] mid[k]).0 <= x <= mid[k].1;
                assert(mid[k] == v[i0 + k]);
                assert(v[i0 + k].0 <= x <= v[i0 + k].1);
            }
        } else {
            let k = i1 + (j - i0 - 1);
            assert(rs[j] == v[k]);
            assert(v[k].0 <= x <= v[k].1);
        }
    }
    if covers_point(v, x) {
        let j = choose|j: int| 0 <= j < v.len() && (#[trigger] v[j]).0 <= x <= v[j].1;
        if j < i0 {
            assert(rs[j].0 <= x <= rs[j].1);
        } else if j < i1 {
            assert(mid[j - i0].0 <= x <= mid[j - i0].1);
            assert(covers_point(mid, x));
            assert(ms <= x <= me);
            assert(rs[i0].0 <= x <= rs[i0].1);
        } else {
            let k = i0 + 1 + (j - i1);
            assert(rs[k] == v[j]);
            assert(rs[k].0 <= x <= rs[k].1);
        }
    }
    if s <= x <= e {
        assert(ms <= x <= me);
        assert(rs[i0].0 <= x <= rs[i0].1);
    }
}

impl View for Interval {
    type V = Seq<(i64, i64)>;

    closed spec fn view(&self) -> Seq<(i64, i64)> {
        self.ranges@
    }
}

impl Interval {
    /// Every constructed `Interval` is canonical.
    pub open spec fn wf(&self) -> bool {
        canonical(self@)
    }

    /// A single range, endpoints reduced into `[0, tau)`, split into two
    /// pieces when it wraps past zero.
    pub fn new(start: i64, end: i64) -> (r: Interval)
        requires
            fx_bounded(start as int),
            fx_bounded(end as int),
        ensures
            r.wf(),
            forall|c: int| covers_cell(r@, c) <==> pair_covers_cell((start, end), c),
            forall|x: int| covers_point(r@, x) <==> pair_covers_point((start, end), x),
    {
        let s = emod(start, FX_TAU);
        let e = emod(end, FX_TAU);
        let empty: Vec<(i64, i64)> = Vec::new();
        let ranges = if s <= e {
            insert_arc(&empty, s, e)
        } else {
            let first = insert_arc(&empty, 0, e);
            insert_arc(&first, s, FX_TAU)
        };
        Interval { ranges }
    }

    /// Build the canonical set covering exactly the union of the given raw
    /// ranges: each pair is reduced and split as in `new`, and overlapping or
    /// touching pieces are merged until the arcs are pairwise disjoint.
    pub fn fromVec(ranges: Vec<(i64, i64)>) -> (r: Interval)
        requires
            forall|i: int|
                0 <= i < ranges@.len() ==> fx_bounded((#[trigger] ranges@[i]).0 as int)
                    && fx_bounded(ranges@[i].1 as int),
        ensures
            r.wf(),
            forall|c: int| covers_cell(r@, c) <==> pairs_cover_cell(ranges@, c),
            forall|x: int| covers_point(r@, x) <==> pairs_cover_point(ranges@, x),
    {
        let n = ranges.len();
        let mut acc: Vec<(i64, i64)> = Vec::new();
        let mut i: usize = 0;
        while i < n
            invariant
                n == ranges@.len(),
                0 <= i <= n,
                forall|j: int|
                    0 <= j < ranges@.len() ==> fx_bounded((#[trigger] ranges@[j]).0 as int)
                        && fx_bounded(ranges@[j].1 as int),
                canonical(acc@),
                forall|c: int|
                    #[trigger] covers_cell(acc@, c) <==> pairs_cover_cell(
                        ranges@.take(i as int),
                        c,
                    ),
                forall|x: int|
                    #[trigger] covers_point(acc@, x) <==> pairs_cover_point(
                        ranges@.take(i as int),
                        x,
                    ),
            decreases n - i,
        {
            let p = ranges[i];
            let s = emod(p.0, FX_TAU);
            let e = emod(p.1, FX_TAU);
            let next = if s <= e {
                insert_arc(&acc, s, e)
            } else {
                let first = insert_arc(&acc, 0, e);
                insert_arc(&first, s, FX_TAU)
            };
            proof {
                assert forall|c: int|
                    #[trigger] covers_cell(next@, c) <==> pairs_cover_cell(
                        ranges@.take(i as int + 1),
                        c,
                    ) by {
                    lemma_pairs_cover_cell_take_step(ranges@, i as int, c);
                }
                assert forall|x: int|
                    #[trigger] covers_point(next@, x) <==> pairs_cover_point(
                        ranges@.take(i as int + 1),
                        x,
                    ) by {
                    lemma_pairs_cover_point_take_step(ranges@, i as int, x);
                }
            }
            acc = next;
            i = i + 1;
        }
        proof {
            assert(ranges@.take(n as int) =~= ranges@);
        }
        Interval { ranges: acc }
    }

    /// The canonical set covering everything either operand covers.
    pub fn union(&self, range: &Interval) -> (r: Interval)
        requires
            self.wf(),
            range.wf(),
        ensures
            r.wf(),
            forall|c: int|
                covers_cell(r@, c) <==> (covers_cell(self@, c) || covers_cell(range@, c)),
            forall|x: int|
                covers_point(r@, x) <==> (covers_point(self@, x) || covers_point(range@, x)),
    {
        let n = range.ranges.len();
        let mut acc: Vec<(i64, i64)> = Vec::new();
        let mut i: usize = 0;
        // Start from a copy of this set's arcs.
        while i < self.ranges.len()
            invariant
                0 <= i <= self@.len(),
                acc@ == self@.take(i as int),
            decreases self@.len() - i,
        {
            let a = self.ranges[i];
            acc.push(a);
            proof {
                assert(acc@ =~= self@.take(i as int + 1));
            }
            i = i + 1;
        }
        proof {
            assert(acc@ =~= self@);
        }
        let mut j: usize = 0;
        while j < n
            invariant
                self.wf(),
                range.wf(),
                n == range@.len(),
                0 <= j <= n,
                canonical(acc@),
                forall|c: int|
                    #[trigger] covers_cell(acc@, c) <==> (covers_cell(self@, c) || covers_cell(
                        range@.take(j as int),
                        c,
                    )),
                forall|x: int|
                    #[trigger] covers_point(acc@, x) <==> (covers_point(self@, x) || covers_point(
                        range@.take(j as int),
                        x,
                    )),
            decreases n - j,
        {
            let a = range.ranges[j];
            let next = insert_arc(&acc, a.0, a.1);
            proof {
                assert forall|c: int|
                    #[trigger] covers_cell(next@, c) <==> (covers_cell(self@, c) || covers_cell(
                        range@.take(j as int + 1),
                        c,
                    )) by {
                    lemma_covers_cell_take_step(range@, j as int, c);
                }
                assert forall|x: int|
                    #[trigger] covers_point(next@, x) <==> (covers_point(self@, x) || covers_point(
                        range@.take(j as int + 1),
                        x,
                    )) by {
                    lemma_covers_point_take_step(range@, j as int, x);
                }
            }
            acc = next;
            j = j + 1;
        }
        proof {
            assert(range@.take(n as int) =~= range@);
        }
        Interval { ranges: acc }
    }

    /// The canonical set covering exactly what both operands cover: every
    /// pairwise overlap `(max(starts), min(ends))` that is non-empty, merged.
    pub fn intersection(&self, range: &Interval) -> (r: Interval)
        requires
            self.wf(),
            range.wf(),
        ensures
            r.wf(),
            forall|c: int|
                covers_cell(r@, c) <==> (covers_cell(self@, c) && covers_cell(range@, c)),
            forall|x: int|
                covers_point(r@, x) <==> (covers_point(self@, x) && covers_point(range@, x)),
    {
        let n = range.ranges.len();
        let m = self.ranges.len();
        let mut acc: Vec<(i64, i64)> = Vec::new();
        let mut i: usize = 0;
        while i < n
            invariant
                self.wf(),
                range.wf(),
                n == range@.len(),
                m == self@.len(),
                0 <= i <= n,
                canonical(acc@),
                forall|c: int|
                    #[trigger] covers_cell(acc@, c) <==> (covers_cell(range@.take(i as int), c)
                        && covers_cell(self@, c)),
                forall|x: int|
                    #[trigger] covers_point(acc@, x) <==> (covers_point(range@.take(i as int), x)
                        && covers_point(self@, x)),
            decreases n - i,
        {
            let a = range.ranges[i];
            let mut j: usize = 0;
            while j < m
                invariant
                    self.wf(),
                    range.wf(),
                    n == range@.len(),
                    m == self@.len(),
                    0 <= i < n,
                    0 <= j <= m,
                    a == range@[i as int],
                    canonical(acc@),
                    forall|c: int|
                        #[trigger] covers_cell(acc@, c) <==> ((covers_cell(
                            range@.take(i as int),
                            c,
                        ) && covers_cell(self@, c)) || (a.0 <= c < a.1 && covers_cell(
                            self@.take(j as int),
                            c,
                        ))),
                    forall|x: int|
                        #[trigger] covers_point(acc@, x) <==> ((covers_point(
                            range@.take(i as int),
                            x,
                        ) && covers_point(self@, x)) || (a.0 <= x <= a.1 && covers_point(
                            self@.take(j as int),
                            x,
                        ))),
                decreases m - j,
            {
                let b = self.ranges[j];
                let lo = if b.0 > a.0 {
                    b.0
                } else {
                    a.0
                };
                let hi = if b.1 < a.1 {
                    b.1
                } else {
                    a.1
                };
                if lo <= hi {
                    let next = insert_arc(&acc, lo, hi);
                    acc = next;
                }
                proof {
                    assert forall|c: int|
                        #[trigger] covers_cell(acc@, c) <==> ((covers_cell(
                            range@.take(i as int),
                            c,
                        ) && covers_cell(self@, c)) || (a.0 <= c < a.1 && covers_cell(
                            self@.take(j as int + 1),
                            c,
                        ))) by {
                        lemma_covers_cell_take_step(self@, j as int, c);
                    }
                    assert forall|x: int|
                        #[trigger] covers_point(acc@, x) <==> ((covers_point(
                            range@.take(i as int),
                            x,
                        ) && covers_point(self@, x)) || (a.0 <= x <= a.1 && covers_point(
                            self@.take(j as int + 1),
                            x,
                        ))) by {
                        lemma_covers_point_take_step(self@, j as int, x);
                    }
                }
                j = j + 1;
            }
            proof {
                assert(self@.take(m as int) =~= self@);
                assert forall|c: int|
                    #[trigger] covers_cell(acc@, c) <==> (covers_cell(
                        range@.take(i as int + 1),
                        c,
                    ) && covers_cell(self@, c)) by {
                    lemma_covers_cell_take_step(range@, i as int, c);
                }
                assert forall|x: int|
                    #[trigger] covers_point(acc@, x) <==> (covers_point(
                        range@.take(i as int + 1),
                        x,
                    ) && covers_point(self@, x)) by {
                    lemma_covers_point_take_step(range@, i as int, x);
                }
            }
            i = i + 1;
        }
        proof {
            assert(range@.take(n as int) =~= range@);
        }
        Interval { ranges: acc }
    }

    /// The canonical set covering exactly the part of the circle this set
    /// does not cover. The complement of an empty set is the full circle; the
    /// complement of the full circle is empty.
    pub fn complement(&self) -> (r: Interval)
        requires
            self.wf(),
        ensures
            r.wf(),
            forall|c: int|
                covers_cell(r@, c) <==> (0 <= c < FX_TAU && !covers_cell(self@, c)),
    {
        let n = self.ranges.len();
        let mut acc: Vec<(i64, i64)> = Vec::new();
        let mut cur: i64 = 0;
        let mut i: usize = 0;
        while i < n
            invariant
                self.wf(),
                n == self@.len(),
                0 <= i <= n,
                0 <= cur <= FX_TAU,
                i > 0 ==> cur == self@[i as int - 1].1,
                i == 0 ==> cur == 0,
                forall|j: int| 0 <= j < i ==> (#[trigger] self@[j]).1 <= cur,
                canonical(acc@),
                forall|c: int|
                    #[trigger] covers_cell(acc@, c) <==> (0 <= c < cur && !covers_cell(
                        self@.take(i as int),
                        c,
                    )),
            decreases n - i,
        {
            let a = self.ranges[i];
            proof {
                if i > 0 {
                    assert(self@[i as int - 1].1 < self@[i as int].0);
                }
            }
            let next = insert_arc(&acc, cur, a.0);
            proof {
                assert forall|c: int|
                    #[trigger] covers_cell(next@, c) <==> (0 <= c < a.1 && !covers_cell(
                        self@.take(i as int + 1),
                        c,
                    )) by {
                    lemma_covers_cell_take_step(self@, i as int, c);
                    if covers_cell(self@.take(i as int), c) {
                        let k = choose|k: int|
                            0 <= k < self@.take(i as int).len() && (#[trigger] self@.take(
                                i as int,
                            )[k]).0 <= c < self@.take(i as int)[k].1;
                        assert(self@[k].1 <= cur);
                    }
                }
            }
            acc = next;
            cur = a.1;
            i = i + 1;
        }
        let last = insert_arc(&acc, cur, FX_TAU);
        proof {
            assert(self@.take(n as int) =~= self@);
            assert forall|c: int|
                #[trigger] covers_cell(last@, c) <==> (0 <= c < FX_TAU && !covers_cell(
                    self@,
                    c,
                )) by {
                if covers_cell(self@, c) {
                    let k = choose|k: int|
                        0 <= k < self@.len() && (#[trigger] self@[k]).0 <= c < self@[k].1;
                    assert(self@[k].1 <= cur);
                }
            }
        }
        Interval { ranges: last }
    }

    /// Re-establish the canonical shape by re-inserting every stored arc:
    /// overlapping or touching arcs are merged until none remain.
    #[verifier::rlimit(50)]
    pub fn deduplicateRanges(&mut self)
        requires
            forall|i: int| 0 <= i < old(self)@.len() ==> arc_ok(#[trigger] old(self)@[i]),
        ensures
            final(self).wf(),
            forall|c: int| covers_cell(final(self)@, c) <==> covers_cell(old(self)@, c),
            forall|x: int| covers_point(final(self)@, x) <==> covers_point(old(self)@, x),
    {
        let n = self.ranges.len();
        let mut acc: Vec<(i64, i64)> = Vec::new();
        let mut i: usize = 0;
        while i < n
            invariant
                n == self@.len(),
                0 <= i <= n,
                forall|j: int| 0 <= j < self@.len() ==> arc_ok(#[trigger] self@[j]),
                canonical(acc@),
                forall|c: int|
                    #[trigger] covers_cell(acc@, c) <==> covers_cell(self@.take(i as int), c),
                forall|x: int|
                    #[trigger] covers_point(acc@, x) <==> covers_point(self@.take(i as int), x),
            decreases n - i,
        {
            let a = self.ranges[i];
            let next = insert_arc(&acc, a.0, a.1);
            proof {
                assert forall|c: int|
                    #[trigger] covers_cell(next@, c) <==> covers_cell(
                        self@.take(i as int + 1),
                        c,
                    ) by {
                    lemma_covers_cell_take_step(self@, i as int, c);
                }
                assert forall|x: int|
                    #[trigger] covers_point(next@, x) <==> covers_point(
                        self@.take(i as int + 1),
                        x,
                    ) by {
                    lemma_covers_point_take_step(self@, i as int, x);
                }
            }
            acc = next;
            i = i + 1;
        }
        proof {
            assert(self@.take(n as int) =~= self@);
        }
        self.ranges = acc;
    }

    /// Total arc length of the stored disjoint arcs; at most a full turn.
    pub fn measure(&self) -> (r: i64)
        requires
            self.wf(),
        ensures
            r == spec_measure(self@),
            0 <= r <= FX_TAU,
    {
        let n = self.ranges.len();
        let mut sum: i64 = 0;
        let mut i: usize = 0;
        while i < n
            invariant
                self.wf(),
                n == self@.len(),
                0 <= i <= n,
                sum == spec_measure(self@.take(i as int)),
                0 <= sum,
                i > 0 ==> sum <= self@[i as int - 1].1,
                i == 0 ==> sum == 0,
            decreases n - i,
        {
            let a = self.ranges[i];
            proof {
                assert(self@.take(i as int + 1).drop_last() =~= self@.take(i as int));
                assert(self@.take(i as int + 1).last() == self@[i as int]);
                if i > 0 {
                    assert(self@[i as int - 1].1 < self@[i as int].0);
                }
            }
            sum = sum + (a.1 - a.0);
            i = i + 1;
        }
        proof {
            assert(self@.take(n as int) =~= self@);
        }
        sum
    }

    /// The stored arcs, for callers that want to read them directly.
    pub fn ranges(&self) -> (r: &Vec<(i64, i64)>)
        ensures
            r@ == self@,
    {
        &self.ranges
    }
}

proof fn lemma_covers_cell_pairs_push(ps: Seq<(i64, i64)>, p: (i64, i64), c: int)
    ensures
        pairs_cover_cell(ps.push(p), c) <==> (pairs_cover_cell(ps, c) || pair_covers_cell(p, c)),
{
    if pairs_cover_cell(ps, c) {
        let i = choose|i: int| 0 <= i < ps.len() && pair_covers_cell(#[trigger] ps[i], c);
        assert(pair_covers_cell(ps.push(p)[i], c));
    }
    if pair_covers_cell(p, c) {
        assert(pair_covers_cell(ps.push(p)[ps.len() as int], c));
    }
    if pairs_cover_cell(ps.push(p), c) {
        let i = choose|i: int| 0 <= i < ps.push(p).len() && pair_covers_cell(#[trigger] ps.push(p)[i], c);
        if i < ps.len() {
            assert(pair_covers_cell(ps[i], c));
        }
    }
}

proof fn lemma_covers_point_pairs_push(ps: Seq<(i64, i64)>, p: (i64, i64), x: int)
    ensures
        pairs_cover_point(ps.push(p), x) <==> (pairs_cover_point(ps, x) || pair_covers_point(p, x)),
{
    if pairs_cover_point(ps, x) {
        let i = choose|i: int| 0 <= i < ps.len() && pair_covers_point(#[trigger] ps[i], x);
        assert(pair_covers_point(ps.push(p)[i], x));
    }
    if pair_covers_point(p, x) {
        assert(pair_covers_point(ps.push(p)[ps.len() as int], x));
    }
    if pairs_cover_point(ps.push(p), x) {
        let i = choose|i: int| 0 <= i < ps.push(p).len() && pair_covers_point(#[trigger] ps.push(p)[i], x);
        if i < ps.len() {
            assert(pair_covers_point(ps[i], x));
        }
    }
}

proof fn lemma_pairs_cover_cell_take_step(ps: Seq<(i64, i64)>, i: int, c: int)
    requires
        0 <= i < ps.len(),
    ensures
        pairs_cover_cell(ps.take(i + 1), c) <==> (pairs_cover_cell(ps.take(i), c)
            || pair_covers_cell(ps[i], c)),
{
    assert(ps.take(i + 1) =~= ps.take(i).push(ps[i]));
    lemma_covers_cell_pairs_push(ps.take(i), ps[i], c);
}

proof fn lemma_pairs_cover_point_take_step(ps: Seq<(i64, i64)>, i: int, x: int)
    requires
        0 <= i < ps.len(),
    ensures
        pairs_cover_point(ps.take(i + 1), x) <==> (pairs_cover_point(ps.take(i), x)
            || pair_covers_point(ps[i], x)),
{
    assert(ps.take(i + 1) =~= ps.take(i).push(ps[i]));
    lemma_covers_point_pairs_push(ps.take(i), ps[i], x);
}

/// The measure of a canonical arc list equals the number of unit cells it
/// covers: the arcs are disjoint, so their lengths add without overlap.
pub proof fn lemma_measure_is_cell_count(s: Seq<(i64, i64)>)
    requires
        canonical(s),
    ensures
        cell_set(s).finite(),
        cell_set(s).len() == spec_measure(s),
    decreases s.len(),
{
    if s.len() == 0 {
        assert(cell_set(s) =~= Set::<int>::empty());
    } else {
        let d = s.drop_last();
        assert(d =~= s.take(s.len() - 1));
        assert(canonical(d)) by {
            assert forall|i: int| 0 <= i < d.len() implies arc_ok(#[trigger] d[i]) by {
                assert(d[i] == s[i]);
            }
            assert forall|i: int| 0 <= i && i + 1 < d.len() implies (#[trigger] d[i]).1 < d[i
                + 1].0 by {
                assert(d[i] == s[i] && d[i + 1] == s[i + 1]);
            }
        }
        lemma_measure_is_cell_count(d);
        let last = s.last();
        let rng = vstd::set_lib::set_int_range(last.0 as int, last.1 as int);
        vstd::set_lib::lemma_int_range(last.0 as int, last.1 as int);
        assert(cell_set(s) =~= cell_set(d) + rng) by {
            assert forall|c: int| covers_cell(s, c) <==> (covers_cell(d, c) || (last.0 <= c
                < last.1)) by {
                assert(s =~= d.push(last));
                lemma_covers_cell_push(d, last, c);
            }
        }
        assert(cell_set(d).disjoint(rng)) by {
            assert forall|c: int| cell_set(d).contains(c) implies !rng.contains(c) by {
                let j = choose|j: int| 0 <= j < d.len() && (#[trigger] d[j]).0 <= c < d[j].1;
                assert(d[j] == s[j]);
                lemma_canonical_ordered(s, j, s.len() - 1);
            }
        }
        vstd::set_lib::lemma_set_disjoint_lens(cell_set(d), rng);
    }
}

/// Interval closure: the arcs of a canonical set are pairwise disjoint and
/// every endpoint lies within one turn of the circle.
pub proof fn lemma_interval_closure(s: Seq<(i64, i64)>)
    requires
        canonical(s),
    ensures
        forall|i: int, j: int|
            0 <= i < s.len() && 0 <= j < s.len() && i != j ==> ((#[trigger] s[i]).1
                < (#[trigger] s[j]).0 || s[j].1 < s[i].0),
        forall|i: int| 0 <= i < s.len() ==> 0 <= (#[trigger] s[i]).0 <= s[i].1 <= FX_TAU,
{
    assert forall|i: int, j: int|
        0 <= i < s.len() && 0 <= j < s.len() && i != j implies ((#[trigger] s[i]).1
        < (#[trigger] s[j]).0 || s[j].1 < s[i].0) by {
        lemma_canonical_pairwise_disjoint(s, i, j);
    }
}

/// Full-circle identity: a set and its complement together measure exactly
/// one turn.
pub proof fn lemma_full_circle_identity(a: Seq<(i64, i64)>, b: Seq<(i64, i64)>)
    requires
        canonical(a),
        canonical(b),
        forall|c: int| covers_cell(b, c) <==> (0 <= c < FX_TAU && !covers_cell(a, c)),
    ensures
        spec_measure(a) + spec_measure(b) == FX_TAU,
{
    lemma_measure_is_cell_count(a);
    lemma_measure_is_cell_count(b);
    let full = vstd::set_lib::set_int_range(0, FX_TAU as int);
    vstd::set_lib::lemma_int_range(0, FX_TAU as int);
    assert(cell_set(a) + cell_set(b) =~= full) by {
        assert forall|c: int| covers_cell(a, c) implies 0 <= c < FX_TAU by {
            let j = choose|j: int| 0 <= j < a.len() && (#[trigger] a[j]).0 <= c < a[j].1;
        }
    }
    assert(cell_set(a).disjoint(cell_set(b)));
    vstd::set_lib::lemma_set_disjoint_lens(cell_set(a), cell_set(b));
}

/// Complement involution: taking the complement twice restores the original
/// total measure.
pub proof fn lemma_complement_involution(a: Seq<(i64, i64)>, b: Seq<(i64, i64)>, c: Seq<(i64, i64)>)
    requires
        canonical(a),
        canonical(b),
        canonical(c),
        forall|x: int| covers_cell(b, x) <==> (0 <= x < FX_TAU && !covers_cell(a, x)),
        forall|x: int| covers_cell(c, x) <==> (0 <= x < FX_TAU && !covers_cell(b, x)),
    ensures
        spec_measure(c) == spec_measure(a),
{
    lemma_full_circle_identity(a, b);
    lemma_full_circle_identity(b, c);
}

/// De Morgan: the complement of a union measures the same as the
/// intersection of the complements.
pub proof fn lemma_de_morgan(
    a: Seq<(i64, i64)>,
    b: Seq<(i64, i64)>,
    u: Seq<(i64, i64)>,
    cu: Seq<(i64, i64)>,
    ca: Seq<(i64, i64)>,
    cb: Seq<(i64, i64)>,
    icc: Seq<(i64, i64)>,
)
    requires
        canonical(a),
        canonical(b),
        canonical(u),
        canonical(cu),
        canonical(ca),
        canonical(cb),
        canonical(icc),
        forall|x: int| covers_cell(u, x) <==> (covers_cell(a, x) || covers_cell(b, x)),
        forall|x: int| covers_cell(cu, x) <==> (0 <= x < FX_TAU && !covers_cell(u, x)),
        forall|x: int| covers_cell(ca, x) <==> (0 <= x < FX_TAU && !covers_cell(a, x)),
        forall|x: int| covers_cell(cb, x) <==> (0 <= x < FX_TAU && !covers_cell(b, x)),
        forall|x: int| covers_cell(icc, x) <==> (covers_cell(ca, x) && covers_cell(cb, x)),
    ensures
        spec_measure(cu) == spec_measure(icc),
{
    lemma_measure_is_cell_count(cu);
    lemma_measure_is_cell_count(icc);
    assert(cell_set(cu) =~= cell_set(icc));
}

} // verus!
