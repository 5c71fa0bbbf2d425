//! The plain geometric record of one positioned object, and the aggregate
//! bounding box of a set of them.

use vstd::prelude::*;

verus! {

/// Largest magnitude of a coordinate or a size, in thousandths of a point.
pub const COORD_LIMIT: i64 = 0x1000_0000_0000_0000;

/// Thousandths of a point in one point.
pub const UNITS_PER_POINT: i64 = 1000;

/// A value that a coordinate or a size may take.
pub open spec fn in_range(v: int) -> bool {
    -COORD_LIMIT <= v <= COORD_LIMIT
}

/// The mathematical outline of a positioned object: its anchor, its baseline
/// and its size. The y axis grows downwards.
pub struct Outline {
    pub x: int,
    pub y: int,
    pub base: int,
    pub width: int,
    pub height: int,
}

/// The outline of a positioned object as machine integers.
#[derive(Clone, Copy, Debug, PartialEq, Eq)]
pub struct Frame {
    pub x: i64,
    pub y: i64,
    pub base: i64,
    pub width: i64,
    pub height: i64,
}

impl Frame {
    /// Whether every field is within the coordinate limit.
    pub fn is_in_bounds(&self) -> (r: bool)
        ensures
            r == self@.in_bounds(),
    {
        -COORD_LIMIT <= self.x && self.x <= COORD_LIMIT && -COORD_LIMIT <= self.y && self.y
            <= COORD_LIMIT && -COORD_LIMIT <= self.base && self.base <= COORD_LIMIT && -COORD_LIMIT
            <= self.width && self.width <= COORD_LIMIT && -COORD_LIMIT <= self.height && self.height
            <= COORD_LIMIT
    }

    /// Whether the sizes are not negative and the baseline is not above the
    /// anchor.
    pub fn is_well_formed(&self) -> (r: bool)
        ensures
            r == self@.well_formed(),
    {
        self.width >= 0 && self.height >= 0 && self.base >= self.y
    }
}

impl View for Frame {
    type V = Outline;

    open spec fn view(&self) -> Outline {
        Outline {
            x: self.x as int,
            y: self.y as int,
            base: self.base as int,
            width: self.width as int,
            height: self.height as int,
        }
    }
}

impl Outline {
    /// Every field is within the coordinate limit.
    pub open spec fn in_bounds(self) -> bool {
        &&& in_range(self.x)
        &&& in_range(self.y)
        &&& in_range(self.base)
        &&& in_range(self.width)
        &&& in_range(self.height)
    }

    /// Sizes are not negative and the baseline is not above the anchor.
    pub open spec fn well_formed(self) -> bool {
        self.width >= 0 && self.height >= 0 && self.base >= self.y
    }

    /// The right edge.
    pub open spec fn right(self) -> int {
        self.x + self.width
    }

    /// The edge that lies `height` before `y`.
    pub open spec fn far_edge(self) -> int {
        self.y - self.height
    }
}

/// The outlines of a sequence of frames.
pub open spec fn views(frames: Seq<Frame>) -> Seq<Outline> {
    Seq::new(frames.len(), |i: int| frames[i]@)
}

/// Every outline of the sequence is within the coordinate limit.
pub open spec fn all_in_bounds(s: Seq<Outline>) -> bool {
    forall|i: int| 0 <= i < s.len() ==> (#[trigger] s[i]).in_bounds()
}

/// The smallest element of a sequence, 0 for the empty sequence.
pub open spec fn min_of(s: Seq<int>) -> int
    decreases s.len(),
{
    if s.len() == 0 {
        0
    } else if s.len() == 1 {
        s[0]
    } else {
        let m = min_of(s.drop_last());
        if s.last() < m { s.last() } else { m }
    }
}

/// The largest element of a sequence, 0 for the empty sequence.
pub open spec fn max_of(s: Seq<int>) -> int
    decreases s.len(),
{
    if s.len() == 0 {
        0
    } else if s.len() == 1 {
        s[0]
    } else {
        let m = max_of(s.drop_last());
        if s.last() > m { s.last() } else { m }
    }
}

/// The x of every member, in order.
pub open spec fn lefts(s: Seq<Outline>) -> Seq<int> {
    Seq::new(s.len(), |i: int| s[i].x)
}

/// The right edge of every member, in order.
pub open spec fn rights(s: Seq<Outline>) -> Seq<int> {
    Seq::new(s.len(), |i: int| s[i].right())
}

/// The y of every member, in order.
pub open spec fn tops(s: Seq<Outline>) -> Seq<int> {
    Seq::new(s.len(), |i: int| s[i].y)
}

/// The edge `y - height` of every member, in order.
pub open spec fn far_edges(s: Seq<Outline>) -> Seq<int> {
    Seq::new(s.len(), |i: int| s[i].far_edge())
}

/// The baseline of every member, in order.
pub open spec fn bases(s: Seq<Outline>) -> Seq<int> {
    Seq::new(s.len(), |i: int| s[i].base)
}

/// Width of the bounding box of a set: from the smallest x to the largest
/// right edge. 0 for the empty set.
pub open spec fn width_of(s: Seq<Outline>) -> int {
    max_of(rights(s)) - min_of(lefts(s))
}

/// Height of the bounding box of a set: from the smallest `y - height` to the
/// largest y. 0 for the empty set.
pub open spec fn height_of(s: Seq<Outline>) -> int {
    max_of(tops(s)) - min_of(far_edges(s))
}

/// The minimum of a non-empty sequence is one of its elements and no element
/// is below it; likewise for the maximum.
pub proof fn lemma_extremes(s: Seq<int>)
    requires
        s.len() > 0,
    ensures
        s.contains(min_of(s)),
        s.contains(max_of(s)),
        forall|i: int| 0 <= i < s.len() ==> min_of(s) <= #[trigger] s[i] <= max_of(s),
    decreases s.len(),
{
    if s.len() > 1 {
        let p = s.drop_last();
        lemma_extremes(p);
        let a = choose|i: int| 0 <= i < p.len() && p[i] == min_of(p);
        let b = choose|i: int| 0 <= i < p.len() && p[i] == max_of(p);
        assert(s[a] == p[a] && s[b] == p[b]);
        assert(s[s.len() - 1] == s.last());
        assert forall|i: int| 0 <= i < s.len() implies min_of(s) <= #[trigger] s[i] <= max_of(s) by {
            if i < p.len() {
                assert(p[i] == s[i]);
            }
        }
    } else {
        assert(s[0] == min_of(s));
    }
}

/// Extending a prefix by one element updates the extremes by one comparison.
pub proof fn lemma_extremes_step(s: Seq<int>, i: int)
    requires
        0 < i < s.len(),
    ensures
        min_of(s.take(i + 1)) == if s[i] < min_of(s.take(i)) { s[i] } else { min_of(s.take(i)) },
        max_of(s.take(i + 1)) == if s[i] > max_of(s.take(i)) { s[i] } else { max_of(s.take(i)) },
{
    assert(s.take(i + 1).drop_last() =~= s.take(i));
    assert(s.take(i + 1).last() == s[i]);
}

/// Smallest value of a vector, 0 if it is empty.
pub fn smallest(values: &Vec<i64>) -> (r: i64)
    ensures
        r == min_of(ints(values@)),
        values.len() > 0 ==> values@.contains(r),
{
    let ghost s = ints(values@);
    if values.len() == 0 {
        return 0;
    }
    let mut best: i64 = values[0];
    let mut i: usize = 1;
    proof {
        assert(s.take(1).len() == 1);
    }
    while i < values.len()
        invariant
            1 <= i <= values.len(),
            s == ints(values@),
            best == min_of(s.take(i as int)),
            values@.contains(best),
        decreases values.len() - i,
    {
        proof {
            lemma_extremes_step(s, i as int);
        }
        if values[i] < best {
            best = values[i];
        }
        i += 1;
    }
    proof {
        assert(s.take(i as int) =~= s);
    }
    best
}

/// Largest value of a vector, 0 if it is empty.
pub fn largest(values: &Vec<i64>) -> (r: i64)
    ensures
        r == max_of(ints(values@)),
        values.len() > 0 ==> values@.contains(r),
{
    let ghost s = ints(values@);
    if values.len() == 0 {
        return 0;
    }
    let mut best: i64 = values[0];
    let mut i: usize = 1;
    proof {
        assert(s.take(1).len() == 1);
    }
    while i < values.len()
        invariant
            1 <= i <= values.len(),
            s == ints(values@),
            best == max_of(s.take(i as int)),
            values@.contains(best),
        decreases values.len() - i,
    {
        proof {
            lemma_extremes_step(s, i as int);
        }
        if values[i] > best {
            best = values[i];
        }
        i += 1;
    }
    proof {
        assert(s.take(i as int) =~= s);
    }
    best
}

/// The values of a vector as mathematical integers.
pub open spec fn ints(s: Seq<i64>) -> Seq<int> {
    s.map_values(|v: i64| v as int)
}

/// Width of the bounding box of a set of frames.
pub fn frames_width(frames: &Vec<Frame>) -> (r: i64)
    requires
        all_in_bounds(views(frames@)),
    ensures
        r == width_of(views(frames@)),
{
    let mut xs: Vec<i64> = Vec::new();
    let mut edges: Vec<i64> = Vec::new();
    let mut i: usize = 0;
    while i < frames.len()
        invariant
            i <= frames.len(),
            all_in_bounds(views(frames@)),
            xs.len() == i,
            edges.len() == i,
            forall|j: int| 0 <= j < i ==> xs[j] == frames[j].x && in_range(#[trigger] xs[j] as int),
            forall|j: int|
                0 <= j < i ==> edges[j] == frames[j].x + frames[j].width && -2 * COORD_LIMIT
                    <= #[trigger] edges[j] <= 2 * COORD_LIMIT,
        decreases frames.len() - i,
    {
        assert(views(frames@)[i as int].in_bounds());
        xs.push(frames[i].x);
        edges.push(frames[i].x + frames[i].width);
        i += 1;
    }
    proof {
        assert(ints(xs@) =~= lefts(views(frames@)));
        assert(ints(edges@) =~= rights(views(frames@)));
    }
    let lower_bound = smallest(&xs);
    let upper_bound = largest(&edges);
    proof {
        if frames.len() > 0 {
            let a = choose|j: int| 0 <= j < xs@.len() && xs@[j] == lower_bound;
            let b = choose|j: int| 0 <= j < edges@.len() && edges@[j] == upper_bound;
            assert(in_range(xs[a] as int));
            assert(edges[b] <= 2 * COORD_LIMIT);
        }
    }
    upper_bound - lower_bound
}

/// Height of the bounding box of a set of frames.
pub fn frames_height(frames: &Vec<Frame>) -> (r: i64)
    requires
        all_in_bounds(views(frames@)),
    ensures
        r == height_of(views(frames@)),
{
    let mut ys: Vec<i64> = Vec::new();
    let mut edges: Vec<i64> = Vec::new();
    let mut i: usize = 0;
    while i < frames.len()
        invariant
            i <= frames.len(),
            all_in_bounds(views(frames@)),
            ys.len() == i,
            edges.len() == i,
            forall|j: int| 0 <= j < i ==> ys[j] == frames[j].y && in_range(#[trigger] ys[j] as int),
            forall|j: int|
                0 <= j < i ==> edges[j] == frames[j].y - frames[j].height && -2 * COORD_LIMIT
                    <= #[trigger] edges[j] <= 2 * COORD_LIMIT,
        decreases frames.len() - i,
    {
        assert(views(frames@)[i as int].in_bounds());
        ys.push(frames[i].y);
        edges.push(frames[i].y - frames[i].height);
        i += 1;
    }
    proof {
        assert(ints(ys@) =~= tops(views(frames@)));
        assert(ints(edges@) =~= far_edges(views(frames@)));
    }
    let upper_bound = largest(&ys);
    let lower_bound = smallest(&edges);
    proof {
        if frames.len() > 0 {
            let a = choose|j: int| 0 <= j < ys@.len() && ys@[j] == upper_bound;
            let b = choose|j: int| 0 <= j < edges@.len() && edges@[j] == lower_bound;
            assert(in_range(ys[a] as int));
            assert(edges[b] >= -2 * COORD_LIMIT);
        }
    }
    upper_bound - lower_bound
}

/// The smallest baseline of a set of frames, 0 for the empty set.
pub fn frames_base(frames: &Vec<Frame>) -> (r: i64)
    requires
        all_in_bounds(views(frames@)),
    ensures
        r == min_of(bases(views(frames@))),
        in_range(r as int),
{
    let mut values: Vec<i64> = Vec::new();
    let mut i: usize = 0;
    while i < frames.len()
        invariant
            i <= frames.len(),
            all_in_bounds(views(frames@)),
            values.len() == i,
            forall|j: int| 0 <= j < i ==> values[j] == frames[j].base && in_range(#[trigger] values[j] as int),
        decreases frames.len() - i,
    {
        assert(views(frames@)[i as int].in_bounds());
        values.push(frames[i].base);
        i += 1;
    }
    proof {
        assert(ints(values@) =~= bases(views(frames@)));
    }
    let lowest = smallest(&values);
    proof {
        if frames.len() > 0 {
            let a = choose|j: int| 0 <= j < values@.len() && values@[j] == lowest;
            assert(in_range(values[a] as int));
        }
    }
    lowest
}

/// The bounding box of a non-empty set contains every member: no member
/// starts left of the smallest x or ends right of that x plus the width of
/// the set, and no member lies outside the span that the height of the set
/// measures.
pub proof fn lemma_bounding_box_contains(s: Seq<Outline>, m: int)
    requires
        0 <= m < s.len(),
    ensures
        min_of(lefts(s)) <= s[m].x,
        s[m].x + s[m].width <= min_of(lefts(s)) + width_of(s),
        s[m].y <= max_of(tops(s)),
        max_of(tops(s)) - height_of(s) <= s[m].y - s[m].height,
{
    lemma_extremes(lefts(s));
    lemma_extremes(rights(s));
    lemma_extremes(tops(s));
    lemma_extremes(far_edges(s));
    assert(lefts(s)[m] == s[m].x);
    assert(rights(s)[m] == s[m].x + s[m].width);
    assert(tops(s)[m] == s[m].y);
    assert(far_edges(s)[m] == s[m].y - s[m].height);
}

/// The bounding box of a non-empty set is tight: some member starts at its
/// left edge, some member ends at its right edge, and likewise for the
/// other axis.
pub proof fn lemma_bounding_box_tight(s: Seq<Outline>)
    requires
        s.len() > 0,
    ensures
        exists|i: int| 0 <= i < s.len() && s[i].x == min_of(lefts(s)),
        exists|i: int| 0 <= i < s.len() && s[i].x + s[i].width == min_of(lefts(s)) + width_of(s),
        exists|i: int| 0 <= i < s.len() && s[i].y == max_of(tops(s)),
        exists|i: int| 0 <= i < s.len() && s[i].y - s[i].height == max_of(tops(s)) - height_of(s),
{
    lemma_extremes(lefts(s));
    lemma_extremes(rights(s));
    lemma_extremes(tops(s));
    lemma_extremes(far_edges(s));
    let a = choose|i: int| 0 <= i < s.len() && lefts(s)[i] == min_of(lefts(s));
    let b = choose|i: int| 0 <= i < s.len() && rights(s)[i] == max_of(rights(s));
    let c = choose|i: int| 0 <= i < s.len() && tops(s)[i] == max_of(tops(s));
    let d = choose|i: int| 0 <= i < s.len() && far_edges(s)[i] == min_of(far_edges(s));
    assert(s[a].x == min_of(lefts(s)));
    assert(s[b].x + s[b].width == min_of(lefts(s)) + width_of(s));
    assert(s[c].y == max_of(tops(s)));
    assert(s[d].y - s[d].height == max_of(tops(s)) - height_of(s));
}

/// Where the first member of a set is its leftmost, every member lies
/// between the x of the first and that x plus the width of the set.
pub proof fn lemma_bounding_box_from_anchor(s: Seq<Outline>, m: int)
    requires
        0 <= m < s.len(),
        forall|i: int| 0 <= i < s.len() ==> s[0].x <= (#[trigger] s[i]).x,
    ensures
        s[0].x == min_of(lefts(s)),
        s[0].x <= s[m].x,
        s[m].x + s[m].width <= s[0].x + width_of(s),
{
    lemma_bounding_box_contains(s, m);
    lemma_bounding_box_contains(s, 0);
    lemma_bounding_box_tight(s);
}

/// Two sequences with the same elements have the same extremes, in whatever
/// order and however often the elements occur.
pub proof fn lemma_extremes_ignore_order(s: Seq<int>, t: Seq<int>)
    requires
        forall|i: int| 0 <= i < s.len() ==> t.contains(#[trigger] s[i]),
        forall|j: int| 0 <= j < t.len() ==> s.contains(#[trigger] t[j]),
    ensures
        min_of(s) == min_of(t),
        max_of(s) == max_of(t),
{
    if s.len() > 0 {
        assert(t.contains(s[0]));
        lemma_extremes(s);
        lemma_extremes(t);
        let a = choose|i: int| 0 <= i < s.len() && s[i] == min_of(s);
        let b = choose|i: int| 0 <= i < t.len() && t[i] == min_of(t);
        let c = choose|i: int| 0 <= i < s.len() && s[i] == max_of(s);
        let d = choose|i: int| 0 <= i < t.len() && t[i] == max_of(t);
        assert(t.contains(s[a]) && s.contains(t[b]) && t.contains(s[c]) && s.contains(t[d]));
    } else if t.len() > 0 {
        assert(s.contains(t[0]));
    }
}

/// Where every element of `s` occurs in `t`, every edge of `s` occurs among
/// the edges of `t`.
proof fn lemma_shared_edges(s: Seq<Outline>, t: Seq<Outline>)
    requires
        forall|i: int| 0 <= i < s.len() ==> t.contains(#[trigger] s[i]),
    ensures
        forall|i: int| 0 <= i < lefts(s).len() ==> lefts(t).contains(#[trigger] lefts(s)[i]),
        forall|i: int| 0 <= i < rights(s).len() ==> rights(t).contains(#[trigger] rights(s)[i]),
        forall|i: int| 0 <= i < tops(s).len() ==> tops(t).contains(#[trigger] tops(s)[i]),
        forall|i: int| 0 <= i < far_edges(s).len() ==> far_edges(t).contains(#[trigger] far_edges(s)[i]),
        forall|i: int| 0 <= i < bases(s).len() ==> bases(t).contains(#[trigger] bases(s)[i]),
{
    assert forall|i: int| 0 <= i < lefts(s).len() implies lefts(t).contains(#[trigger] lefts(s)[i]) by {
        assert(t.contains(s[i]));
        let j = choose|j: int| 0 <= j < t.len() && t[j] == s[i];
        assert(lefts(t)[j] == lefts(s)[i]);
    }
    assert forall|i: int| 0 <= i < rights(s).len() implies rights(t).contains(#[trigger] rights(s)[i]) by {
        assert(t.contains(s[i]));
        let j = choose|j: int| 0 <= j < t.len() && t[j] == s[i];
        assert(rights(t)[j] == rights(s)[i]);
    }
    assert forall|i: int| 0 <= i < tops(s).len() implies tops(t).contains(#[trigger] tops(s)[i]) by {
        assert(t.contains(s[i]));
        let j = choose|j: int| 0 <= j < t.len() && t[j] == s[i];
        assert(tops(t)[j] == tops(s)[i]);
    }
    assert forall|i: int| 0 <= i < far_edges(s).len() implies far_edges(t).contains(#[trigger] far_edges(s)[i]) by {
        assert(t.contains(s[i]));
        let j = choose|j: int| 0 <= j < t.len() && t[j] == s[i];
        assert(far_edges(t)[j] == far_edges(s)[i]);
    }
    assert forall|i: int| 0 <= i < bases(s).len() implies bases(t).contains(#[trigger] bases(s)[i]) by {
        assert(t.contains(s[i]));
        let j = choose|j: int| 0 <= j < t.len() && t[j] == s[i];
        assert(bases(t)[j] == bases(s)[i]);
    }
}

/// The bounding box of a set does not depend on the order of its members.
pub proof fn lemma_box_ignores_order(s: Seq<Outline>, t: Seq<Outline>)
    requires
        forall|i: int| 0 <= i < s.len() ==> t.contains(#[trigger] s[i]),
        forall|j: int| 0 <= j < t.len() ==> s.contains(#[trigger] t[j]),
    ensures
        width_of(s) == width_of(t),
        height_of(s) == height_of(t),
        min_of(bases(s)) == min_of(bases(t)),
{
    lemma_shared_edges(s, t);
    lemma_shared_edges(t, s);
    lemma_extremes_ignore_order(lefts(s), lefts(t));
    lemma_extremes_ignore_order(rights(s), rights(t));
    lemma_extremes_ignore_order(tops(s), tops(t));
    lemma_extremes_ignore_order(far_edges(s), far_edges(t));
    lemma_extremes_ignore_order(bases(s), bases(t));
}

/// The bounding box of well-formed members has no negative extent.
pub proof fn lemma_extent_not_negative(s: Seq<Outline>)
    requires
        forall|i: int| 0 <= i < s.len() ==> (#[trigger] s[i]).well_formed(),
    ensures
        width_of(s) >= 0,
        height_of(s) >= 0,
{
    if s.len() > 0 {
        lemma_bounding_box_contains(s, 0);
        assert(s[0].well_formed());
    }
}

/// The bounding box of the empty set has no extent.
pub proof fn lemma_empty_box()
    ensures
        width_of(Seq::<Outline>::empty()) == 0,
        height_of(Seq::<Outline>::empty()) == 0,
{
}

} // verus!
