//! Gaps between consecutive objects of an ordered set, and their mode.

use vstd::prelude::*;
use crate::alignment::{classify, classify_frames, same_middle, same_y, ObjectAlignement};
use crate::frame::{all_in_bounds, ints, views, Frame, Outline, UNITS_PER_POINT};

verus! {

/// Two consecutive objects stand on one line: the second is classified,
/// against the first, as sharing its y or its vertical centre.
pub open spec fn same_line(current: Outline, next: Outline) -> bool {
    same_y(current, next) || same_middle(current, next)
}

/// The last element of a sequence, 0 for the empty sequence.
pub open spec fn last_or_zero(s: Seq<int>) -> int {
    if s.len() > 0 { s.last() } else { 0 }
}

/// The number of consecutive pairs in a sequence of that length.
pub open spec fn pair_count(len: nat) -> nat {
    if len == 0 { 0 } else { (len - 1) as nat }
}

/// The vertical gaps recorded over the first `n` consecutive pairs. A pair on
/// one line records nothing. Otherwise the gap from the baseline of the
/// first to the y of the second is recorded, if that baseline is positive and
/// greater than the gap recorded last (0 if there is none yet).
pub open spec fn vertical_gaps(s: Seq<Outline>, n: nat) -> Seq<int>
    decreases n,
{
    if n == 0 {
        Seq::empty()
    } else {
        let before = vertical_gaps(s, (n - 1) as nat);
        let current = s[n - 1];
        let next = s[n as int];
        if !same_line(current, next) && current.base > 0 && current.base > last_or_zero(before) {
            before.push(next.y - current.base)
        } else {
            before
        }
    }
}

/// The horizontal gaps recorded over the first `n` consecutive pairs. Only a
/// pair on one line records. The gap from the right edge of the first to the
/// x of the second is recorded, if that right edge is positive and greater
/// than the gap recorded last (0 if there is none yet).
pub open spec fn horizontal_gaps(s: Seq<Outline>, n: nat) -> Seq<int>
    decreases n,
{
    if n == 0 {
        Seq::empty()
    } else {
        let before = horizontal_gaps(s, (n - 1) as nat);
        let current = s[n - 1];
        let next = s[n as int];
        if same_line(current, next) && current.right() > 0 && current.right() > last_or_zero(before) {
            before.push(next.x - current.right())
        } else {
            before
        }
    }
}

/// The positive elements of a sequence, in order.
pub open spec fn keep_positive(s: Seq<int>) -> Seq<int>
    decreases s.len(),
{
    if s.len() == 0 {
        Seq::empty()
    } else {
        let before = keep_positive(s.drop_last());
        if s.last() > 0 { before.push(s.last()) } else { before }
    }
}

/// The vertical spacing of an ordered set: its positive recorded gaps.
pub open spec fn vertical_spacing_of(s: Seq<Outline>) -> Seq<int> {
    keep_positive(vertical_gaps(s, pair_count(s.len())))
}

/// The horizontal spacing of an ordered set: its positive recorded gaps.
pub open spec fn horizontal_spacing_of(s: Seq<Outline>) -> Seq<int> {
    keep_positive(horizontal_gaps(s, pair_count(s.len())))
}

/// Two objects are on one line exactly when the second, alone, is classified
/// against the first as `HorizontalAligned` or `HorizontalCenterAligned`.
pub proof fn lemma_same_line_is_classified(current: Outline, next: Outline)
    ensures
        same_line(current, next) <==> (classify(current, seq![next])
            == ObjectAlignement::HorizontalAligned || classify(current, seq![next])
            == ObjectAlignement::HorizontalCenterAligned),
{
    let others = seq![next];
    assert(others[0] == next);
}

/// Whether `next`, alone, is classified against `current` as on its line.
pub fn on_same_line(current: &Frame, next: &Frame) -> (r: bool)
    requires
        current@.in_bounds(),
        next@.in_bounds(),
    ensures
        r == same_line(current@, next@),
{
    let mut others: Vec<Frame> = Vec::with_capacity(1);
    others.push(*next);
    proof {
        assert(views(others@) =~= seq![next@]);
        lemma_same_line_is_classified(current@, next@);
    }
    match classify_frames(current, &others) {
        ObjectAlignement::HorizontalAligned | ObjectAlignement::HorizontalCenterAligned => true,
        _ => false,
    }
}

/// The positive values of a vector, in order.
pub fn positive_values(values: &Vec<i64>) -> (r: Vec<i64>)
    ensures
        ints(r@) == keep_positive(ints(values@)),
{
    let ghost s = ints(values@);
    let mut kept: Vec<i64> = Vec::new();
    let mut i: usize = 0;
    proof {
        assert(ints(kept@) =~= keep_positive(s.take(0)));
    }
    while i < values.len()
        invariant
            i <= values.len(),
            s == ints(values@),
            ints(kept@) == keep_positive(s.take(i as int)),
        decreases values.len() - i,
    {
        proof {
            assert(s.take(i + 1).drop_last() =~= s.take(i as int));
            assert(s.take(i + 1).last() == values[i as int]);
        }
        if values[i] > 0 {
            proof {
                assert(ints(kept@.push(values[i as int])) =~= ints(kept@).push(values[i as int] as int));
            }
            kept.push(values[i]);
        }
        i += 1;
    }
    proof {
        assert(s.take(i as int) =~= s);
    }
    kept
}

/// The vertical spacing of an ordered set of frames.
pub fn frames_vertical_spacing(frames: &Vec<Frame>) -> (r: Vec<i64>)
    requires
        all_in_bounds(views(frames@)),
    ensures
        ints(r@) == vertical_spacing_of(views(frames@)),
{
    let ghost o = views(frames@);
    let mut gaps: Vec<i64> = Vec::new();
    if frames.len() >= 2 {
        let mut i: usize = 0;
        proof {
            assert(ints(gaps@) =~= vertical_gaps(o, 0));
        }
        while i + 1 < frames.len()
            invariant
                i + 1 <= frames.len(),
                o == views(frames@),
                all_in_bounds(o),
                ints(gaps@) == vertical_gaps(o, i as nat),
            decreases frames.len() - i,
        {
            let current = frames[i];
            let next = frames[i + 1];
            assert(o[i as int] == current@ && o[i + 1] == next@);
            assert(o[i as int].in_bounds() && o[i + 1].in_bounds());
            let spacing = current.base;
            let last_spacing = if gaps.len() > 0 { gaps[gaps.len() - 1] } else { 0 };
            assert(last_spacing == last_or_zero(ints(gaps@)));
            if !on_same_line(&current, &next) && spacing > 0 && spacing > last_spacing {
                proof {
                    assert(ints(gaps@.push((next.y - spacing) as i64)) =~= ints(gaps@).push(
                        next.y - spacing,
                    ));
                }
                gaps.push(next.y - spacing);
            }
            i += 1;
        }
    }
    positive_values(&gaps)
}

/// The horizontal spacing of an ordered set of frames.
pub fn frames_horizontal_spacing(frames: &Vec<Frame>) -> (r: Vec<i64>)
    requires
        all_in_bounds(views(frames@)),
    ensures
        ints(r@) == horizontal_spacing_of(views(frames@)),
{
    let ghost o = views(frames@);
    let mut gaps: Vec<i64> = Vec::new();
    if frames.len() >= 2 {
        let mut i: usize = 0;
        proof {
            assert(ints(gaps@) =~= horizontal_gaps(o, 0));
        }
        while i + 1 < frames.len()
            invariant
                i + 1 <= frames.len(),
                o == views(frames@),
                all_in_bounds(o),
                ints(gaps@) == horizontal_gaps(o, i as nat),
            decreases frames.len() - i,
        {
            let current = frames[i];
            let next = frames[i + 1];
            assert(o[i as int] == current@ && o[i + 1] == next@);
            assert(o[i as int].in_bounds() && o[i + 1].in_bounds());
            let spacing = current.x + current.width;
            let last_spacing = if gaps.len() > 0 { gaps[gaps.len() - 1] } else { 0 };
            assert(last_spacing == last_or_zero(ints(gaps@)));
            if on_same_line(&current, &next) && spacing > 0 && spacing > last_spacing {
                proof {
                    assert(ints(gaps@.push((next.x - spacing) as i64)) =~= ints(gaps@).push(
                        next.x - spacing,
                    ));
                }
                gaps.push(next.x - spacing);
            }
            i += 1;
        }
    }
    positive_values(&gaps)
}

/// Every value of `keep_positive` is positive and was in the sequence.
pub proof fn lemma_keep_positive(s: Seq<int>)
    ensures
        keep_positive(s).len() <= s.len(),
        forall|i: int| 0 <= i < keep_positive(s).len() ==> #[trigger] keep_positive(s)[i] > 0 && s.contains(keep_positive(s)[i]),
    decreases s.len(),
{
    if s.len() > 0 {
        let p = s.drop_last();
        lemma_keep_positive(p);
        assert forall|i: int| 0 <= i < keep_positive(s).len() implies #[trigger] keep_positive(s)[i] > 0
            && s.contains(keep_positive(s)[i]) by {
            if i < keep_positive(p).len() {
                let v = keep_positive(p)[i];
                let k = choose|k: int| 0 <= k < p.len() && p[k] == v;
                assert(s[k] == v);
            } else {
                assert(s[s.len() - 1] == s.last());
            }
        }
    }
}

/// No more gaps are recorded than pairs were scanned.
pub proof fn lemma_gap_count(s: Seq<Outline>, n: nat)
    ensures
        vertical_gaps(s, n).len() <= n,
        horizontal_gaps(s, n).len() <= n,
    decreases n,
{
    if n > 0 {
        lemma_gap_count(s, (n - 1) as nat);
    }
}

/// Every spacing value is positive, and a set has fewer spacing values than
/// members.
pub proof fn lemma_spacing_is_positive(s: Seq<Outline>)
    ensures
        vertical_spacing_of(s).len() <= pair_count(s.len()),
        horizontal_spacing_of(s).len() <= pair_count(s.len()),
        forall|i: int| 0 <= i < vertical_spacing_of(s).len() ==> #[trigger] vertical_spacing_of(s)[i] > 0,
        forall|i: int|
            0 <= i < horizontal_spacing_of(s).len() ==> #[trigger] horizontal_spacing_of(s)[i] > 0,
{
    lemma_gap_count(s, pair_count(s.len()));
    lemma_keep_positive(vertical_gaps(s, pair_count(s.len())));
    lemma_keep_positive(horizontal_gaps(s, pair_count(s.len())));
}

/// An empty set, and a set of one object, have no spacing.
pub proof fn lemma_no_pair_no_spacing(s: Seq<Outline>)
    requires
        s.len() <= 1,
    ensures
        vertical_spacing_of(s) == Seq::<int>::empty(),
        horizontal_spacing_of(s) == Seq::<int>::empty(),
{
}

/// No vertical gap is recorded for a set whose consecutive objects share
/// their y, whatever their baselines.
pub proof fn lemma_one_line_no_vertical_gap(s: Seq<Outline>, n: nat)
    requires
        n < s.len(),
        forall|i: int| 0 <= i < n ==> (#[trigger] s[i]).y == s[i + 1].y,
    ensures
        vertical_gaps(s, n) == Seq::<int>::empty(),
    decreases n,
{
    if n > 0 {
        lemma_one_line_no_vertical_gap(s, (n - 1) as nat);
        assert(s[n - 1].y == s[n - 1 + 1].y);
    }
}

/// A pair of consecutive objects that share their y records no vertical gap,
/// whatever their baselines.
pub proof fn lemma_same_y_pair_records_nothing(s: Seq<Outline>, n: nat)
    requires
        0 < n < s.len(),
        s[n - 1].y == s[n as int].y,
    ensures
        vertical_gaps(s, n) == vertical_gaps(s, (n - 1) as nat),
{
}

/// A set whose consecutive objects share their y has no vertical spacing.
pub proof fn lemma_one_line_no_vertical_spacing(s: Seq<Outline>)
    requires
        forall|i: int| 0 <= i < s.len() - 1 ==> (#[trigger] s[i]).y == s[i + 1].y,
    ensures
        vertical_spacing_of(s) == Seq::<int>::empty(),
{
    if s.len() > 0 {
        lemma_one_line_no_vertical_gap(s, pair_count(s.len()));
    }
}

/// A value in thousandths of a point, rounded to the nearest whole point;
/// a half is rounded away from zero.
pub open spec fn nearest_point(v: int) -> int {
    if v >= 0 {
        (v + UNITS_PER_POINT / 2) / (UNITS_PER_POINT as int)
    } else {
        -((-v + UNITS_PER_POINT / 2) / (UNITS_PER_POINT as int))
    }
}

/// Rounds a value in thousandths of a point to the nearest whole point.
pub fn round_to_point(v: i64) -> (r: i64)
    ensures
        r == nearest_point(v as int),
{
    let half: i64 = UNITS_PER_POINT / 2;
    if v >= 0 {
        let whole: i64 = v / UNITS_PER_POINT;
        let rest: i64 = v % UNITS_PER_POINT;
        if rest >= half { whole + 1 } else { whole }
    } else {
        let below: i64 = -(v + 1);
        let whole: i64 = below / UNITS_PER_POINT;
        let rest: i64 = below % UNITS_PER_POINT;
        if rest + 1 >= half { -(whole + 1) } else { -whole }
    }
}

/// The spacing values of a sequence, each rounded to whole points.
pub open spec fn rounded_points(s: Seq<int>) -> Seq<i64> {
    Seq::new(s.len(), |i: int| nearest_point(s[i]) as i64)
}

/// How often a value occurs in a sequence.
pub open spec fn occurrences(s: Seq<i64>, v: i64) -> nat
    decreases s.len(),
{
    if s.len() == 0 {
        0
    } else {
        occurrences(s.drop_last(), v) + if s.last() == v { 1nat } else { 0nat }
    }
}

/// What `stats::mode` returns for a stream of these values.
pub uninterp spec fn stats_mode(values: Seq<i64>) -> Option<i64>;

/// Calls `stats::mode` on the values. The result depends on the values
/// alone. The one fact claimed of it beyond that: a value that it returns was
/// seen at least twice, since a candidate only becomes the mode once its
/// count of repeats exceeds that of the mode so far.
#[verifier::external_body]
fn most_frequent(values: Vec<i64>) -> (r: Option<i64>)
    ensures
        r == stats_mode(values@),
        r matches Some(v) ==> occurrences(values@, v) >= 2,
{
    stats::mode(values.into_iter())
}

/// The mode of a list of spacing values, each rounded to whole points. There
/// is none if the list is empty or no rounded value occurs twice.
pub fn spacing_mode(spacing: &Vec<i64>) -> (r: Option<i64>)
    ensures
        r == stats_mode(rounded_points(ints(spacing@))),
        r matches Some(v) ==> occurrences(rounded_points(ints(spacing@)), v) >= 2,
        spacing.len() < 2 ==> r is None,
{
    let mut points: Vec<i64> = Vec::new();
    let mut i: usize = 0;
    while i < spacing.len()
        invariant
            i <= spacing.len(),
            points.len() == i,
            forall|j: int| 0 <= j < i ==> #[trigger] points[j] == nearest_point(spacing[j] as int),
        decreases spacing.len() - i,
    {
        points.push(round_to_point(spacing[i]));
        i += 1;
    }
    proof {
        assert(points@ =~= rounded_points(ints(spacing@)));
    }
    let ghost values = points@;
    let mode = most_frequent(points);
    proof {
        if let Some(v) = mode {
            lemma_occurrences_bounded(values, v);
        }
    }
    mode
}

/// A value cannot occur more often than the sequence is long.
pub proof fn lemma_occurrences_bounded(s: Seq<i64>, v: i64)
    ensures
        occurrences(s, v) <= s.len(),
    decreases s.len(),
{
    if s.len() > 0 {
        lemma_occurrences_bounded(s.drop_last(), v);
    }
}

} // verus!
