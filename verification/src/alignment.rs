//! Classification of how a set of objects lies relative to a reference.

use vstd::prelude::*;
use crate::frame::{all_in_bounds, views, Frame, Outline};

verus! {

/// The ways in which a set of objects can be aligned with a reference.
#[derive(Clone, Copy, Debug, PartialEq, Eq, Structural)]
pub enum ObjectAlignement {
    /// Same x and same y.
    Alinged,
    /// Same y.
    HorizontalAligned,
    /// Same vertical centre.
    HorizontalCenterAligned,
    /// Same x.
    VerticalLeftAligned,
    /// Same horizontal centre.
    VerticalCenterAlgined,
    /// Same right edge.
    VerticalRightAlgined,
    /// None of the above.
    NonAligned,
}

/// The two share their y.
pub open spec fn same_y(a: Outline, b: Outline) -> bool {
    a.y == b.y
}

/// The vertical centres `y + height / 2` are equal, taken exactly: stated
/// over twice the centre, so that no half is lost.
pub open spec fn same_middle(a: Outline, b: Outline) -> bool {
    2 * a.y + a.height == 2 * b.y + b.height
}

/// The two share their x.
pub open spec fn same_x(a: Outline, b: Outline) -> bool {
    a.x == b.x
}

/// The horizontal centres `x + width / 2` are equal, taken exactly.
pub open spec fn same_centre(a: Outline, b: Outline) -> bool {
    2 * a.x + a.width == 2 * b.x + b.width
}

/// The two share their right edge.
pub open spec fn same_right(a: Outline, b: Outline) -> bool {
    a.x + a.width == b.x + b.width
}

/// The alignment of `others` with `reference`: the first criterion, in the
/// order of the branches, that every one of `others` meets. An empty
/// `others` is not aligned.
pub open spec fn classify(reference: Outline, others: Seq<Outline>) -> ObjectAlignement {
    if others.len() == 0 {
        ObjectAlignement::NonAligned
    } else if forall|i: int| 0 <= i < others.len() ==> same_y(reference, #[trigger] others[i]) {
        ObjectAlignement::HorizontalAligned
    } else if forall|i: int| 0 <= i < others.len() ==> same_middle(reference, #[trigger] others[i]) {
        ObjectAlignement::HorizontalCenterAligned
    } else if forall|i: int| 0 <= i < others.len() ==> same_x(reference, #[trigger] others[i]) {
        ObjectAlignement::VerticalLeftAligned
    } else if forall|i: int| 0 <= i < others.len() ==> same_centre(reference, #[trigger] others[i]) {
        ObjectAlignement::VerticalCenterAlgined
    } else if forall|i: int| 0 <= i < others.len() ==> same_right(reference, #[trigger] others[i]) {
        ObjectAlignement::VerticalRightAlgined
    } else if forall|i: int|
        0 <= i < others.len() ==> same_y(reference, #[trigger] others[i]) && same_x(reference, others[i]) {
        ObjectAlignement::Alinged
    } else {
        ObjectAlignement::NonAligned
    }
}

/// Classifies the alignment of `others` with `reference`.
pub fn classify_frames(reference: &Frame, others: &Vec<Frame>) -> (r: ObjectAlignement)
    requires
        reference@.in_bounds(),
        all_in_bounds(views(others@)),
    ensures
        r == classify(reference@, views(others@)),
{
    if others.len() == 0 {
        return ObjectAlignement::NonAligned;
    }
    let ghost o = views(others@);
    let mut all_y = true;
    let mut all_middle = true;
    let mut all_x = true;
    let mut all_centre = true;
    let mut all_right = true;
    let mut i: usize = 0;
    while i < others.len()
        invariant
            i <= others.len(),
            o == views(others@),
            reference@.in_bounds(),
            all_in_bounds(o),
            all_y == (forall|j: int| 0 <= j < i ==> same_y(reference@, #[trigger] o[j])),
            all_middle == (forall|j: int| 0 <= j < i ==> same_middle(reference@, #[trigger] o[j])),
            all_x == (forall|j: int| 0 <= j < i ==> same_x(reference@, #[trigger] o[j])),
            all_centre == (forall|j: int| 0 <= j < i ==> same_centre(reference@, #[trigger] o[j])),
            all_right == (forall|j: int| 0 <= j < i ==> same_right(reference@, #[trigger] o[j])),
        decreases others.len() - i,
    {
        let e = others[i];
        assert(o[i as int] == e@);
        assert(o[i as int].in_bounds());
        if e.y != reference.y {
            all_y = false;
        }
        if 2 * e.y + e.height != 2 * reference.y + reference.height {
            all_middle = false;
        }
        if e.x != reference.x {
            all_x = false;
        }
        if 2 * e.x + e.width != 2 * reference.x + reference.width {
            all_centre = false;
        }
        if e.x + e.width != reference.x + reference.width {
            all_right = false;
        }
        i += 1;
    }
    if all_y {
        ObjectAlignement::HorizontalAligned
    } else if all_middle {
        ObjectAlignement::HorizontalCenterAligned
    } else if all_x {
        ObjectAlignement::VerticalLeftAligned
    } else if all_centre {
        ObjectAlignement::VerticalCenterAlgined
    } else if all_right {
        ObjectAlignement::VerticalRightAlgined
    } else if all_y && all_x {
        // Never taken: sharing x and y implies sharing y, which is tested first.
        ObjectAlignement::Alinged
    } else {
        ObjectAlignement::NonAligned
    }
}

/// The class `Alinged` is never the answer: objects that share x and y with
/// the reference already share y, which comes first.
pub proof fn lemma_never_plainly_aligned(reference: Outline, others: Seq<Outline>)
    ensures
        classify(reference, others) != ObjectAlignement::Alinged,
{
}

/// Objects that all share the y of the reference are `HorizontalAligned`,
/// whatever else they share with it.
pub proof fn lemma_same_y_wins(reference: Outline, others: Seq<Outline>)
    requires
        others.len() > 0,
        forall|i: int| 0 <= i < others.len() ==> (#[trigger] others[i]).y == reference.y,
    ensures
        classify(reference, others) == ObjectAlignement::HorizontalAligned,
{
}

/// With nothing to compare against, the reference is not aligned.
pub proof fn lemma_empty_not_aligned(reference: Outline)
    ensures
        classify(reference, Seq::empty()) == ObjectAlignement::NonAligned,
{
}

} // verus!
