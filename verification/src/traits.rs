//! Capabilities of a positioned object: where it is, how large it is, how it
//! is styled, and how it lies relative to others.

use vstd::prelude::*;
use crate::alignment::{classify, classify_frames, ObjectAlignement};
use crate::frame::{all_in_bounds, in_range, ints, views, Frame, Outline};
use crate::spacing::{
    horizontal_spacing_of, occurrences, rounded_points, stats_mode, vertical_spacing_of,
};

verus! {

/// The absolute position of an object or of a set of objects.
pub trait Coordinates {
    /// The object can be measured: its values are within the coordinate limit.
    spec fn placed(&self) -> bool;

    spec fn x_spec(&self) -> int;

    spec fn y_spec(&self) -> int;

    spec fn base_spec(&self) -> int;

    /// The y position.
    fn y(&self) -> (r: i64)
        requires
            self.placed(),
        ensures
            r == self.y_spec(),
            in_range(r as int),
    ;

    /// The x position.
    fn x(&self) -> (r: i64)
        requires
            self.placed(),
        ensures
            r == self.x_spec(),
            in_range(r as int),
    ;

    /// The baseline.
    fn base(&self) -> (r: i64)
        requires
            self.placed(),
        ensures
            r == self.base_spec(),
            in_range(r as int),
    ;
}

/// The size of an object or of a set of objects.
pub trait Shape {
    /// The object can be measured: its sizes are within the coordinate limit.
    spec fn sized(&self) -> bool;

    spec fn width_spec(&self) -> int;

    spec fn height_spec(&self) -> int;

    spec fn rotation_spec(&self) -> Option<i64>;

    spec fn angle_spec(&self) -> Option<i64>;

    /// The width.
    fn width(&self) -> (r: i64)
        requires
            self.sized(),
        ensures
            r == self.width_spec(),
            in_range(r as int),
    ;

    /// The height.
    fn height(&self) -> (r: i64)
        requires
            self.sized(),
        ensures
            r == self.height_spec(),
            in_range(r as int),
    ;

    /// The rotation of a single object; a set has none.
    fn rotation(&self) -> (r: Option<i64>)
        ensures
            r == self.rotation_spec(),
    ;

    /// The angle of a single object; a set has none.
    fn angle(&self) -> (r: Option<i64>)
        ensures
            r == self.angle_spec(),
    ;
}

/// The style of an object or of a set of objects. `None` stands for unknown.
pub trait Style {
    spec fn font_size_spec(&self) -> Option<u64>;

    spec fn avg_font_size_spec(&self) -> Option<u64>;

    spec fn font_color_spec(&self) -> Option<Seq<char>>;

    spec fn bold_spec(&self) -> Option<bool>;

    spec fn italic_spec(&self) -> Option<bool>;

    /// The font size, in thousandths of a point.
    fn font_size(&self) -> (r: Option<u64>)
        ensures
            r == self.font_size_spec(),
    ;

    /// The mean font size, in thousandths of a point, rounded down.
    fn avg_font_size(&self) -> (r: Option<u64>)
        ensures
            r == self.avg_font_size_spec(),
    ;

    /// The font colour.
    fn font_color(&self) -> (r: Option<String>)
        ensures
            match r {
                Some(c) => self.font_color_spec() == Some(c@),
                None => self.font_color_spec() is None,
            },
    ;

    /// Whether the font is bold.
    fn bold(&self) -> (r: Option<bool>)
        ensures
            r == self.bold_spec(),
    ;

    /// Whether the font is italic.
    fn italic(&self) -> (r: Option<bool>)
        ensures
            r == self.italic_spec(),
    ;
}

/// The outline of an object that has a position and a size.
pub open spec fn outline_of<T: Coordinates + Shape>(t: &T) -> Outline {
    Outline {
        x: t.x_spec(),
        y: t.y_spec(),
        base: t.base_spec(),
        width: t.width_spec(),
        height: t.height_spec(),
    }
}

/// The outlines of a sequence of objects, in order.
pub open spec fn outlines<T: Coordinates + Shape>(objects: Seq<&T>) -> Seq<Outline> {
    Seq::new(objects.len(), |i: int| outline_of(objects[i]))
}

/// Every object of the sequence can be measured.
pub open spec fn all_measurable<T: Coordinates + Shape>(objects: Seq<&T>) -> bool {
    forall|i: int| 0 <= i < objects.len() ==> (#[trigger] objects[i]).placed() && objects[i].sized()
}

/// Reads the outline of one object.
pub fn frame_of<T: Coordinates + Shape>(object: &T) -> (f: Frame)
    requires
        object.placed(),
        object.sized(),
    ensures
        f@ == outline_of(object),
        f@.in_bounds(),
{
    Frame {
        x: object.x(),
        y: object.y(),
        base: object.base(),
        width: object.width(),
        height: object.height(),
    }
}

/// Reads the outlines of a set of objects, in order.
pub fn frames_of<T: Coordinates + Shape>(objects: &Vec<&T>) -> (r: Vec<Frame>)
    requires
        all_measurable(objects@),
    ensures
        views(r@) == outlines(objects@),
        all_in_bounds(views(r@)),
{
    let mut frames: Vec<Frame> = Vec::new();
    let mut i: usize = 0;
    while i < objects.len()
        invariant
            i <= objects.len(),
            all_measurable(objects@),
            frames.len() == i,
            forall|j: int| 0 <= j < i ==> (#[trigger] frames[j])@ == outline_of(objects[j]) && frames[j]@.in_bounds(),
        decreases objects.len() - i,
    {
        assert(objects@[i as int].placed() && objects@[i as int].sized());
        frames.push(frame_of(objects[i]));
        i += 1;
    }
    proof {
        assert(views(frames@) =~= outlines(objects@));
    }
    frames
}

/// The alignment of objects with a reference. Any type that has a position
/// and a size can have it.
pub trait Alignement: Coordinates + Shape + Sized {
    /// Classifies how `others` lie relative to `self`.
    fn alignement<X: Coordinates + Shape>(&self, others: Vec<&X>) -> (r: ObjectAlignement)
        requires
            self.placed(),
            self.sized(),
            all_measurable(others@),
        ensures
            r == classify(outline_of(self), outlines(others@)),
    {
        let reference = frame_of(self);
        let frames = frames_of(&others);
        classify_frames(&reference, &frames)
    }
}

/// The spacing between the consecutive objects of an ordered set.
pub trait Spacing {
    /// Every member can be measured.
    spec fn measurable(&self) -> bool;

    /// The outlines of the members, in order.
    spec fn members(&self) -> Seq<Outline>;

    /// The vertical gaps between consecutive members on different lines.
    fn vertical_spacing(&self) -> (r: Vec<i64>)
        requires
            self.measurable(),
        ensures
            ints(r@) == vertical_spacing_of(self.members()),
    ;

    /// The most frequent vertical gap, in whole points.
    fn mode_vertical_spacing(&self) -> (r: Option<i64>)
        requires
            self.measurable(),
        ensures
            r == stats_mode(rounded_points(vertical_spacing_of(self.members()))),
            r matches Some(v) ==> occurrences(rounded_points(vertical_spacing_of(self.members())), v) >= 2,
            vertical_spacing_of(self.members()).len() < 2 ==> r is None,
    ;

    /// The horizontal gaps between consecutive members on one line.
    fn horizontal_spacing(&self) -> (r: Vec<i64>)
        requires
            self.measurable(),
        ensures
            ints(r@) == horizontal_spacing_of(self.members()),
    ;

    /// The most frequent horizontal gap, in whole points.
    fn mode_horizontal_spacing(&self) -> (r: Option<i64>)
        requires
            self.measurable(),
        ensures
            r == stats_mode(rounded_points(horizontal_spacing_of(self.members()))),
            r matches Some(v) ==> occurrences(rounded_points(horizontal_spacing_of(self.members())), v)
                >= 2,
            horizontal_spacing_of(self.members()).len() < 2 ==> r is None,
    ;
}

} // verus!
