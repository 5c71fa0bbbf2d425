//! Shape, style and spacing of any ordered set of objects, from the
//! capabilities of its members.

use vstd::prelude::*;
use crate::frame::{
    bases, frames_base, frames_height, frames_width, height_of, in_range, ints, min_of, width_of,
    Outline,
};
use crate::spacing::{
    frames_horizontal_spacing, frames_vertical_spacing, horizontal_spacing_of, occurrences,
    rounded_points, spacing_mode, stats_mode, vertical_spacing_of,
};
use crate::style::{common_flag, common_size, mean_of, mean_size, unanimous};
use crate::traits::{
    all_measurable, frames_of, outlines, Alignement, Coordinates, Shape, Spacing, Style,
};

verus! {

/// The font sizes of a sequence of objects, in order.
pub open spec fn font_sizes<T: Style>(objects: Seq<&T>) -> Seq<Option<u64>> {
    Seq::new(objects.len(), |i: int| objects[i].font_size_spec())
}

/// The bold flags of a sequence of objects, in order.
pub open spec fn bold_flags<T: Style>(objects: Seq<&T>) -> Seq<Option<bool>> {
    Seq::new(objects.len(), |i: int| objects[i].bold_spec())
}

/// The italic flags of a sequence of objects, in order.
pub open spec fn italic_flags<T: Style>(objects: Seq<&T>) -> Seq<Option<bool>> {
    Seq::new(objects.len(), |i: int| objects[i].italic_spec())
}

/// The x of a set of objects: that of its first member, 0 for the empty set.
pub open spec fn anchor_x<T: Coordinates>(objects: Seq<&T>) -> int {
    if objects.len() > 0 { objects[0].x_spec() } else { 0 }
}

/// The y of a set of objects: that of its first member, 0 for the empty set.
pub open spec fn anchor_y<T: Coordinates>(objects: Seq<&T>) -> int {
    if objects.len() > 0 { objects[0].y_spec() } else { 0 }
}

/// The x of a set of objects.
pub fn set_x<T: Coordinates + Shape>(objects: &Vec<&T>) -> (r: i64)
    requires
        all_measurable(objects@),
    ensures
        r == anchor_x(objects@),
        in_range(r as int),
{
    if objects.len() > 0 {
        assert(objects@[0].placed());
        objects[0].x()
    } else {
        0
    }
}

/// The y of a set of objects.
pub fn set_y<T: Coordinates + Shape>(objects: &Vec<&T>) -> (r: i64)
    requires
        all_measurable(objects@),
    ensures
        r == anchor_y(objects@),
        in_range(r as int),
{
    if objects.len() > 0 {
        assert(objects@[0].placed());
        objects[0].y()
    } else {
        0
    }
}

/// The baseline of a set of objects: the smallest of its members, 0 for the
/// empty set.
pub fn set_base<T: Coordinates + Shape>(objects: &Vec<&T>) -> (r: i64)
    requires
        all_measurable(objects@),
    ensures
        r == min_of(bases(outlines(objects@))),
        in_range(r as int),
{
    let frames = frames_of(objects);
    frames_base(&frames)
}

/// Width of the bounding box of a set of objects.
pub fn set_width<T: Coordinates + Shape>(objects: &Vec<&T>) -> (r: i64)
    requires
        all_measurable(objects@),
    ensures
        r == width_of(outlines(objects@)),
{
    let frames = frames_of(objects);
    frames_width(&frames)
}

/// Height of the bounding box of a set of objects.
pub fn set_height<T: Coordinates + Shape>(objects: &Vec<&T>) -> (r: i64)
    requires
        all_measurable(objects@),
    ensures
        r == height_of(outlines(objects@)),
{
    let frames = frames_of(objects);
    frames_height(&frames)
}

fn read_font_sizes<T: Style>(objects: &Vec<&T>) -> (r: Vec<Option<u64>>)
    ensures
        r@ == font_sizes(objects@),
{
    let mut values: Vec<Option<u64>> = Vec::new();
    let mut i: usize = 0;
    while i < objects.len()
        invariant
            i <= objects.len(),
            values.len() == i,
            forall|j: int| 0 <= j < i ==> #[trigger] values[j] == objects[j].font_size_spec(),
        decreases objects.len() - i,
    {
        values.push(objects[i].font_size());
        i += 1;
    }
    proof {
        assert(values@ =~= font_sizes(objects@));
    }
    values
}

/// The font size that every member of the set has.
pub fn set_font_size<T: Style>(objects: &Vec<&T>) -> (r: Option<u64>)
    ensures
        r == unanimous(font_sizes(objects@)),
{
    let values = read_font_sizes(objects);
    common_size(&values)
}

/// The mean font size of the set, if that of every member is known.
pub fn set_avg_font_size<T: Style>(objects: &Vec<&T>) -> (r: Option<u64>)
    ensures
        r == mean_of(font_sizes(objects@)),
{
    let values = read_font_sizes(objects);
    mean_size(&values)
}

/// Whether every member of the set is bold, or every member is not.
pub fn set_bold<T: Style>(objects: &Vec<&T>) -> (r: Option<bool>)
    ensures
        r == unanimous(bold_flags(objects@)),
{
    let mut values: Vec<Option<bool>> = Vec::new();
    let mut i: usize = 0;
    while i < objects.len()
        invariant
            i <= objects.len(),
            values.len() == i,
            forall|j: int| 0 <= j < i ==> #[trigger] values[j] == objects[j].bold_spec(),
        decreases objects.len() - i,
    {
        values.push(objects[i].bold());
        i += 1;
    }
    proof {
        assert(values@ =~= bold_flags(objects@));
    }
    common_flag(&values)
}

/// Whether every member of the set is italic, or every member is not.
pub fn set_italic<T: Style>(objects: &Vec<&T>) -> (r: Option<bool>)
    ensures
        r == unanimous(italic_flags(objects@)),
{
    let mut values: Vec<Option<bool>> = Vec::new();
    let mut i: usize = 0;
    while i < objects.len()
        invariant
            i <= objects.len(),
            values.len() == i,
            forall|j: int| 0 <= j < i ==> #[trigger] values[j] == objects[j].italic_spec(),
        decreases objects.len() - i,
    {
        values.push(objects[i].italic());
        i += 1;
    }
    proof {
        assert(values@ =~= italic_flags(objects@));
    }
    common_flag(&values)
}

/// The vertical spacing of an ordered set of objects.
pub fn set_vertical_spacing<T: Coordinates + Shape>(objects: &Vec<&T>) -> (r: Vec<i64>)
    requires
        all_measurable(objects@),
    ensures
        ints(r@) == vertical_spacing_of(outlines(objects@)),
{
    let frames = frames_of(objects);
    frames_vertical_spacing(&frames)
}

/// The horizontal spacing of an ordered set of objects.
pub fn set_horizontal_spacing<T: Coordinates + Shape>(objects: &Vec<&T>) -> (r: Vec<i64>)
    requires
        all_measurable(objects@),
    ensures
        ints(r@) == horizontal_spacing_of(outlines(objects@)),
{
    let frames = frames_of(objects);
    frames_horizontal_spacing(&frames)
}

/// The most frequent vertical gap of an ordered set, in whole points.
pub fn set_mode_vertical_spacing<T: Coordinates + Shape>(objects: &Vec<&T>) -> (r: Option<i64>)
    requires
        all_measurable(objects@),
    ensures
        r == stats_mode(rounded_points(vertical_spacing_of(outlines(objects@)))),
        r matches Some(v) ==> occurrences(rounded_points(vertical_spacing_of(outlines(objects@))), v)
            >= 2,
        vertical_spacing_of(outlines(objects@)).len() < 2 ==> r is None,
{
    let spacing = set_vertical_spacing(objects);
    spacing_mode(&spacing)
}

/// The most frequent horizontal gap of an ordered set, in whole points.
pub fn set_mode_horizontal_spacing<T: Coordinates + Shape>(objects: &Vec<&T>) -> (r: Option<i64>)
    requires
        all_measurable(objects@),
    ensures
        r == stats_mode(rounded_points(horizontal_spacing_of(outlines(objects@)))),
        r matches Some(v) ==> occurrences(rounded_points(horizontal_spacing_of(outlines(objects@))), v)
            >= 2,
        horizontal_spacing_of(outlines(objects@)).len() < 2 ==> r is None,
{
    let spacing = set_horizontal_spacing(objects);
    spacing_mode(&spacing)
}

/// A vector of borrowed objects stands where its first member stands, on the
/// smallest baseline of its members.
impl<'a, T: Coordinates + Shape> Coordinates for Vec<&'a T> {
    open spec fn placed(&self) -> bool {
        all_measurable(self@)
    }

    open spec fn x_spec(&self) -> int {
        anchor_x(self@)
    }

    open spec fn y_spec(&self) -> int {
        anchor_y(self@)
    }

    open spec fn base_spec(&self) -> int {
        min_of(bases(outlines(self@)))
    }

    fn x(&self) -> (r: i64) {
        set_x(self)
    }

    fn y(&self) -> (r: i64) {
        set_y(self)
    }

    fn base(&self) -> (r: i64) {
        set_base(self)
    }
}

impl<'a, T: Coordinates + Shape> Alignement for Vec<&'a T> {

}

/// A vector of borrowed objects has the shape of its bounding box. It can be
/// measured if its members can and the box is within the coordinate limit.
impl<'a, T: Coordinates + Shape> Shape for Vec<&'a T> {
    open spec fn sized(&self) -> bool {
        &&& all_measurable(self@)
        &&& in_range(width_of(outlines(self@)))
        &&& in_range(height_of(outlines(self@)))
    }

    open spec fn width_spec(&self) -> int {
        width_of(outlines(self@))
    }

    open spec fn height_spec(&self) -> int {
        height_of(outlines(self@))
    }

    open spec fn rotation_spec(&self) -> Option<i64> {
        None
    }

    open spec fn angle_spec(&self) -> Option<i64> {
        None
    }

    fn width(&self) -> (r: i64) {
        set_width(self)
    }

    fn height(&self) -> (r: i64) {
        set_height(self)
    }

    fn rotation(&self) -> (r: Option<i64>) {
        None
    }

    fn angle(&self) -> (r: Option<i64>) {
        None
    }
}

/// A vector of borrowed objects has the style on which its members agree.
impl<'a, T: Style> Style for Vec<&'a T> {
    open spec fn font_size_spec(&self) -> Option<u64> {
        unanimous(font_sizes(self@))
    }

    open spec fn avg_font_size_spec(&self) -> Option<u64> {
        mean_of(font_sizes(self@))
    }

    open spec fn font_color_spec(&self) -> Option<Seq<char>> {
        None
    }

    open spec fn bold_spec(&self) -> Option<bool> {
        unanimous(bold_flags(self@))
    }

    open spec fn italic_spec(&self) -> Option<bool> {
        unanimous(italic_flags(self@))
    }

    fn font_size(&self) -> (r: Option<u64>) {
        set_font_size(self)
    }

    fn avg_font_size(&self) -> (r: Option<u64>) {
        set_avg_font_size(self)
    }

    fn font_color(&self) -> (r: Option<String>) {
        None
    }

    fn bold(&self) -> (r: Option<bool>) {
        set_bold(self)
    }

    fn italic(&self) -> (r: Option<bool>) {
        set_italic(self)
    }
}

/// A vector of borrowed objects has the spacing of its members in order.
impl<'a, T: Coordinates + Shape> Spacing for Vec<&'a T> {
    open spec fn measurable(&self) -> bool {
        all_measurable(self@)
    }

    open spec fn members(&self) -> Seq<Outline> {
        outlines(self@)
    }

    fn vertical_spacing(&self) -> (r: Vec<i64>) {
        set_vertical_spacing(self)
    }

    fn mode_vertical_spacing(&self) -> (r: Option<i64>) {
        set_mode_vertical_spacing(self)
    }

    fn horizontal_spacing(&self) -> (r: Vec<i64>) {
        set_horizontal_spacing(self)
    }

    fn mode_horizontal_spacing(&self) -> (r: Option<i64>) {
        set_mode_horizontal_spacing(self)
    }
}

} // verus!
