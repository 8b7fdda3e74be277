//! Points, edges and the fixed-point matrix and color transform records.
use vstd::prelude::*;

verus! {

/// A position in sub-pixel units (twenty per display pixel).
#[derive(Copy, Clone, Debug, Default, PartialEq, Eq, Hash, Structural)]
pub struct Point {
    pub x: i32,
    pub y: i32,
}

/// Two's complement sum of two coordinates.
pub open spec fn wrap_add(a: i32, b: i32) -> i32 {
    a.wrapping_add(b)
}

/// Two's complement difference of two coordinates.
pub open spec fn wrap_sub(a: i32, b: i32) -> i32 {
    a.wrapping_sub(b)
}

pub open spec fn point_add(p: Point, q: Point) -> Point {
    Point { x: wrap_add(p.x, q.x), y: wrap_add(p.y, q.y) }
}

impl Point {
    pub fn x_y(self) -> (r: (i32, i32))
        ensures
            r == (self.x, self.y),
    {
        (self.x, self.y)
    }

    /// Coordinate-wise sum, wrapping on overflow.
    pub fn add(self, other: Point) -> (r: Point)
        ensures
            r == point_add(self, other),
    {
        Point { x: self.x.wrapping_add(other.x), y: self.y.wrapping_add(other.y) }
    }

    /// Coordinate-wise difference, wrapping on overflow.
    pub fn sub(self, other: Point) -> (r: Point)
        ensures
            r.x == wrap_sub(self.x, other.x),
            r.y == wrap_sub(self.y, other.y),
    {
        Point { x: self.x.wrapping_sub(other.x), y: self.y.wrapping_sub(other.y) }
    }
}

/// A straight segment, or a quadratic curve when it has a control point.
#[derive(Copy, Clone, Debug, PartialEq, Eq, Structural)]
pub struct Line {
    pub from: Point,
    pub bezier_control: Option<Point>,
    pub to: Point,
}

/// The same edge walked the other way; the control point stays.
pub open spec fn flipped(l: Line) -> Line {
    Line { from: l.to, bezier_control: l.bezier_control, to: l.from }
}

impl Line {
    pub fn flip_direction(self) -> (r: Line)
        ensures
            r == flipped(self),
    {
        Line { from: self.to, bezier_control: self.bezier_control, to: self.from }
    }

    /// Applies `f` to both end points and to the control point, if any.
    pub fn map_points<F: Fn(Point) -> Point>(self, f: F) -> (r: Line)
        requires
            forall|p: Point| f.requires((p,)),
        ensures
            f.ensures((self.from,), r.from),
            f.ensures((self.to,), r.to),
            self.bezier_control is None <==> r.bezier_control is None,
            self.bezier_control is Some ==> f.ensures(
                (self.bezier_control->0,),
                r.bezier_control->0,
            ),
    {
        let from = f(self.from);
        let bezier_control = match self.bezier_control {
            Some(c) => Some(f(c)),
            None => None,
        };
        let to = f(self.to);
        Line { from, bezier_control, to }
    }

    /// The edge moved by `offset`.
    pub fn translate(self, offset: Point) -> (r: Line)
        ensures
            r.from == point_add(offset, self.from),
            r.to == point_add(offset, self.to),
            r.bezier_control == match self.bezier_control {
                Some(c) => Some(point_add(offset, c)),
                None => None::<Point>,
            },
    {
        let bezier_control = match self.bezier_control {
            Some(c) => Some(offset.add(c)),
            None => None,
        };
        Line { from: offset.add(self.from), bezier_control, to: offset.add(self.to) }
    }
}

/// A 2x3 affine matrix; scales and skews are signed 16.16 fixed-point
/// numbers given by their raw value, translations are in sub-pixel units.
#[derive(Copy, Clone, Debug, PartialEq, Eq, Hash, Structural)]
pub struct Matrix {
    pub scale_x: i32,
    pub scale_y: i32,
    pub rotate_skew0: i32,
    pub rotate_skew1: i32,
    pub translate_x: i32,
    pub translate_y: i32,
}

/// Raw value of 1.0 in 16.16 fixed point.
pub const FIXED16_ONE: i32 = 65536;

/// Raw value of 1.0 in 8.8 fixed point.
pub const FIXED8_ONE: i16 = 256;

pub open spec fn identity_matrix() -> Matrix {
    Matrix {
        scale_x: FIXED16_ONE,
        scale_y: FIXED16_ONE,
        rotate_skew0: 0,
        rotate_skew1: 0,
        translate_x: 0,
        translate_y: 0,
    }
}

impl Matrix {
    pub fn identity() -> (r: Matrix)
        ensures
            r == identity_matrix(),
    {
        Matrix {
            scale_x: FIXED16_ONE,
            scale_y: FIXED16_ONE,
            rotate_skew0: 0,
            rotate_skew1: 0,
            translate_x: 0,
            translate_y: 0,
        }
    }

    pub fn is_identity(&self) -> (r: bool)
        ensures
            r == (*self == identity_matrix()),
    {
        self.scale_x == FIXED16_ONE && self.scale_y == FIXED16_ONE && self.rotate_skew0 == 0
            && self.rotate_skew1 == 0 && self.translate_x == 0 && self.translate_y == 0
    }
}

/// Per-channel multipliers (signed 8.8 fixed point, raw values) and
/// additions.
#[derive(Copy, Clone, Debug, PartialEq, Eq, Hash, Structural)]
pub struct ColorTransformWithAlpha {
    pub red_mult: i16,
    pub green_mult: i16,
    pub blue_mult: i16,
    pub alpha_mult: i16,
    pub red_add: i16,
    pub green_add: i16,
    pub blue_add: i16,
    pub alpha_add: i16,
}

pub open spec fn identity_color_transform() -> ColorTransformWithAlpha {
    ColorTransformWithAlpha {
        red_mult: FIXED8_ONE,
        green_mult: FIXED8_ONE,
        blue_mult: FIXED8_ONE,
        alpha_mult: FIXED8_ONE,
        red_add: 0,
        green_add: 0,
        blue_add: 0,
        alpha_add: 0,
    }
}

impl ColorTransformWithAlpha {
    pub fn identity() -> (r: ColorTransformWithAlpha)
        ensures
            r == identity_color_transform(),
    {
        ColorTransformWithAlpha {
            red_mult: FIXED8_ONE,
            green_mult: FIXED8_ONE,
            blue_mult: FIXED8_ONE,
            alpha_mult: FIXED8_ONE,
            red_add: 0,
            green_add: 0,
            blue_add: 0,
            alpha_add: 0,
        }
    }

    pub fn is_identity(&self) -> (r: bool)
        ensures
            r == (*self == identity_color_transform()),
    {
        self.red_mult == FIXED8_ONE && self.green_mult == FIXED8_ONE && self.blue_mult
            == FIXED8_ONE && self.alpha_mult == FIXED8_ONE && self.red_add == 0 && self.green_add
            == 0 && self.blue_add == 0 && self.alpha_add == 0
    }
}

} // verus!
