//! The visual states that objects and animations produce.
//!
//! A `Shape` is a plain description of something to draw; a `Visual` is a shape
//! with an opacity. Turning either into pixels is left to the caller.

use vstd::prelude::*;
use crate::color::Color;
use crate::geometry::Point;

verus! {

/// One drawing command of an outline path.
#[derive(Clone, Copy, PartialEq, Eq, Structural, Debug)]
pub enum PathSegment {
    /// Start a new contour at the point.
    MoveTo(Point),
    /// A straight line to the point.
    LineTo(Point),
    /// A quadratic curve: control point, end point.
    QuadTo(Point, Point),
    /// A cubic curve: two control points, end point.
    CubicTo(Point, Point, Point),
    /// Close the current contour.
    Close,
}

/// A description of something to draw.
#[derive(Debug, PartialEq, Eq)]
pub enum Shape {
    /// Nothing at all.
    Empty,
    /// A closed, filled polygon.
    Polygon { points: Vec<Point>, fill: Color, outline: Color, stroke_width: u32 },
    /// An open line through the points, without fill.
    Polyline { points: Vec<Point>, outline: Color, stroke_width: u32 },
    /// A line of text anchored at a point.
    Text { text: String, x: i32, y: i32, font_size: u32, color: Color, anchor: String },
    /// A filled outline path.
    Path { segments: Vec<PathSegment>, fill: Color, stroke_width: u32 },
    /// Vector markup taken as it is.
    Raw { markup: String },
    /// A typeset formula, scaled and moved to a point.
    Formula { text: String, color: Color, size: u32, x: i32, y: i32 },
}

/// The mathematical value of a `Shape`.
pub enum ShapeView {
    Empty,
    Polygon { points: Seq<Point>, fill: Color, outline: Color, stroke_width: u32 },
    Polyline { points: Seq<Point>, outline: Color, stroke_width: u32 },
    Text { text: Seq<char>, x: i32, y: i32, font_size: u32, color: Color, anchor: Seq<char> },
    Path { segments: Seq<PathSegment>, fill: Color, stroke_width: u32 },
    Raw { markup: Seq<char> },
    Formula { text: Seq<char>, color: Color, size: u32, x: i32, y: i32 },
}

impl View for Shape {
    type V = ShapeView;

    open spec fn view(&self) -> ShapeView {
        match self {
            Shape::Empty => ShapeView::Empty,
            Shape::Polygon { points, fill, outline, stroke_width } => ShapeView::Polygon {
                points: points@,
                fill: *fill,
                outline: *outline,
                stroke_width: *stroke_width,
            },
            Shape::Polyline { points, outline, stroke_width } => ShapeView::Polyline {
                points: points@,
                outline: *outline,
                stroke_width: *stroke_width,
            },
            Shape::Text { text, x, y, font_size, color, anchor } => ShapeView::Text {
                text: text@,
                x: *x,
                y: *y,
                font_size: *font_size,
                color: *color,
                anchor: anchor@,
            },
            Shape::Path { segments, fill, stroke_width } => ShapeView::Path {
                segments: segments@,
                fill: *fill,
                stroke_width: *stroke_width,
            },
            Shape::Raw { markup } => ShapeView::Raw { markup: markup@ },
            Shape::Formula { text, color, size, x, y } => ShapeView::Formula {
                text: text@,
                color: *color,
                size: *size,
                x: *x,
                y: *y,
            },
        }
    }
}

impl Clone for Shape {
    fn clone(&self) -> (r: Self)
        ensures
            r@ == self@,
    {
        match self {
            Shape::Empty => Shape::Empty,
            Shape::Polygon { points, fill, outline, stroke_width } => Shape::Polygon {
                points: points.clone(),
                fill: *fill,
                outline: *outline,
                stroke_width: *stroke_width,
            },
            Shape::Polyline { points, outline, stroke_width } => Shape::Polyline {
                points: points.clone(),
                outline: *outline,
                stroke_width: *stroke_width,
            },
            Shape::Text { text, x, y, font_size, color, anchor } => Shape::Text {
                text: text.clone(),
                x: *x,
                y: *y,
                font_size: *font_size,
                color: *color,
                anchor: anchor.clone(),
            },
            Shape::Path { segments, fill, stroke_width } => Shape::Path {
                segments: segments.clone(),
                fill: *fill,
                stroke_width: *stroke_width,
            },
            Shape::Raw { markup } => Shape::Raw { markup: markup.clone() },
            Shape::Formula { text, color, size, x, y } => Shape::Formula {
                text: text.clone(),
                color: *color,
                size: *size,
                x: *x,
                y: *y,
            },
        }
    }
}

/// A shape together with its opacity, from `0` (invisible) to `FULL` (opaque).
#[derive(Debug, PartialEq, Eq)]
pub struct Visual {
    pub shape: Shape,
    pub opacity: u32,
}

/// The mathematical value of a `Visual`.
pub struct VisualView {
    pub shape: ShapeView,
    pub opacity: u32,
}

impl View for Visual {
    type V = VisualView;

    open spec fn view(&self) -> VisualView {
        VisualView { shape: self.shape@, opacity: self.opacity }
    }
}

impl Clone for Visual {
    fn clone(&self) -> (r: Self)
        ensures
            r@ == self@,
    {
        Visual { shape: self.shape.clone(), opacity: self.opacity }
    }
}

} // verus!
