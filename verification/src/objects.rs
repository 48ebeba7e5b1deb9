//! The objects that can be placed on a timeline, and the `Object` trait that
//! makes a type one of them.

use vstd::prelude::*;
use vstd::string::*;
use crate::color::Color;
use crate::geometry::Point;
use crate::shape::{Shape, ShapeView};
use crate::units::{floor_div, div_floor, TICKS_PER_SECOND};

verus! {

/// Something that can be drawn: it renders to a layering key (its z-index) and a shape.
pub trait Object: Send + Sync {
    /// The z-index and the shape that `render` produces.
    spec fn rendered(&self) -> (isize, ShapeView);

    /// Renders the object.
    fn render(&self) -> (r: (isize, Shape))
        ensures
            r.0 == self.rendered().0,
            r.1@ == self.rendered().1,
    ;
}

/// A direction on the screen.
#[derive(Clone, Copy, PartialEq, Eq, Structural, Debug)]
pub enum Direction {
    Left,
    Right,
    Up,
    Down,
}

/// The smallest upright rectangle around something drawn, given by its edges.
#[derive(Clone, Copy, PartialEq, Eq, Structural, Debug)]
pub struct BoundingBox {
    pub left: i32,
    pub top: i32,
    pub right: i32,
    pub bottom: i32,
}

impl BoundingBox {
    /// The distance from the left to the right edge.
    pub open spec fn width(self) -> int {
        self.right - self.left
    }

    /// The distance from the top to the bottom edge.
    pub open spec fn height(self) -> int {
        self.bottom - self.top
    }
}

/// Where something of the given extent starts when its middle lies at `center`.
pub open spec fn centered(center: int, extent: int) -> int {
    center - floor_div(extent, 2)
}

/// Whether a coordinate fits a `Point`.
pub open spec fn fits_coordinate(v: int) -> bool {
    i32::MIN <= v <= i32::MAX
}

fn center_start(center: i32, low: i32, high: i32) -> (r: i32)
    requires
        fits_coordinate(centered(center as int, high - low)),
    ensures
        r == centered(center as int, high - low),
{
    let half: i128 = div_floor(high as i128 - low as i128, 2);
    (center as i128 - half) as i32
}

/// A polygon: the points are joined in order, and the last to the first.
#[derive(Debug, PartialEq, Eq)]
pub struct Polygon {
    /// The corners, in drawing order.
    pub points: Vec<Point>,
    /// The color of the inside.
    pub fill_color: Color,
    /// The color of the outline.
    pub outline_color: Color,
    /// The width of the outline.
    pub stroke_width: u32,
    /// The layering key.
    pub z_index: isize,
}

/// Each point moved by `(dx, dy)`.
pub open spec fn shifted(points: Seq<Point>, dx: int, dy: int) -> Seq<Point> {
    Seq::new(points.len(), |i: int| Point { x: (points[i].x + dx) as i32, y: (points[i].y + dy) as i32 })
}

/// Whether every point can move by `(dx, dy)` and keep coordinates that fit a `Point`.
pub open spec fn shift_fits(points: Seq<Point>, dx: int, dy: int) -> bool {
    forall|i: int|
        0 <= i < points.len() ==> i32::MIN <= #[trigger] points[i].x + dx <= i32::MAX && i32::MIN
            <= points[i].y + dy <= i32::MAX
}

impl Clone for Polygon {
    fn clone(&self) -> (r: Self)
        ensures
            r.points@ == self.points@,
            r.fill_color == self.fill_color,
            r.outline_color == self.outline_color,
            r.stroke_width == self.stroke_width,
            r.z_index == self.z_index,
    {
        Polygon {
            points: self.points.clone(),
            fill_color: self.fill_color,
            outline_color: self.outline_color,
            stroke_width: self.stroke_width,
            z_index: self.z_index,
        }
    }
}

impl Default for Polygon {
    /// A polygon without points, white with a grey outline ten pixels wide.
    fn default() -> (r: Self)
        ensures
            r.points@ == Seq::<Point>::empty(),
            r.fill_color == Color(255, 255, 255, 255),
            r.outline_color == Color(100, 100, 100, 255),
            r.stroke_width == 10_000,
            r.z_index == 0,
    {
        Polygon {
            points: Vec::new(),
            fill_color: Color::rgb(255, 255, 255),
            outline_color: Color::rgb(100, 100, 100),
            stroke_width: 10_000,
            z_index: 0,
        }
    }
}

impl Polygon {
    /// A polygon through the given points, with the default colors and outline.
    pub fn new(points: Vec<Point>) -> (r: Self)
        ensures
            r.points == points,
            r.fill_color == Color(255, 255, 255, 255),
            r.outline_color == Color(100, 100, 100, 255),
            r.stroke_width == 10_000,
            r.z_index == 0,
    {
        Polygon {
            points,
            fill_color: Color::rgb(255, 255, 255),
            outline_color: Color::rgb(100, 100, 100),
            stroke_width: 10_000,
            z_index: 0,
        }
    }

    /// Sets the layering key.
    pub fn z_index(self, z_index: isize) -> (r: Self)
        ensures
            r == (Polygon { z_index, ..self }),
    {
        Polygon { z_index, ..self }
    }

    /// Adds a corner after the last one.
    pub fn add_point(self, x: i32, y: i32) -> (r: Self)
        ensures
            r.points@ == self.points@.push(Point { x, y }),
            r.fill_color == self.fill_color,
            r.outline_color == self.outline_color,
            r.stroke_width == self.stroke_width,
            r.z_index == self.z_index,
    {
        let mut polygon = self;
        polygon.points.push(Point { x, y });
        polygon
    }

    /// Moves every corner by `(x, y)`.
    pub fn shift(self, x: i32, y: i32) -> (r: Self)
        requires
            shift_fits(self.points@, x as int, y as int),
        ensures
            r.points@ == shifted(self.points@, x as int, y as int),
            r.fill_color == self.fill_color,
            r.outline_color == self.outline_color,
            r.stroke_width == self.stroke_width,
            r.z_index == self.z_index,
    {
        let mut moved: Vec<Point> = Vec::with_capacity(self.points.len());
        let mut i: usize = 0;
        while i < self.points.len()
            invariant
                i <= self.points.len(),
                shift_fits(self.points@, x as int, y as int),
                moved@ == shifted(self.points@, x as int, y as int).take(i as int),
            decreases self.points.len() - i,
        {
            let p = self.points[i];
            assert(i32::MIN <= self.points@[i as int].x + x <= i32::MAX);
            moved.push(Point { x: p.x + x, y: p.y + y });
            assert(moved@ =~= shifted(self.points@, x as int, y as int).take(i + 1));
            i += 1;
        }
        assert(moved@ =~= shifted(self.points@, x as int, y as int));
        Polygon {
            points: moved,
            fill_color: self.fill_color,
            outline_color: self.outline_color,
            stroke_width: self.stroke_width,
            z_index: self.z_index,
        }
    }

    /// Sets the color of the inside.
    pub fn fill(self, color: Color) -> (r: Self)
        ensures
            r == (Polygon { fill_color: color, ..self }),
    {
        Polygon { fill_color: color, ..self }
    }

    /// Sets the color of the outline.
    pub fn outline(self, color: Color) -> (r: Self)
        ensures
            r == (Polygon { outline_color: color, ..self }),
    {
        Polygon { outline_color: color, ..self }
    }
}

impl Object for Polygon {
    open spec fn rendered(&self) -> (isize, ShapeView) {
        (
            self.z_index,
            ShapeView::Polygon {
                points: self.points@,
                fill: self.fill_color,
                outline: self.outline_color,
                stroke_width: self.stroke_width,
            },
        )
    }

    fn render(&self) -> (r: (isize, Shape)) {
        (
            self.z_index,
            Shape::Polygon {
                points: self.points.clone(),
                fill: self.fill_color,
                outline: self.outline_color,
                stroke_width: self.stroke_width,
            },
        )
    }
}

/// A line of text.
#[derive(Debug, PartialEq, Eq)]
pub struct Text {
    /// The characters to show.
    pub text: String,
    /// The horizontal position of the anchor.
    pub x: i32,
    /// The vertical position of the anchor.
    pub y: i32,
    /// The height of the font.
    pub font_size: u32,
    /// The color of the glyphs.
    pub color: Color,
    /// Which part of the text lies at the anchor position: `start`, `middle` or `end`.
    pub anchor: String,
    /// The layering key.
    pub z_index: isize,
}

/// The time in ticks that typing `bytes` bytes takes at `wpm` words per minute,
/// a word counted as five bytes; rounded down.
pub open spec fn typing_time(bytes: int, wpm: int) -> int {
    floor_div(bytes * 12 * TICKS_PER_SECOND, wpm)
}

impl Clone for Text {
    fn clone(&self) -> (r: Self)
        ensures
            r == *self,
    {
        Text {
            text: self.text.clone(),
            x: self.x,
            y: self.y,
            font_size: self.font_size,
            color: self.color,
            anchor: self.anchor.clone(),
            z_index: self.z_index,
        }
    }
}

impl Text {
    /// White text of height one hundred pixels, anchored by its middle at the origin.
    pub fn new(text: &str) -> (r: Self)
        ensures
            r.text@ == text@,
            r.x == 0,
            r.y == 0,
            r.font_size == 100_000,
            r.color == Color(255, 255, 255, 255),
            r.anchor@ == "middle"@,
            r.z_index == 0,
    {
        Text {
            text: text.to_owned(),
            x: 0,
            y: 0,
            font_size: 100_000,
            color: Color::rgb(255, 255, 255),
            anchor: "middle".to_owned(),
            z_index: 0,
        }
    }

    /// Sets the layering key.
    pub fn z_index(self, z_index: isize) -> (r: Self)
        ensures
            r == (Text { z_index, ..self }),
    {
        Text { z_index, ..self }
    }

    /// Sets which part of the text lies at the anchor position.
    pub fn anchor(self, anchor: &str) -> (r: Self)
        ensures
            r.anchor@ == anchor@,
            r == (Text { anchor: r.anchor, ..self }),
    {
        Text { anchor: anchor.to_owned(), ..self }
    }

    /// Sets the anchor position.
    pub fn at(self, x: i32, y: i32) -> (r: Self)
        ensures
            r == (Text { x, y, ..self }),
    {
        Text { x, y, ..self }
    }

    /// Sets the height of the font.
    pub fn size(self, font_size: u32) -> (r: Self)
        ensures
            r == (Text { font_size, ..self }),
    {
        Text { font_size, ..self }
    }

    /// Sets the color of the glyphs.
    pub fn color(self, color: Color) -> (r: Self)
        ensures
            r == (Text { color, ..self }),
    {
        Text { color, ..self }
    }

    /// Moves the anchor to the side of another text: to the named edge of `bounds`,
    /// the box around `other`, keeping `other`'s position along that edge.
    pub fn besides(self, other: &Text, bounds: &BoundingBox, dir: Direction) -> (r: Self)
        ensures
            r == match dir {
                Direction::Left => Text { x: bounds.left, y: other.y, ..self },
                Direction::Right => Text { x: bounds.right, y: other.y, ..self },
                Direction::Up => Text { x: other.x, y: bounds.top, ..self },
                Direction::Down => Text { x: other.x, y: bounds.bottom, ..self },
            },
    {
        match dir {
            Direction::Left => Text { x: bounds.left, y: other.y, ..self },
            Direction::Right => Text { x: bounds.right, y: other.y, ..self },
            Direction::Up => Text { x: other.x, y: bounds.top, ..self },
            Direction::Down => Text { x: other.x, y: bounds.bottom, ..self },
        }
    }

    /// Moves the anchor by `(x, y)`.
    pub fn shift(self, x: i32, y: i32) -> (r: Self)
        requires
            fits_coordinate(self.x + x),
            fits_coordinate(self.y + y),
        ensures
            r == (Text { x: (self.x + x) as i32, y: (self.y + y) as i32, ..self }),
    {
        Text { x: self.x + x, y: self.y + y, ..self }
    }

    /// The number of bytes that the text takes in UTF-8.
    pub open spec fn byte_len(&self) -> int {
        vstd::utf8::encode_utf8(self.text@).len() as int
    }

    /// The time in ticks that typing the text takes at `wpm` words per minute, or
    /// `None` where the speed is zero or the time does not fit the result.
    pub fn wpm(&self, wpm: u32) -> (r: Option<i64>)
        ensures
            r == if wpm > 0 && typing_time(self.byte_len(), wpm as int) <= i64::MAX {
                Some(typing_time(self.byte_len(), wpm as int) as i64)
            } else {
                None
            },
    {
        if wpm == 0 {
            return None;
        }
        let bytes: usize = self.text.as_str().as_bytes().len();
        assert(0 <= bytes * 12_000_000 <= 0x1_0000_0000_0000_0000 * 12_000_000) by (nonlinear_arith)
            requires
                0 <= bytes <= 0x1_0000_0000_0000_0000,
        ;
        let scaled: i128 = bytes as i128 * 12_000_000;
        assert(scaled == self.byte_len() * 12 * TICKS_PER_SECOND) by (nonlinear_arith)
            requires
                scaled == bytes * 12_000_000,
                bytes == self.byte_len(),
                TICKS_PER_SECOND == 1_000_000,
        ;
        let ticks: i128 = div_floor(scaled, wpm as i128);
        if ticks > i64::MAX as i128 {
            None
        } else {
            proof {
                vstd::arithmetic::div_mod::lemma_div_pos_is_pos(scaled as int, wpm as int);
            }
            Some(ticks as i64)
        }
    }
}

impl Object for Text {
    open spec fn rendered(&self) -> (isize, ShapeView) {
        (
            self.z_index,
            ShapeView::Text {
                text: self.text@,
                x: self.x,
                y: self.y,
                font_size: self.font_size,
                color: self.color,
                anchor: self.anchor@,
            },
        )
    }

    fn render(&self) -> (r: (isize, Shape)) {
        (
            self.z_index,
            Shape::Text {
                text: self.text.clone(),
                x: self.x,
                y: self.y,
                font_size: self.font_size,
                color: self.color,
                anchor: self.anchor.clone(),
            },
        )
    }
}

/// Vector markup that is drawn as it is.
#[derive(Debug, PartialEq, Eq)]
pub struct RawSvg(String);

impl RawSvg {
    /// An object that draws the given markup.
    pub fn new(svg: &str) -> (r: Self)
        ensures
            r.markup() == svg@,
    {
        RawSvg(svg.to_owned())
    }

    /// The markup that this object draws.
    pub closed spec fn markup(&self) -> Seq<char> {
        self.0@
    }
}

impl Object for RawSvg {
    open spec fn rendered(&self) -> (isize, ShapeView) {
        (0, ShapeView::Raw { markup: self.markup() })
    }

    fn render(&self) -> (r: (isize, Shape)) {
        (0, Shape::Raw { markup: self.0.clone() })
    }
}

/// A typeset formula.
#[derive(Debug, PartialEq, Eq)]
pub struct Math {
    /// The source text of the formula.
    pub text: String,
    /// The color of the formula.
    pub color: Color,
    /// The factor by which the typeset formula is scaled, in thousandths.
    pub size: u32,
    /// The horizontal position of the left edge.
    pub x: i32,
    /// The vertical position of the top edge.
    pub y: i32,
    /// The layering key.
    pub z_index: isize,
}

impl Clone for Math {
    fn clone(&self) -> (r: Self)
        ensures
            r == *self,
    {
        Math {
            text: self.text.clone(),
            color: self.color,
            size: self.size,
            x: self.x,
            y: self.y,
            z_index: self.z_index,
        }
    }
}

impl Math {
    /// A white formula at ten times its typeset size, centered on the origin.
    /// `bounds` is the box around the formula when drawn at that size.
    pub fn new(text: &str, bounds: &BoundingBox) -> (r: Self)
        requires
            fits_coordinate(centered(0, bounds.width())),
            fits_coordinate(centered(0, bounds.height())),
        ensures
            r.text@ == text@,
            r.color == Color(255, 255, 255, 255),
            r.size == 10_000,
            r.x == centered(0, bounds.width()),
            r.y == centered(0, bounds.height()),
            r.z_index == 0,
    {
        Math {
            text: text.to_owned(),
            color: Color::rgb(255, 255, 255),
            size: 10_000,
            x: 0,
            y: 0,
            z_index: 0,
        }.center_on(0, 0, bounds)
    }

    /// Sets the position of the top left corner.
    pub fn at(self, x: i32, y: i32) -> (r: Self)
        ensures
            r == (Math { x, y, ..self }),
    {
        Math { x, y, ..self }
    }

    /// Sets the scaling factor.
    pub fn size(self, size: u32) -> (r: Self)
        ensures
            r == (Math { size, ..self }),
    {
        Math { size, ..self }
    }

    /// Sets the color.
    pub fn color(self, color: Color) -> (r: Self)
        ensures
            r == (Math { color, ..self }),
    {
        Math { color, ..self }
    }

    /// Sets the layering key.
    pub fn z_index(self, z_index: isize) -> (r: Self)
        ensures
            r == (Math { z_index, ..self }),
    {
        Math { z_index, ..self }
    }

    /// Moves the formula so that the middle of `bounds`, the box around it as drawn,
    /// comes to lie at `(x, y)`.
    pub fn center_on(self, x: i32, y: i32, bounds: &BoundingBox) -> (r: Self)
        requires
            fits_coordinate(centered(x as int, bounds.width())),
            fits_coordinate(centered(y as int, bounds.height())),
        ensures
            r == (Math {
                x: centered(x as int, bounds.width()) as i32,
                y: centered(y as int, bounds.height()) as i32,
                ..self
            }),
    {
        Math {
            x: center_start(x, bounds.left, bounds.right),
            y: center_start(y, bounds.top, bounds.bottom),
            ..self
        }
    }
}

impl Object for Math {
    open spec fn rendered(&self) -> (isize, ShapeView) {
        (
            self.z_index,
            ShapeView::Formula {
                text: self.text@,
                color: self.color,
                size: self.size,
                x: self.x,
                y: self.y,
            },
        )
    }

    fn render(&self) -> (r: (isize, Shape)) {
        (
            self.z_index,
            Shape::Formula {
                text: self.text.clone(),
                color: self.color,
                size: self.size,
                x: self.x,
                y: self.y,
            },
        )
    }
}

} // verus!
