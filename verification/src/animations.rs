//! Animations: evaluators from progress to a visual state, and the time windows
//! in which they run.

use vstd::prelude::*;
use vstd::string::*;
use crate::color::{blend, lemma_blend_endpoints, Color};
use crate::correspondence::{
    between, blended, lemma_blended_endpoints, morph_points, paired, PointCorrespondence,
};
use crate::error::Error;
use crate::geometry::Point;
use crate::objects::{Object, Polygon, Text};
use crate::shape::{PathSegment, Shape, ShapeView, Visual, VisualView};
use crate::units::{
    clamp, div_floor, floor_div, interpolate, lemma_lerp_bounds, lerp, portion, share, share_rest,
    FULL, TICKS_PER_SECOND,
};

verus! {

/// An evaluator: for a progress from `0` to `FULL` it gives a z-index and a visual state.
pub trait Animation: Send + Sync {
    /// The z-index and the visual state at the given progress.
    spec fn frame(&self, progress: int) -> (isize, VisualView);

    /// Evaluates the animation.
    fn animate(&self, progress: u32) -> (r: (isize, Visual))
        requires
            progress <= FULL,
        ensures
            r.0 == self.frame(progress as int).0,
            r.1@ == self.frame(progress as int).1,
    ;
}

/// An animation that shows nothing, for objects that appear without ado.
#[derive(Debug, PartialEq, Eq)]
pub struct NoAnimation;

impl Animation for NoAnimation {
    open spec fn frame(&self, progress: int) -> (isize, VisualView) {
        (0, VisualView { shape: ShapeView::Empty, opacity: FULL })
    }

    fn animate(&self, progress: u32) -> (r: (isize, Visual)) {
        (0, Visual { shape: Shape::Empty, opacity: FULL })
    }
}

/// An animation that fades an object in: its opacity is the progress.
#[derive(Debug, PartialEq, Eq)]
pub struct FadeAnimation(isize, Shape);

impl FadeAnimation {
    /// The z-index and the shape of the object that fades in.
    pub closed spec fn subject(&self) -> (isize, ShapeView) {
        (self.0, self.1@)
    }

    /// A fade of the given object, rendered once, now.
    pub fn new<O: Object>(object: &O) -> (r: Self)
        ensures
            r.subject() == object.rendered(),
    {
        let (z, shape) = object.render();
        FadeAnimation(z, shape)
    }
}

impl Animation for FadeAnimation {
    open spec fn frame(&self, progress: int) -> (isize, VisualView) {
        (self.subject().0, VisualView { shape: self.subject().1, opacity: progress as u32 })
    }

    fn animate(&self, progress: u32) -> (r: (isize, Visual)) {
        (self.0, Visual { shape: self.1.clone(), opacity: progress })
    }
}

/// An animation that draws the outline of a polygon, from its first point round
/// to the first again.
#[derive(Debug, PartialEq, Eq)]
pub struct PolygonDraw(pub Polygon);

/// The outline of a polygon as far as it is drawn at progress `p`: the points
/// whose edges are complete, the next point, and a point on the edge under way.
pub open spec fn drawn_outline(points: Seq<Point>, p: int) -> Seq<Point> {
    let k = points.len() as int;
    let done = share(k, p);
    points.take(done + 1).push(
        between(points[done], points[(done + 1) % k], share_rest(k, p)),
    )
}

impl Animation for PolygonDraw {
    open spec fn frame(&self, progress: int) -> (isize, VisualView) {
        if share(self.0.points@.len() as int, progress) == self.0.points@.len() {
            (self.0.z_index, VisualView { shape: self.0.rendered().1, opacity: FULL })
        } else {
            (
                self.0.z_index,
                VisualView {
                    shape: ShapeView::Polyline {
                        points: drawn_outline(self.0.points@, progress),
                        outline: self.0.outline_color,
                        stroke_width: self.0.stroke_width,
                    },
                    opacity: FULL,
                },
            )
        }
    }

    fn animate(&self, progress: u32) -> (r: (isize, Visual)) {
        let polygon = &self.0;
        let k: usize = polygon.points.len();
        let part = portion(k, progress);
        let done: usize = part.0;
        if done == k {
            let rendered = polygon.render();
            return (rendered.0, Visual { shape: rendered.1, opacity: FULL });
        }
        let mut points: Vec<Point> = Vec::new();
        let mut i: usize = 0;
        while i <= done
            invariant
                done < k,
                k == polygon.points@.len(),
                i <= done + 1,
                points@ == polygon.points@.take(i as int),
            decreases done + 1 - i,
        {
            points.push(polygon.points[i]);
            assert(points@ =~= polygon.points@.take(i + 1));
            i += 1;
        }
        let start: Point = polygon.points[done];
        let end: Point = polygon.points[(done + 1) % k];
        proof {
            lemma_lerp_bounds(start.x as int, end.x as int, part.1 as int);
            lemma_lerp_bounds(start.y as int, end.y as int, part.1 as int);
        }
        let x: i64 = interpolate(start.x as i64, end.x as i64, part.1);
        let y: i64 = interpolate(start.y as i64, end.y as i64, part.1);
        points.push(Point { x: x as i32, y: y as i32 });
        (
            polygon.z_index,
            Visual {
                shape: Shape::Polyline {
                    points,
                    outline: polygon.outline_color,
                    stroke_width: polygon.stroke_width,
                },
                opacity: FULL,
            },
        )
    }
}

/// An animation that turns one polygon into another.
#[derive(Debug, PartialEq, Eq)]
pub struct PolygonMorph {
    start_polygon: Polygon,
    end_polygon: Polygon,
    start_points: Vec<Point>,
    end_points: Vec<Point>,
}

impl PolygonMorph {
    /// The polygon at which the morph starts.
    pub closed spec fn start_polygon(&self) -> Polygon {
        self.start_polygon
    }

    /// The polygon at which the morph ends.
    pub closed spec fn end_polygon(&self) -> Polygon {
        self.end_polygon
    }

    /// The points at which the morph starts: those of the start polygon, with
    /// further points on its edges where it has fewer points than the end polygon.
    pub closed spec fn start_points(&self) -> Seq<Point> {
        self.start_points@
    }

    /// The points at which the morph ends, each the partner of the start point
    /// at the same position.
    pub closed spec fn end_points(&self) -> Seq<Point> {
        self.end_points@
    }

    /// A morph from one polygon to another. The polygons may differ in their
    /// number of points; neither may be empty.
    pub fn new(start_polygon: Polygon, end_polygon: Polygon) -> (r: Result<PolygonMorph, Error>)
        ensures
            match r {
                Ok(morph) => {
                    &&& start_polygon.points@.len() > 0 && end_polygon.points@.len() > 0
                    &&& morph.start_polygon() == start_polygon
                    &&& morph.end_polygon() == end_polygon
                    &&& morph.start_points() == paired(
                        start_polygon.points@,
                        end_polygon.points@,
                    ).0
                    &&& morph.end_points() == paired(start_polygon.points@, end_polygon.points@).1
                    &&& morph.start_points().len() == morph.end_points().len()
                },
                Err(e) => e == Error::DegeneratePolygon && (start_polygon.points@.len() == 0
                    || end_polygon.points@.len() == 0),
            },
    {
        match PointCorrespondence::new(&start_polygon.points, &end_polygon.points) {
            Ok(pairs) => Ok(
                PolygonMorph {
                    start_polygon,
                    end_polygon,
                    start_points: pairs.start_points,
                    end_points: pairs.end_points,
                },
            ),
            Err(e) => Err(e),
        }
    }

    /// A morph between two polygons that must have equally many points.
    pub fn new_strict(start_polygon: Polygon, end_polygon: Polygon) -> (r: Result<
        PolygonMorph,
        Error,
    >)
        ensures
            match r {
                Ok(morph) => {
                    &&& start_polygon.points@.len() == end_polygon.points@.len()
                    &&& start_polygon.points@.len() > 0
                    &&& morph.start_polygon() == start_polygon
                    &&& morph.end_polygon() == end_polygon
                    &&& morph.start_points() == start_polygon.points@
                    &&& morph.end_points() == end_polygon.points@
                },
                Err(e) => if start_polygon.points@.len() == 0 || end_polygon.points@.len() == 0 {
                    e == Error::DegeneratePolygon
                } else {
                    e == Error::MismatchedMorphInput && start_polygon.points@.len()
                        != end_polygon.points@.len()
                },
            },
    {
        match PointCorrespondence::new_strict(&start_polygon.points, &end_polygon.points) {
            Ok(pairs) => Ok(
                PolygonMorph {
                    start_polygon,
                    end_polygon,
                    start_points: pairs.start_points,
                    end_points: pairs.end_points,
                },
            ),
            Err(e) => Err(e),
        }
    }
}

impl Animation for PolygonMorph {
    open spec fn frame(&self, progress: int) -> (isize, VisualView) {
        (
            0,
            VisualView {
                shape: ShapeView::Polygon {
                    points: blended(self.start_points(), self.end_points(), progress),
                    fill: blend(
                        self.start_polygon().fill_color,
                        self.end_polygon().fill_color,
                        progress,
                    ),
                    outline: blend(
                        self.start_polygon().outline_color,
                        self.end_polygon().outline_color,
                        progress,
                    ),
                    stroke_width: lerp(
                        self.start_polygon().stroke_width as int,
                        self.end_polygon().stroke_width as int,
                        progress,
                    ) as u32,
                },
                opacity: FULL,
            },
        )
    }

    fn animate(&self, progress: u32) -> (r: (isize, Visual)) {
        let points: Vec<Point> = morph_points(&self.start_points, &self.end_points, progress);
        let fill: Color = self.start_polygon.fill_color.morph(&self.end_polygon.fill_color, progress);
        let outline: Color = self.start_polygon.outline_color.morph(
            &self.end_polygon.outline_color,
            progress,
        );
        proof {
            lemma_lerp_bounds(
                self.start_polygon.stroke_width as int,
                self.end_polygon.stroke_width as int,
                progress as int,
            );
        }
        let stroke_width: i64 = interpolate(
            self.start_polygon.stroke_width as i64,
            self.end_polygon.stroke_width as i64,
            progress,
        );
        (
            0,
            Visual {
                shape: Shape::Polygon { points, fill, outline, stroke_width: stroke_width as u32 },
                opacity: FULL,
            },
        )
    }
}

/// A morph starts as its start polygon and ends as its end polygon: at progress
/// zero it shows the start points in the colors and the outline width of the
/// start polygon, at full progress the end points in those of the end polygon.
pub proof fn lemma_morph_endpoints(morph: PolygonMorph)
    requires
        morph.start_points().len() == morph.end_points().len(),
    ensures
        morph.frame(0).1.shape == (ShapeView::Polygon {
            points: morph.start_points(),
            fill: morph.start_polygon().fill_color,
            outline: morph.start_polygon().outline_color,
            stroke_width: morph.start_polygon().stroke_width,
        }),
        morph.frame(FULL as int).1.shape == (ShapeView::Polygon {
            points: morph.end_points(),
            fill: morph.end_polygon().fill_color,
            outline: morph.end_polygon().outline_color,
            stroke_width: morph.end_polygon().stroke_width,
        }),
{
    lemma_blended_endpoints(morph.start_points(), morph.end_points());
    lemma_blend_endpoints(morph.start_polygon().fill_color, morph.end_polygon().fill_color);
    lemma_blend_endpoints(morph.start_polygon().outline_color, morph.end_polygon().outline_color);
    lemma_lerp_bounds(
        morph.start_polygon().stroke_width as int,
        morph.end_polygon().stroke_width as int,
        0,
    );
}

/// An animation that types a text out, character by character.
#[derive(Debug, PartialEq, Eq)]
pub struct TextType(pub Text);

/// The text as far as it is typed at progress `p`, followed by a cursor until
/// all of it is typed.
pub open spec fn typed(text: Seq<char>, p: int) -> Seq<char> {
    let done = share(text.len() as int, p);
    if done == text.len() {
        text
    } else {
        text.take(done).push('_')
    }
}

impl Animation for TextType {
    open spec fn frame(&self, progress: int) -> (isize, VisualView) {
        (
            self.0.z_index,
            VisualView {
                shape: ShapeView::Text {
                    text: typed(self.0.text@, progress),
                    x: self.0.x,
                    y: self.0.y,
                    font_size: self.0.font_size,
                    color: self.0.color,
                    anchor: self.0.anchor@,
                },
                opacity: FULL,
            },
        )
    }

    fn animate(&self, progress: u32) -> (r: (isize, Visual)) {
        let text = &self.0;
        let count: usize = text.text.as_str().unicode_len();
        let done: usize = portion(count, progress).0;
        let mut shown: String = text.text.as_str().substring_char(0, done).to_owned();
        if done != count {
            proof {
                reveal_strlit("_");
            }
            shown.append("_");
            assert(shown@ =~= typed(text.text@, progress as int));
        } else {
            assert(shown@ =~= typed(text.text@, progress as int));
        }
        (
            text.z_index,
            Visual {
                shape: Shape::Text {
                    text: shown,
                    x: text.x,
                    y: text.y,
                    font_size: text.font_size,
                    color: text.color,
                    anchor: text.anchor.clone(),
                },
                opacity: FULL,
            },
        )
    }
}

/// An animation that writes a text out by drawing the outline of its glyphs,
/// command by command.
#[derive(Debug, PartialEq, Eq)]
pub struct TextWrite(Vec<PathSegment>, Color);

impl TextWrite {
    /// The drawing commands of the whole outline.
    pub closed spec fn outline(&self) -> Seq<PathSegment> {
        self.0@
    }

    /// The color in which the outline is filled.
    pub closed spec fn color(&self) -> Color {
        self.1
    }

    /// An animation that writes `text`, whose glyphs have the given outline.
    pub fn new(text: &Text, outline: Vec<PathSegment>) -> (r: Self)
        ensures
            r.outline() == outline@,
            r.color() == text.color,
    {
        TextWrite(outline, text.color)
    }
}

impl Animation for TextWrite {
    open spec fn frame(&self, progress: int) -> (isize, VisualView) {
        (
            0,
            VisualView {
                shape: ShapeView::Path {
                    segments: self.outline().take(share(self.outline().len() as int, progress)),
                    fill: self.color(),
                    stroke_width: 5_000,
                },
                opacity: FULL,
            },
        )
    }

    fn animate(&self, progress: u32) -> (r: (isize, Visual)) {
        let amount: usize = portion(self.0.len(), progress).0;
        let mut segments: Vec<PathSegment> = Vec::with_capacity(amount);
        let mut i: usize = 0;
        while i < amount
            invariant
                i <= amount <= self.0@.len(),
                segments@ == self.0@.take(i as int),
            decreases amount - i,
        {
            segments.push(self.0[i]);
            assert(segments@ =~= self.0@.take(i + 1));
            i += 1;
        }
        (0, Visual { shape: Shape::Path { segments, fill: self.1, stroke_width: 5_000 }, opacity: FULL })
    }
}

/// An animation of any kind: one of those of this crate, or one of the user's own.
pub enum AnyAnimation {
    /// Nothing is shown.
    Idle(NoAnimation),
    /// Another animation, run backwards.
    Reverse(ReverseAnimation),
    /// An object fades in.
    Fade(FadeAnimation),
    /// The outline of a polygon is drawn.
    Draw(PolygonDraw),
    /// A polygon turns into another.
    Morph(PolygonMorph),
    /// A text is typed out.
    Type(TextType),
    /// A text is written out along the outline of its glyphs.
    Write(TextWrite),
    /// An animation that a user of this crate brings along.
    Custom(Box<dyn Animation>),
}

/// An animation that runs another one backwards.
pub struct ReverseAnimation {
    /// The animation to run backwards.
    pub animation: Box<AnyAnimation>,
}

impl Animation for ReverseAnimation {
    open spec fn frame(&self, progress: int) -> (isize, VisualView)
        decreases self,
    {
        self.animation.frame(FULL - progress)
    }

    fn animate(&self, progress: u32) -> (r: (isize, Visual))
        decreases self,
    {
        self.animation.animate(FULL - progress)
    }
}

impl Animation for AnyAnimation {
    open spec fn frame(&self, progress: int) -> (isize, VisualView)
        decreases self,
    {
        match self {
            AnyAnimation::Idle(a) => a.frame(progress),
            AnyAnimation::Reverse(a) => a.frame(progress),
            AnyAnimation::Fade(a) => a.frame(progress),
            AnyAnimation::Draw(a) => a.frame(progress),
            AnyAnimation::Morph(a) => a.frame(progress),
            AnyAnimation::Type(a) => a.frame(progress),
            AnyAnimation::Write(a) => a.frame(progress),
            AnyAnimation::Custom(a) => a.frame(progress),
        }
    }

    fn animate(&self, progress: u32) -> (r: (isize, Visual))
        decreases self,
    {
        match self {
            AnyAnimation::Idle(a) => a.animate(progress),
            AnyAnimation::Reverse(a) => a.animate(progress),
            AnyAnimation::Fade(a) => a.animate(progress),
            AnyAnimation::Draw(a) => a.animate(progress),
            AnyAnimation::Morph(a) => a.animate(progress),
            AnyAnimation::Type(a) => a.animate(progress),
            AnyAnimation::Write(a) => a.animate(progress),
            AnyAnimation::Custom(a) => a.animate(progress),
        }
    }
}

/// Whether a time fits the machine integers that hold times.
pub open spec fn fits_time(t: int) -> bool {
    i64::MIN <= t <= i64::MAX
}

/// The progress of a window from `start` to `end` at the given time: the part of
/// the window that has passed, in parts of `FULL`, rounded down and limited to
/// the range from `0` to `FULL`. A window without duration is finished at once.
pub open spec fn progress_at(start: int, end: int, time: int) -> int {
    if end == start {
        FULL as int
    } else {
        clamp(floor_div((time - start) * FULL, end - start), 0, FULL as int)
    }
}

/// An animation together with the time window in which it runs.
pub struct AnimationContainer {
    /// The animation to run.
    pub animation: AnyAnimation,
    /// The time at which the animation starts, in ticks.
    pub start: i64,
    /// The time at which the animation ends, in ticks.
    pub end: i64,
}

impl AnimationContainer {
    /// Whether the window does not end before it starts.
    pub open spec fn is_valid(&self) -> bool {
        self.start <= self.end
    }

    /// The length of the window: its end less its start.
    pub open spec fn span(&self) -> int {
        self.end - self.start
    }

    /// The z-index and the visual state of the animation at the given time.
    pub open spec fn frame_at(&self, time: int) -> (isize, VisualView) {
        self.animation.frame(progress_at(self.start as int, self.end as int, time))
    }

    /// The animation in a window of one second that starts at time zero.
    pub fn new(animation: AnyAnimation) -> (r: Self)
        ensures
            r == (AnimationContainer { animation, start: 0, end: TICKS_PER_SECOND }),
    {
        AnimationContainer { animation, start: 0, end: TICKS_PER_SECOND }
    }

    /// Checks that the window does not end before it starts.
    pub fn validate(&self) -> (r: Result<(), Error>)
        ensures
            r == if self.is_valid() {
                Ok::<(), Error>(())
            } else {
                Err::<(), Error>(Error::DegenerateInterval)
            },
    {
        if self.start <= self.end {
            Ok(())
        } else {
            Err(Error::DegenerateInterval)
        }
    }

    /// The progress of the window at the given time.
    pub fn progress(&self, time: i64) -> (p: u32)
        requires
            self.is_valid(),
        ensures
            p == progress_at(self.start as int, self.end as int, time as int),
            p <= FULL,
    {
        if self.end == self.start {
            return FULL;
        }
        let passed: i128 = time as i128 - self.start as i128;
        let span: i128 = self.end as i128 - self.start as i128;
        assert(-0x1_0000_0000_0000_0000 * 1_000_000 <= passed * 1_000_000
            <= 0x1_0000_0000_0000_0000 * 1_000_000) by (nonlinear_arith)
            requires
                -0x1_0000_0000_0000_0000 <= passed <= 0x1_0000_0000_0000_0000,
        ;
        let parts: i128 = div_floor(passed * (FULL as i128), span);
        if parts < 0 {
            0
        } else if parts > FULL as i128 {
            FULL
        } else {
            parts as u32
        }
    }

    /// Evaluates the animation at the given time. A time outside the window counts
    /// as the nearer end of it.
    pub fn animate(&self, time: i64) -> (r: (isize, Visual))
        requires
            self.is_valid(),
        ensures
            r.0 == self.frame_at(time as int).0,
            r.1@ == self.frame_at(time as int).1,
    {
        let p: u32 = self.progress(time);
        self.animation.animate(p)
    }

    /// Moves the end so that the window lasts `duration` from its start.
    pub fn duration(self, duration: i64) -> (r: Self)
        requires
            fits_time(self.start + duration),
        ensures
            r == (AnimationContainer { end: (self.start + duration) as i64, ..self }),
            r.span() == duration,
    {
        AnimationContainer { end: self.start + duration, ..self }
    }

    /// Moves the start so that the window lasts `duration` up to its end.
    pub fn duration_keep_end(self, duration: i64) -> (r: Self)
        requires
            fits_time(self.end - duration),
        ensures
            r == (AnimationContainer { start: (self.end - duration) as i64, ..self }),
            r.span() == duration,
    {
        AnimationContainer { start: self.end - duration, ..self }
    }

    /// Moves the whole window by `delay`, which may be negative.
    pub fn delay(self, delay: i64) -> (r: Self)
        requires
            fits_time(self.start + delay),
            fits_time(self.end + delay),
        ensures
            r == (AnimationContainer {
                start: (self.start + delay) as i64,
                end: (self.end + delay) as i64,
                ..self
            }),
            r.span() == self.span(),
    {
        AnimationContainer { start: self.start + delay, end: self.end + delay, ..self }
    }

    /// Moves the window so that it starts where `other` ends, keeping its length.
    pub fn after(self, other: &AnimationContainer) -> (r: Self)
        requires
            fits_time(other.end + self.span()),
        ensures
            r == (AnimationContainer {
                start: other.end,
                end: (other.end + self.span()) as i64,
                ..self
            }),
            r.span() == self.span(),
    {
        let span: i128 = self.end as i128 - self.start as i128;
        AnimationContainer { start: other.end, end: (other.end as i128 + span) as i64, ..self }
    }

    /// Moves the start to the start of `other`; the end stays.
    pub fn start_with(self, other: &AnimationContainer) -> (r: Self)
        ensures
            r == (AnimationContainer { start: other.start, ..self }),
    {
        AnimationContainer { start: other.start, ..self }
    }

    /// Moves the end to the end of `other`; the start stays.
    pub fn end_with(self, other: &AnimationContainer) -> (r: Self)
        ensures
            r == (AnimationContainer { end: other.end, ..self }),
    {
        AnimationContainer { end: other.end, ..self }
    }

    /// Gives the window the start and the end of `other`.
    pub fn synchronize(self, other: &AnimationContainer) -> (r: Self)
        ensures
            r == (AnimationContainer { start: other.start, end: other.end, ..self }),
    {
        AnimationContainer { start: other.start, end: other.end, ..self }
    }

    /// The window with its animation wrapped so that it runs backwards.
    pub open spec fn reversed(self) -> AnimationContainer {
        AnimationContainer {
            animation: AnyAnimation::Reverse(ReverseAnimation { animation: Box::new(self.animation) }),
            start: self.start,
            end: self.end,
        }
    }

    /// Runs the animation backwards in the same window: at progress `p` the result
    /// shows what the animation showed at `FULL - p`.
    pub fn reverse(self) -> (r: Self)
        ensures
            r == self.reversed(),
            forall|p: int| #[trigger] r.animation.frame(p) == self.animation.frame(FULL - p),
    {
        AnimationContainer {
            animation: AnyAnimation::Reverse(ReverseAnimation { animation: Box::new(self.animation) }),
            start: self.start,
            end: self.end,
        }
    }
}

/// Reversing a window twice gives back what it showed: at every progress the
/// twice reversed animation evaluates as the animation itself, and so does the
/// window at every time.
pub proof fn lemma_reverse_twice(a: AnimationContainer)
    ensures
        forall|p: int| #[trigger] a.reversed().reversed().animation.frame(p) == a.animation.frame(p),
        forall|time: int| #[trigger] a.reversed().reversed().frame_at(time) == a.frame_at(time),
        a.reversed().reversed().start == a.start,
        a.reversed().reversed().end == a.end,
{
    let once = a.reversed();
    let twice = once.reversed();
    assert forall|p: int| #[trigger] twice.animation.frame(p) == a.animation.frame(p) by {
        assert(twice.animation.frame(p) == once.animation.frame(FULL - p));
        assert(once.animation.frame(FULL - p) == a.animation.frame(FULL - (FULL - p)));
        assert(FULL - (FULL - p) == p);
    }
    assert forall|time: int| #[trigger] twice.frame_at(time) == a.frame_at(time) by {
        let q = progress_at(a.start as int, a.end as int, time);
        assert(twice.animation.frame(q) == a.animation.frame(q));
    }
}

/// An object with the animation that brings it in and the one that takes it out.
/// Between the two the object itself is shown.
pub struct AnimatedObject {
    /// The object shown between the two animations: its z-index and its shape.
    pub object: (isize, Shape),
    /// The animation that brings the object in.
    pub enter: AnimationContainer,
    /// The animation that takes the object out.
    pub exit: AnimationContainer,
}

impl AnimatedObject {
    /// Moves the exit window so that it starts `duration` after the enter window
    /// ends, keeping its length.
    pub fn lifetime(self, duration: i64) -> (r: Self)
        requires
            fits_time(self.enter.end + duration),
            fits_time(self.enter.end + duration + self.exit.span()),
        ensures
            r == (AnimatedObject {
                exit: AnimationContainer {
                    start: (self.enter.end + duration) as i64,
                    end: (self.enter.end + duration + self.exit.span()) as i64,
                    ..self.exit
                },
                ..self
            }),
            r.exit.span() == self.exit.span(),
    {
        let span: i128 = self.exit.end as i128 - self.exit.start as i128;
        let start: i64 = self.enter.end + duration;
        let end: i64 = (start as i128 + span) as i64;
        AnimatedObject {
            object: self.object,
            enter: self.enter,
            exit: AnimationContainer { start, end, ..self.exit },
        }
    }
}

} // verus!
