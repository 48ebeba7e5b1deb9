//! The timeline: what is shown when, and its compilation into frames.
//!
//! A timeline is sampled at a fixed rate of `fps` frames per second. Frame `i`
//! shows the instant `i / fps` seconds. A time window from `start` to `end`
//! covers the frames from `floor(start * fps)` up to, not including,
//! `ceil(end * fps)`, with the times taken in seconds. A window that ends
//! before it starts covers no frame.

use std::sync::Arc;
use vstd::prelude::*;
use crate::animations::AnimatedObject;
use crate::error::Error;
use crate::objects::Object;
use crate::shape::{Shape, ShapeView};
use crate::units::{
    ceil_div, div_ceil, div_floor, floor_div, lemma_ceil_div_bounds, lemma_floor_div_bounds,
    TICKS_PER_SECOND,
};

verus! {

/// The first frame that a window starting at `start` covers.
pub open spec fn first_frame(start: int, fps: int) -> int {
    let first = floor_div(start * fps, TICKS_PER_SECOND as int);
    if first < 0 {
        0
    } else {
        first
    }
}

/// The frame at which a window ending at `end` is over: the frame after the last
/// one that it covers.
pub open spec fn last_frame(end: int, fps: int) -> int {
    let last = ceil_div(end * fps, TICKS_PER_SECOND as int);
    if last < 0 {
        0
    } else {
        last
    }
}

/// Whether the window from `start` to `end` covers frame `i`. A window that
/// ends before it starts covers no frame.
pub open spec fn covers(start: int, end: int, fps: int, i: int) -> bool {
    start <= end && first_frame(start, fps) <= i < last_frame(end, fps)
}

/// The time of frame `i` in ticks, rounded down.
pub open spec fn frame_time(i: int, fps: int) -> int {
    floor_div(i * TICKS_PER_SECOND, fps)
}

/// Whether the instant that frame `i` shows, `i / fps` seconds, lies in the
/// half-open window from `start` to `end`.
pub open spec fn sampled_within(start: int, end: int, fps: int, i: int) -> bool {
    start * fps <= i * TICKS_PER_SECOND < end * fps
}

/// A number of frames as a machine integer, or the largest one where it does not fit.
pub open spec fn saturated(frames: int) -> int {
    if frames > usize::MAX {
        usize::MAX as int
    } else {
        frames
    }
}

/// A frame is covered exactly when the window does not end before it starts,
/// and the frame's slot of time, from its own instant to that of the next frame,
/// reaches into the window.
pub proof fn lemma_covers_slot(start: int, end: int, fps: int, i: int)
    requires
        fps > 0,
        i >= 0,
    ensures
        covers(start, end, fps, i) <==> start <= end && start * fps < (i + 1) * TICKS_PER_SECOND
            && i * TICKS_PER_SECOND < end * fps,
{
    let t = TICKS_PER_SECOND as int;
    lemma_floor_div_bounds(start * fps, t, floor_div(start * fps, t));
    lemma_ceil_div_bounds(end * fps, t, ceil_div(end * fps, t));
    let f = floor_div(start * fps, t);
    let c = ceil_div(end * fps, t);
    assert(f <= i <==> start * fps < (i + 1) * t) by (nonlinear_arith)
        requires
            f * t <= start * fps < (f + 1) * t,
            t > 0,
    ;
    assert(i < c <==> i * t < end * fps) by (nonlinear_arith)
        requires
            (c - 1) * t < end * fps <= c * t,
            t > 0,
    ;
}

/// The frames that a window covers include every frame whose instant lies in the
/// window, and no frame whose instant lies at or after its end, or a whole frame
/// or more before its start.
pub proof fn lemma_covers_sampled(start: int, end: int, fps: int, i: int)
    requires
        fps > 0,
        i >= 0,
    ensures
        sampled_within(start, end, fps, i) ==> covers(start, end, fps, i),
        covers(start, end, fps, i) ==> i * TICKS_PER_SECOND < end * fps,
        covers(start, end, fps, i) ==> start * fps < (i + 1) * TICKS_PER_SECOND,
{
    lemma_covers_slot(start, end, fps, i);
    if sampled_within(start, end, fps, i) {
        assert(start < end) by (nonlinear_arith)
            requires
                start * fps < end * fps,
                fps > 0,
        ;
    }
}

/// A window that ends before it starts covers no frame.
pub proof fn lemma_inverted_window_covers_nothing(start: int, end: int, fps: int, i: int)
    requires
        start > end,
    ensures
        !covers(start, end, fps, i),
{
}

/// For a window that starts on a frame's instant, or at or before time zero, the
/// frames that it covers are exactly those whose instant lies in the window.
pub proof fn lemma_covers_exact(start: int, end: int, fps: int, i: int)
    requires
        fps > 0,
        i >= 0,
        start < end,
        start <= 0 || (start * fps) % (TICKS_PER_SECOND as int) == 0,
    ensures
        covers(start, end, fps, i) <==> sampled_within(start, end, fps, i),
{
    let t = TICKS_PER_SECOND as int;
    lemma_covers_slot(start, end, fps, i);
    if start <= 0 {
        assert(start * fps <= 0) by (nonlinear_arith)
            requires
                start <= 0,
                fps > 0,
        ;
        assert(i * t >= 0) by (nonlinear_arith)
            requires
                i >= 0,
                t > 0,
        ;
    } else {
        let f = floor_div(start * fps, t);
        vstd::arithmetic::div_mod::lemma_fundamental_div_mod(start * fps, t);
        assert(start * fps == f * t) by (nonlinear_arith)
            requires
                start * fps == t * f + (start * fps) % t,
                (start * fps) % t == 0,
        ;
        assert(f * t < (i + 1) * t <==> f * t <= i * t) by (nonlinear_arith)
            requires
                t > 0,
        ;
    }
}

/// Two windows that meet, the second starting where the first ends, share at
/// most one frame: the one in whose slot of time they meet. They share none
/// where they meet on a frame's instant.
pub proof fn lemma_adjacent_windows(start: int, meet: int, end: int, fps: int, i: int)
    requires
        fps > 0,
        i >= 0,
        covers(start, meet, fps, i),
        covers(meet, end, fps, i),
    ensures
        i == floor_div(meet * fps, TICKS_PER_SECOND as int),
        (meet * fps) % (TICKS_PER_SECOND as int) != 0,
{
    let t = TICKS_PER_SECOND as int;
    let f = floor_div(meet * fps, t);
    lemma_covers_slot(start, meet, fps, i);
    lemma_covers_slot(meet, end, fps, i);
    lemma_floor_div_bounds(meet * fps, t, i);
    vstd::arithmetic::div_mod::lemma_fundamental_div_mod(meet * fps, t);
    assert(t * f == f * t) by (nonlinear_arith);
}

/// The frame's time in ticks lies in a window exactly when its instant does.
pub proof fn lemma_frame_time_sampled(start: int, end: int, fps: int, i: int)
    requires
        fps > 0,
    ensures
        sampled_within(start, end, fps, i) <==> start <= frame_time(i, fps) < end,
{
    let n = i * TICKS_PER_SECOND;
    let q = frame_time(i, fps);
    lemma_floor_div_bounds(n, fps, q);
    assert(start * fps <= n <==> start <= q) by (nonlinear_arith)
        requires
            q * fps <= n < (q + 1) * fps,
            fps > 0,
    ;
    assert(n < end * fps <==> q < end) by (nonlinear_arith)
        requires
            q * fps <= n < (q + 1) * fps,
            fps > 0,
    ;
}

/// The frames that the window from `start` to `end` covers at `fps` frames per
/// second: the first one, and the one after the last. A bound too large for the
/// machine is given as the largest machine integer. A window that ends before it
/// starts covers no frame: both bounds are zero.
pub fn frame_range(start: i64, end: i64, fps: u32) -> (r: (usize, usize))
    requires
        fps > 0,
    ensures
        start > end ==> r == (0usize, 0usize),
        start <= end ==> r.0 == saturated(first_frame(start as int, fps as int)) && r.1
            == saturated(last_frame(end as int, fps as int)),
        forall|i: int|
            0 <= i < usize::MAX ==> (r.0 <= i < r.1 <==> #[trigger] covers(
                start as int,
                end as int,
                fps as int,
                i,
            )),
{
    if start > end {
        return (0, 0);
    }
    let ticks: i128 = TICKS_PER_SECOND as i128;
    assert(-0x8000_0000_0000_0000 * 0x1_0000_0000 <= start * fps <= 0x8000_0000_0000_0000
        * 0x1_0000_0000) by (nonlinear_arith)
        requires
            -0x8000_0000_0000_0000 <= start <= 0x8000_0000_0000_0000,
            0 <= fps <= 0x1_0000_0000,
    ;
    assert(-0x8000_0000_0000_0000 * 0x1_0000_0000 <= end * fps <= 0x8000_0000_0000_0000
        * 0x1_0000_0000) by (nonlinear_arith)
        requires
            -0x8000_0000_0000_0000 <= end <= 0x8000_0000_0000_0000,
            0 <= fps <= 0x1_0000_0000,
    ;
    let first: i128 = div_floor(start as i128 * fps as i128, ticks);
    let last: i128 = div_ceil(end as i128 * fps as i128, ticks);
    (saturate(first), saturate(last))
}

/// A frame number as a machine integer: negative numbers give zero, numbers too
/// large give the largest machine integer.
fn saturate(frames: i128) -> (r: usize)
    ensures
        r == saturated(if frames < 0 { 0 } else { frames as int }),
{
    if frames < 0 {
        0
    } else if frames > usize::MAX as i128 {
        usize::MAX
    } else {
        frames as usize
    }
}

/// Frame times are not negative and do not decrease from frame to frame.
pub proof fn lemma_frame_time_bounds(i: int, j: int, fps: int)
    requires
        fps > 0,
        0 <= i <= j,
    ensures
        0 <= frame_time(i, fps) <= frame_time(j, fps),
{
    let t = TICKS_PER_SECOND as int;
    assert(0 <= i * t <= j * t) by (nonlinear_arith)
        requires
            0 <= i <= j,
            t > 0,
    ;
    vstd::arithmetic::div_mod::lemma_div_is_ordered(i * t, j * t, fps);
    vstd::arithmetic::div_mod::lemma_div_pos_is_pos(i * t, fps);
}

/// Number of frames added after the end of the last animation, so that its final
/// state is on screen for a moment.
pub const FRAME_PAD: usize = 10;

/// The two animations of an animated object.
#[derive(Clone, Copy, PartialEq, Eq, Structural, Debug)]
pub enum Phase {
    /// The animation that brings the object in.
    Enter,
    /// The animation that takes the object out.
    Exit,
}

/// A reference to something on a timeline that is drawn as it is.
#[derive(Clone, Copy, PartialEq, Eq, Structural, Debug)]
pub enum Source {
    /// The static object with the given handle.
    Static(usize),
    /// The animated object with the given handle, between its two animations.
    Steady(usize),
}

/// A reference to an animation that runs in a frame.
#[derive(Clone, Copy, PartialEq, Eq, Structural, Debug)]
pub struct Activation {
    /// The handle of the animated object.
    pub entity: usize,
    /// Which of its two animations runs.
    pub phase: Phase,
}

/// All that is shown at one sampled instant, by reference into the timeline.
#[derive(Debug, PartialEq, Eq)]
pub struct Frame {
    /// The number of the frame, counted from zero.
    pub index: usize,
    /// The time of the frame in ticks, rounded down.
    pub time: i64,
    /// What is drawn as it is, in the order of registration.
    pub objects: Vec<Source>,
    /// The animations that run, in the order of registration.
    pub animations: Vec<Activation>,
}

/// The mathematical value of a `Frame`.
pub struct FrameView {
    pub index: usize,
    pub time: i64,
    pub objects: Seq<Source>,
    pub animations: Seq<Activation>,
}

impl View for Frame {
    type V = FrameView;

    open spec fn view(&self) -> FrameView {
        FrameView {
            index: self.index,
            time: self.time,
            objects: self.objects@,
            animations: self.animations@,
        }
    }
}

/// The time at which the last exit animation ends; zero where there is none.
pub open spec fn end_time(entities: Seq<AnimatedObject>) -> int
    decreases entities.len(),
{
    if entities.len() == 0 {
        0
    } else if entities.len() == 1 {
        entities[0].exit.end as int
    } else {
        let rest = end_time(entities.drop_last());
        let last = entities.last().exit.end as int;
        if last > rest {
            last
        } else {
            rest
        }
    }
}

/// The number of frames of a timeline: those up to the end of the last exit
/// animation, and the pad.
pub open spec fn frame_count(entities: Seq<AnimatedObject>, fps: int) -> int {
    last_frame(end_time(entities), fps) + FRAME_PAD
}

/// Whether the machine can count the frames of a timeline and hold their times.
pub open spec fn compilable(entities: Seq<AnimatedObject>, fps: int) -> bool {
    frame_count(entities, fps) <= usize::MAX && frame_time(frame_count(entities, fps) - 1, fps)
        <= i64::MAX
}

/// The references to the static objects with handles below `count`, in order.
pub open spec fn static_sources(count: int) -> Seq<Source> {
    Seq::new(count as nat, |k: int| Source::Static(k as usize))
}

/// The animated objects that frame `i` shows between their two animations, in
/// the order of their handles.
pub open spec fn steady_sources(entities: Seq<AnimatedObject>, fps: int, i: int) -> Seq<Source>
    decreases entities.len(),
{
    if entities.len() == 0 {
        Seq::empty()
    } else {
        let k = entities.len() - 1;
        let before = steady_sources(entities.drop_last(), fps, i);
        if covers(entities[k].enter.end as int, entities[k].exit.start as int, fps, i) {
            before.push(Source::Steady(k as usize))
        } else {
            before
        }
    }
}

/// The animations that run in frame `i`, in the order of their objects' handles,
/// the enter animation of an object before its exit animation.
pub open spec fn active_animations(entities: Seq<AnimatedObject>, fps: int, i: int) -> Seq<
    Activation,
>
    decreases entities.len(),
{
    if entities.len() == 0 {
        Seq::empty()
    } else {
        let k = entities.len() - 1;
        let before = active_animations(entities.drop_last(), fps, i);
        let entered = if covers(
            entities[k].enter.start as int,
            entities[k].enter.end as int,
            fps,
            i,
        ) {
            before.push(Activation { entity: k as usize, phase: Phase::Enter })
        } else {
            before
        };
        if covers(entities[k].exit.start as int, entities[k].exit.end as int, fps, i) {
            entered.push(Activation { entity: k as usize, phase: Phase::Exit })
        } else {
            entered
        }
    }
}

/// Frame `i` of a timeline with `statics` static objects and the given animated ones.
pub open spec fn frame_at(statics: int, entities: Seq<AnimatedObject>, fps: int, i: int) -> FrameView {
    FrameView {
        index: i as usize,
        time: frame_time(i, fps) as i64,
        objects: static_sources(statics) + steady_sources(entities, fps, i),
        animations: active_animations(entities, fps, i),
    }
}

/// Whether the reference names something on a timeline with `statics` static
/// objects and `entities` animated ones.
pub open spec fn source_fits(statics: int, entities: int, source: Source) -> bool {
    match source {
        Source::Static(k) => k < statics,
        Source::Steady(k) => k < entities,
    }
}

/// Whether every reference of the frame names something on a timeline with
/// `statics` static objects and `entities` animated ones.
pub open spec fn frame_fits(statics: int, entities: int, frame: FrameView) -> bool {
    &&& forall|t: int|
        0 <= t < frame.objects.len() ==> source_fits(statics, entities, #[trigger] frame.objects[t])
    &&& forall|t: int|
        0 <= t < frame.animations.len() ==> (#[trigger] frame.animations[t]).entity < entities
}

/// The steady objects of a frame name animated objects of the timeline.
proof fn lemma_steady_fits(entities: Seq<AnimatedObject>, fps: int, i: int)
    requires
        entities.len() <= usize::MAX,
    ensures
        forall|t: int|
            0 <= t < steady_sources(entities, fps, i).len() ==> match #[trigger] steady_sources(
                entities,
                fps,
                i,
            )[t] {
                Source::Static(k) => false,
                Source::Steady(k) => k < entities.len(),
            },
    decreases entities.len(),
{
    if entities.len() > 0 {
        lemma_steady_fits(entities.drop_last(), fps, i);
    }
}

/// The animations of a frame belong to animated objects of the timeline.
proof fn lemma_active_fits(entities: Seq<AnimatedObject>, fps: int, i: int)
    requires
        entities.len() <= usize::MAX,
    ensures
        forall|t: int|
            0 <= t < active_animations(entities, fps, i).len() ==> (#[trigger] active_animations(
                entities,
                fps,
                i,
            )[t]).entity < entities.len(),
    decreases entities.len(),
{
    if entities.len() > 0 {
        lemma_active_fits(entities.drop_last(), fps, i);
    }
}

/// Every reference of a compiled frame names something on its timeline.
pub proof fn lemma_frame_at_fits(statics: int, entities: Seq<AnimatedObject>, fps: int, i: int)
    requires
        0 <= statics <= usize::MAX,
        entities.len() <= usize::MAX,
    ensures
        frame_fits(statics, entities.len() as int, frame_at(statics, entities, fps, i)),
{
    lemma_steady_fits(entities, fps, i);
    lemma_active_fits(entities, fps, i);
    let frame = frame_at(statics, entities, fps, i);
    assert forall|t: int| 0 <= t < frame.objects.len() implies source_fits(
        statics,
        entities.len() as int,
        #[trigger] frame.objects[t],
    ) by {
        if t >= statics {
            assert(frame.objects[t] == steady_sources(entities, fps, i)[t - statics]);
        }
    }
}

/// Adds an animation to the frames from `first` up to, not including, `last`.
fn activate(frames: &mut Vec<Frame>, first: usize, last: usize, activation: Activation)
    ensures
        final(frames)@.len() == old(frames)@.len(),
        forall|j: int|
            0 <= j < old(frames)@.len() ==> #[trigger] final(frames)@[j]@ == (FrameView {
                animations: if first <= j < last {
                    old(frames)@[j]@.animations.push(activation)
                } else {
                    old(frames)@[j]@.animations
                },
                ..old(frames)@[j]@
            }),
{
    let end: usize = if last < frames.len() {
        last
    } else {
        frames.len()
    };
    let mut j: usize = first;
    while j < end
        invariant
            end <= frames@.len(),
            end <= last,
            end == last || end == frames@.len(),
            first <= j,
            j <= end || j == first,
            frames@.len() == old(frames)@.len(),
            forall|m: int|
                0 <= m < frames@.len() ==> #[trigger] frames@[m]@ == (FrameView {
                    animations: if first <= m < j {
                        old(frames)@[m]@.animations.push(activation)
                    } else {
                        old(frames)@[m]@.animations
                    },
                    ..old(frames)@[m]@
                }),
        decreases end - j,
    {
        let ghost before = frames@;
        frames[j].animations.push(activation);
        assert forall|m: int| 0 <= m < frames@.len() implies #[trigger] frames@[m]@ == (FrameView {
            animations: if first <= m < j + 1 {
                old(frames)@[m]@.animations.push(activation)
            } else {
                old(frames)@[m]@.animations
            },
            ..old(frames)@[m]@
        }) by {
            assert(before[m]@.index == old(frames)@[m]@.index);
            if m != j {
                assert(frames@[m] == before[m]);
            }
        }
        j += 1;
    }
}

/// Adds something drawn as it is to the frames from `first` up to, not including, `last`.
fn show(frames: &mut Vec<Frame>, first: usize, last: usize, source: Source)
    ensures
        final(frames)@.len() == old(frames)@.len(),
        forall|j: int|
            0 <= j < old(frames)@.len() ==> #[trigger] final(frames)@[j]@ == (FrameView {
                objects: if first <= j < last {
                    old(frames)@[j]@.objects.push(source)
                } else {
                    old(frames)@[j]@.objects
                },
                ..old(frames)@[j]@
            }),
{
    let end: usize = if last < frames.len() {
        last
    } else {
        frames.len()
    };
    let mut j: usize = first;
    while j < end
        invariant
            end <= frames@.len(),
            end <= last,
            end == last || end == frames@.len(),
            first <= j,
            j <= end || j == first,
            frames@.len() == old(frames)@.len(),
            forall|m: int|
                0 <= m < frames@.len() ==> #[trigger] frames@[m]@ == (FrameView {
                    objects: if first <= m < j {
                        old(frames)@[m]@.objects.push(source)
                    } else {
                        old(frames)@[m]@.objects
                    },
                    ..old(frames)@[m]@
                }),
        decreases end - j,
    {
        let ghost before = frames@;
        frames[j].objects.push(source);
        assert forall|m: int| 0 <= m < frames@.len() implies #[trigger] frames@[m]@ == (FrameView {
            objects: if first <= m < j + 1 {
                old(frames)@[m]@.objects.push(source)
            } else {
                old(frames)@[m]@.objects
            },
            ..old(frames)@[m]@
        }) by {
            assert(before[m]@.index == old(frames)@[m]@.index);
            if m != j {
                assert(frames@[m] == before[m]);
            }
        }
        j += 1;
    }
}

/// The objects and the animated objects of a video, in the order of registration.
/// The video lasts until the last exit animation ends.
pub struct Timeline {
    objects: Vec<(isize, Shape)>,
    animations: Vec<Arc<AnimatedObject>>,
}

impl Default for Timeline {
    fn default() -> (r: Self)
        ensures
            r.wf(),
            r.statics() == Seq::<(isize, ShapeView)>::empty(),
            r.entities() == Seq::<AnimatedObject>::empty(),
    {
        Timeline::new()
    }
}

impl Timeline {
    /// Whether every registered window is valid: none ends before it starts.
    /// Every timeline that this crate hands out is well formed.
    pub closed spec fn wf(&self) -> bool {
        forall|k: int|
            0 <= k < self.animations@.len() ==> (#[trigger] self.animations@[k]).enter.is_valid()
                && self.animations@[k].exit.is_valid()
    }

    /// In a well-formed timeline every window is valid.
    pub proof fn lemma_windows_valid(&self, k: int)
        requires
            self.wf(),
            0 <= k < self.entities().len(),
        ensures
            self.entities()[k].enter.is_valid(),
            self.entities()[k].exit.is_valid(),
    {
        assert(self.animations@[k].enter.is_valid());
    }

    /// The static objects, each as its z-index and its shape, by handle.
    pub closed spec fn statics(&self) -> Seq<(isize, ShapeView)> {
        Seq::new(self.objects@.len(), |k: int| (self.objects@[k].0, self.objects@[k].1@))
    }

    /// The animated objects, by handle.
    pub closed spec fn entities(&self) -> Seq<AnimatedObject> {
        Seq::new(self.animations@.len(), |k: int| *self.animations@[k])
    }

    /// A timeline without objects.
    pub fn new() -> (r: Self)
        ensures
            r.wf(),
            r.statics() == Seq::<(isize, ShapeView)>::empty(),
            r.entities() == Seq::<AnimatedObject>::empty(),
    {
        let r = Timeline { objects: Vec::new(), animations: Vec::new() };
        assert(r.statics() =~= Seq::<(isize, ShapeView)>::empty());
        assert(r.entities() =~= Seq::<AnimatedObject>::empty());
        r
    }

    /// Registers a static object, rendered once, now; it is shown in every frame.
    /// Returns its handle.
    pub fn add_object<O: Object>(&mut self, object: &O) -> (handle: usize)
        requires
            old(self).wf(),
        ensures
            final(self).wf(),
            handle == old(self).statics().len(),
            final(self).statics() == old(self).statics().push(object.rendered()),
            final(self).entities() == old(self).entities(),
    {
        let handle: usize = self.objects.len();
        self.objects.push(object.render());
        assert(self.statics() =~= old(self).statics().push(object.rendered()));
        handle
    }

    /// Registers an animated object and returns its handle. An object with a
    /// window that ends before it starts is refused, and the timeline stays as
    /// it was.
    pub fn add_animation(&mut self, animated_object: AnimatedObject) -> (r: Result<usize, Error>)
        requires
            old(self).wf(),
        ensures
            final(self).wf(),
            final(self).statics() == old(self).statics(),
            animated_object.enter.is_valid() && animated_object.exit.is_valid() ==> r == Ok::<
                usize,
                Error,
            >(old(self).entities().len() as usize) && final(self).entities() == old(
                self,
            ).entities().push(animated_object),
            !(animated_object.enter.is_valid() && animated_object.exit.is_valid()) ==> r == Err::<
                usize,
                Error,
            >(Error::DegenerateInterval) && final(self).entities() == old(self).entities(),
    {
        self.add_animation_arc(Arc::new(animated_object))
    }

    /// Registers an animated object that is shared with other owners. See `add_animation`.
    pub fn add_animation_arc(&mut self, animated_object: Arc<AnimatedObject>) -> (r: Result<
        usize,
        Error,
    >)
        requires
            old(self).wf(),
        ensures
            final(self).wf(),
            final(self).statics() == old(self).statics(),
            animated_object.enter.is_valid() && animated_object.exit.is_valid() ==> r == Ok::<
                usize,
                Error,
            >(old(self).entities().len() as usize) && final(self).entities() == old(
                self,
            ).entities().push(*animated_object),
            !(animated_object.enter.is_valid() && animated_object.exit.is_valid()) ==> r == Err::<
                usize,
                Error,
            >(Error::DegenerateInterval) && final(self).entities() == old(self).entities(),
    {
        if animated_object.enter.start > animated_object.enter.end || animated_object.exit.start
            > animated_object.exit.end {
            return Err(Error::DegenerateInterval);
        }
        let handle: usize = self.animations.len();
        self.animations.push(animated_object);
        assert(self.entities() =~= old(self).entities().push(*animated_object));
        Ok(handle)
    }

    /// The static object with the given handle: its z-index and its shape.
    pub fn object(&self, handle: usize) -> (r: &(isize, Shape))
        requires
            handle < self.statics().len(),
        ensures
            r.0 == self.statics()[handle as int].0,
            r.1@ == self.statics()[handle as int].1,
    {
        &self.objects[handle]
    }

    /// The animated object with the given handle.
    pub fn entity(&self, handle: usize) -> (r: &AnimatedObject)
        requires
            handle < self.entities().len(),
        ensures
            *r == self.entities()[handle as int],
            self.wf() ==> r.enter.is_valid() && r.exit.is_valid(),
    {
        &self.animations[handle]
    }

    /// The numbers of static and of animated objects fit a machine integer.
    pub proof fn lemma_counts_fit(&self)
        ensures
            self.statics().len() <= usize::MAX,
            self.entities().len() <= usize::MAX,
    {
        assert(self.objects@.len() == self.objects.len());
        assert(self.animations@.len() == self.animations.len());
    }

    /// Whether every reference of the frame names something on this timeline.
    /// A frame that this timeline compiled always does.
    pub fn fits(&self, frame: &Frame) -> (r: bool)
        ensures
            r == frame_fits(self.statics().len() as int, self.entities().len() as int, frame@),
    {
        let statics: usize = self.objects.len();
        let entities: usize = self.animations.len();
        let mut t: usize = 0;
        while t < frame.objects.len()
            invariant
                t <= frame.objects@.len(),
                statics == self.statics().len(),
                entities == self.entities().len(),
                forall|u: int|
                    0 <= u < t ==> source_fits(
                        statics as int,
                        entities as int,
                        #[trigger] frame@.objects[u],
                    ),
            decreases frame.objects@.len() - t,
        {
            let known: bool = match frame.objects[t] {
                Source::Static(k) => k < statics,
                Source::Steady(k) => k < entities,
            };
            if !known {
                assert(!source_fits(statics as int, entities as int, frame@.objects[t as int]));
                return false;
            }
            t += 1;
        }
        let mut a: usize = 0;
        while a < frame.animations.len()
            invariant
                a <= frame.animations@.len(),
                entities == self.entities().len(),
                forall|u: int| 0 <= u < a ==> (#[trigger] frame@.animations[u]).entity < entities,
            decreases frame.animations@.len() - a,
        {
            if frame.animations[a].entity >= entities {
                assert(!(frame@.animations[a as int].entity < entities));
                return false;
            }
            a += 1;
        }
        true
    }

    /// The time at which the last exit animation ends; zero where there is none.
    pub fn end_time(&self) -> (t: i64)
        ensures
            t == end_time(self.entities()),
    {
        if self.animations.len() == 0 {
            return 0;
        }
        let mut latest: i64 = self.animations[0].exit.end;
        let mut k: usize = 1;
        assert(self.entities().take(1).len() == 1);
        while k < self.animations.len()
            invariant
                1 <= k <= self.animations@.len(),
                latest == end_time(self.entities().take(k as int)),
            decreases self.animations@.len() - k,
        {
            let end: i64 = self.animations[k].exit.end;
            proof {
                let upto = self.entities().take(k + 1);
                assert(upto.drop_last() =~= self.entities().take(k as int));
                assert(upto.last() == self.entities()[k as int]);
            }
            if end > latest {
                latest = end;
            }
            k += 1;
        }
        assert(self.entities().take(k as int) =~= self.entities());
        latest
    }

    /// The number of frames of the video at `fps` frames per second, or `None`
    /// where the machine cannot count them or cannot hold their times.
    pub fn frame_count(&self, fps: u32) -> (r: Option<usize>)
        requires
            fps > 0,
        ensures
            r == if compilable(self.entities(), fps as int) {
                Some(frame_count(self.entities(), fps as int) as usize)
            } else {
                None
            },
    {
        let end: i64 = self.end_time();
        assert(-0x8000_0000_0000_0000 * 0x1_0000_0000 <= end * fps <= 0x8000_0000_0000_0000
            * 0x1_0000_0000) by (nonlinear_arith)
            requires
                -0x8000_0000_0000_0000 <= end <= 0x8000_0000_0000_0000,
                0 <= fps <= 0x1_0000_0000,
        ;
        let ticks: i128 = TICKS_PER_SECOND as i128;
        let last: i128 = div_ceil(end as i128 * fps as i128, ticks);
        let last: i128 = if last < 0 {
            0
        } else {
            last
        };
        proof {
            lemma_ceil_div_bounds(end * fps, ticks as int, ceil_div(end * fps, ticks as int));
            assert(last <= 0x8000_0000_0000_0000 * 0x1_0000_0000) by (nonlinear_arith)
                requires
                    last == 0 || (last - 1) * ticks < end * fps,
                    end * fps <= 0x8000_0000_0000_0000 * 0x1_0000_0000,
                    ticks == 1_000_000,
            ;
        }
        let count: i128 = last + FRAME_PAD as i128;
        if count > usize::MAX as i128 {
            return None;
        }
        assert(0 <= (count - 1) * ticks <= 0x1_0000_0000_0000_0000_0000_0000 * 1_000_000)
            by (nonlinear_arith)
            requires
                1 <= count <= 0x1_0000_0000_0000_0000_0000_0000,
                ticks == 1_000_000,
        ;
        let time: i128 = div_floor((count - 1) * ticks, fps as i128);
        if time > i64::MAX as i128 {
            return None;
        }
        Some(count as usize)
    }

    /// Compiles the timeline into its frames at `fps` frames per second. Every
    /// frame starts with all static objects. Each animated object then adds its
    /// enter animation to the frames that the enter window covers, its exit
    /// animation to those that the exit window covers, and itself to those that
    /// the window between the two covers. A timeline too long for the machine is
    /// refused.
    pub fn calc_frames(&self, fps: u32) -> (r: Result<Vec<Frame>, Error>)
        requires
            fps > 0,
        ensures
            match r {
                Ok(frames) => {
                    &&& compilable(self.entities(), fps as int)
                    &&& frames@.len() == frame_count(self.entities(), fps as int)
                    &&& forall|i: int|
                        0 <= i < frames@.len() ==> #[trigger] frames@[i]@ == frame_at(
                            self.statics().len() as int,
                            self.entities(),
                            fps as int,
                            i,
                        )
                    &&& forall|i: int|
                        0 <= i < frames@.len() ==> frame_fits(
                            self.statics().len() as int,
                            self.entities().len() as int,
                            (#[trigger] frames@[i])@,
                        )
                },
                Err(e) => e == Error::TimelineTooLong && !compilable(self.entities(), fps as int),
            },
    {
        let count: usize = match self.frame_count(fps) {
            Some(count) => count,
            None => {
                return Err(Error::TimelineTooLong);
            },
        };
        let ghost statics = self.statics().len() as int;
        let ghost entities = self.entities();
        let mut seed: Vec<Source> = Vec::with_capacity(self.objects.len());
        let mut k: usize = 0;
        while k < self.objects.len()
            invariant
                k <= self.objects@.len(),
                seed@ == static_sources(k as int),
            decreases self.objects@.len() - k,
        {
            seed.push(Source::Static(k));
            assert(seed@ =~= static_sources(k + 1));
            k += 1;
        }
        let mut frames: Vec<Frame> = Vec::with_capacity(count);
        let mut i: usize = 0;
        while i < count
            invariant
                fps > 0,
                i <= count,
                count == frame_count(entities, fps as int),
                frame_time(count - 1, fps as int) <= i64::MAX,
                seed@ == static_sources(statics),
                frames@.len() == i,
                forall|j: int|
                    0 <= j < i ==> #[trigger] frames@[j]@ == frame_at(
                        statics,
                        Seq::<AnimatedObject>::empty(),
                        fps as int,
                        j,
                    ),
            decreases count - i,
        {
            proof {
                lemma_frame_time_bounds(i as int, count - 1, fps as int);
            }
            assert(0 <= i * 1_000_000 <= 0x1_0000_0000_0000_0000 * 1_000_000) by (nonlinear_arith)
                requires
                    0 <= i <= 0x1_0000_0000_0000_0000,
            ;
            let time: i128 = div_floor(i as i128 * TICKS_PER_SECOND as i128, fps as i128);
            frames.push(
                Frame { index: i, time: time as i64, objects: seed.clone(), animations: Vec::new() },
            );
            assert forall|j: int| 0 <= j < i + 1 implies #[trigger] frames@[j]@ == frame_at(
                statics,
                Seq::<AnimatedObject>::empty(),
                fps as int,
                j,
            ) by {
                if j == i {
                    assert(frames@[j]@.objects =~= static_sources(statics) + steady_sources(
                        Seq::<AnimatedObject>::empty(),
                        fps as int,
                        j,
                    ));
                }
            }
            i += 1;
        }
        let mut k: usize = 0;
        while k < self.animations.len()
            invariant
                fps > 0,
                k <= self.animations@.len(),
                entities == self.entities(),
                frames@.len() == count,
                forall|j: int|
                    0 <= j < count ==> #[trigger] frames@[j]@ == frame_at(
                        statics,
                        entities.take(k as int),
                        fps as int,
                        j,
                    ),
            decreases self.animations@.len() - k,
        {
            let entity = &self.animations[k];
            let ghost before = frames@;
            let enter = frame_range(entity.enter.start, entity.enter.end, fps);
            activate(&mut frames, enter.0, enter.1, Activation { entity: k, phase: Phase::Enter });
            let ghost entered = frames@;
            let exit = frame_range(entity.exit.start, entity.exit.end, fps);
            activate(&mut frames, exit.0, exit.1, Activation { entity: k, phase: Phase::Exit });
            let ghost exited = frames@;
            let steady = frame_range(entity.enter.end, entity.exit.start, fps);
            show(&mut frames, steady.0, steady.1, Source::Steady(k));
            assert forall|j: int| 0 <= j < count implies #[trigger] frames@[j]@ == frame_at(
                statics,
                entities.take(k + 1),
                fps as int,
                j,
            ) by {
                let upto = entities.take(k + 1);
                assert(upto.drop_last() =~= entities.take(k as int));
                assert(upto[k as int] == entities[k as int]);
                assert(entities[k as int] == **entity);
                assert(before[j]@ == frame_at(statics, entities.take(k as int), fps as int, j));
                assert(entered[j]@.index == before[j]@.index);
                assert(exited[j]@.index == before[j]@.index);
                assert(frames@[j]@.objects =~= static_sources(statics) + steady_sources(
                    upto,
                    fps as int,
                    j,
                ));
            }
            k += 1;
        }
        assert(entities.take(k as int) =~= entities);
        assert forall|i: int| 0 <= i < frames@.len() implies frame_fits(
            statics,
            entities.len() as int,
            (#[trigger] frames@[i])@,
        ) by {
            lemma_frame_at_fits(statics, entities, fps as int, i);
        }
        Ok(frames)
    }

    /// Compiles the timeline as `calc_frames` does. Where `require_duration` is
    /// set, a timeline whose last exit animation ends at or before time zero is
    /// refused as empty.
    pub fn compile(&self, fps: u32, require_duration: bool) -> (r: Result<Vec<Frame>, Error>)
        requires
            fps > 0,
        ensures
            match r {
                Ok(frames) => {
                    &&& !(require_duration && end_time(self.entities()) <= 0)
                    &&& compilable(self.entities(), fps as int)
                    &&& frames@.len() == frame_count(self.entities(), fps as int)
                    &&& forall|i: int|
                        0 <= i < frames@.len() ==> #[trigger] frames@[i]@ == frame_at(
                            self.statics().len() as int,
                            self.entities(),
                            fps as int,
                            i,
                        )
                    &&& forall|i: int|
                        0 <= i < frames@.len() ==> frame_fits(
                            self.statics().len() as int,
                            self.entities().len() as int,
                            (#[trigger] frames@[i])@,
                        )
                },
                Err(e) => if require_duration && end_time(self.entities()) <= 0 {
                    e == Error::EmptyTimeline
                } else {
                    e == Error::TimelineTooLong && !compilable(self.entities(), fps as int)
                },
            },
    {
        if require_duration && self.end_time() <= 0 {
            return Err(Error::EmptyTimeline);
        }
        self.calc_frames(fps)
    }
}

} // verus!
