//! The settings of a video and its timeline.

use vstd::prelude::*;
use crate::compose::{composited, drawn, layers};
use crate::error::Error;
use crate::shape::Visual;
use crate::timeline::{compilable, frame_at, frame_count, frame_fits, Frame, Timeline};

verus! {

/// A video in the making: its size in pixels, its frame rate and its timeline.
pub struct Renderer {
    width: usize,
    height: usize,
    fps: u32,
    timeline: Timeline,
}

impl Renderer {
    /// The width of the video in pixels.
    pub closed spec fn spec_width(&self) -> usize {
        self.width
    }

    /// The height of the video in pixels.
    pub closed spec fn spec_height(&self) -> usize {
        self.height
    }

    /// The number of frames per second.
    pub closed spec fn spec_fps(&self) -> u32 {
        self.fps
    }

    /// The timeline of the video.
    pub closed spec fn spec_timeline(&self) -> Timeline {
        self.timeline
    }

    /// A video of the given size at sixty frames per second, with an empty timeline.
    pub fn new(width: usize, height: usize) -> (r: Self)
        ensures
            r.spec_width() == width,
            r.spec_height() == height,
            r.spec_fps() == 60,
            r.spec_timeline().wf(),
            r.spec_timeline().statics().len() == 0,
            r.spec_timeline().entities().len() == 0,
    {
        Renderer { width, height, fps: 60, timeline: Timeline::new() }
    }

    /// Sets the number of frames per second.
    pub fn set_fps(&mut self, fps: u32) -> (r: &mut Self)
        ensures
            r.spec_fps() == fps,
            r.spec_width() == old(self).spec_width(),
            r.spec_height() == old(self).spec_height(),
            r.spec_timeline() == old(self).spec_timeline(),
            *final(self) == *final(r),
    {
        self.fps = fps;
        self
    }

    /// The timeline, to which objects and animations are added.
    pub fn timeline(&mut self) -> (r: &mut Timeline)
        ensures
            *r == old(self).spec_timeline(),
            final(self).spec_timeline() == *final(r),
            final(self).spec_width() == old(self).spec_width(),
            final(self).spec_height() == old(self).spec_height(),
            final(self).spec_fps() == old(self).spec_fps(),
    {
        &mut self.timeline
    }

    /// The width of the video in pixels.
    pub fn width(&self) -> (w: usize)
        ensures
            w == self.spec_width(),
    {
        self.width
    }

    /// The height of the video in pixels.
    pub fn height(&self) -> (h: usize)
        ensures
            h == self.spec_height(),
    {
        self.height
    }

    /// The number of frames per second.
    pub fn fps(&self) -> (f: u32)
        ensures
            f == self.spec_fps(),
    {
        self.fps
    }

    /// Compiles the timeline into the frames of the video. See `Timeline::calc_frames`.
    pub fn calc_frames(&self) -> (r: Result<Vec<Frame>, Error>)
        requires
            self.spec_fps() > 0,
        ensures
            match r {
                Ok(frames) => {
                    &&& compilable(self.spec_timeline().entities(), self.spec_fps() as int)
                    &&& frames@.len() == frame_count(
                        self.spec_timeline().entities(),
                        self.spec_fps() as int,
                    )
                    &&& forall|i: int|
                        0 <= i < frames@.len() ==> #[trigger] frames@[i]@ == frame_at(
                            self.spec_timeline().statics().len() as int,
                            self.spec_timeline().entities(),
                            self.spec_fps() as int,
                            i,
                        )
                    &&& forall|i: int|
                        0 <= i < frames@.len() ==> frame_fits(
                            self.spec_timeline().statics().len() as int,
                            self.spec_timeline().entities().len() as int,
                            (#[trigger] frames@[i])@,
                        )
                },
                Err(e) => e == Error::TimelineTooLong && !compilable(
                    self.spec_timeline().entities(),
                    self.spec_fps() as int,
                ),
            },
    {
        self.timeline.calc_frames(self.fps)
    }

    /// Whether every reference of the frame names something on the timeline of
    /// this video. See `Timeline::fits`.
    pub fn fits(&self, frame: &Frame) -> (r: bool)
        ensures
            r == frame_fits(
                self.spec_timeline().statics().len() as int,
                self.spec_timeline().entities().len() as int,
                frame@,
            ),
    {
        self.timeline.fits(frame)
    }

    /// All that a frame of the video shows, from the lowest layer to the topmost.
    /// See `Timeline::render_frame`.
    pub fn render_frame(&self, frame: &Frame) -> (r: Vec<(isize, Visual)>)
        requires
            self.spec_timeline().wf(),
            frame_fits(
                self.spec_timeline().statics().len() as int,
                self.spec_timeline().entities().len() as int,
                frame@,
            ),
        ensures
            layers(r@) == composited(
                drawn(self.spec_timeline().statics(), self.spec_timeline().entities(), frame@),
            ),
    {
        self.timeline.render_frame(frame)
    }
}

} // verus!
