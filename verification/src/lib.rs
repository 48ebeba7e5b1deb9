//! Timing, scheduling and shape-morphing core of an animation engine.
//!
//! A video is described by objects and by animations in time windows. The
//! timeline compiles them into frames, each naming what it shows; a frame is
//! then put together layer upon layer. Polygons with different numbers of
//! points are matched point by point so that one can turn into the other.
//!
//! All quantities are integers in fixed units: times in ticks, progress in
//! parts of a whole, lengths in units of a pixel. See `units`.

pub mod animations;
pub mod color;
pub mod compose;
pub mod correspondence;
pub mod error;
pub mod geometry;
pub mod objects;
pub mod renderer;
pub mod shape;
pub mod timeline;
pub mod units;

pub use color::Color;
pub use renderer::Renderer;
pub use timeline::Timeline;
