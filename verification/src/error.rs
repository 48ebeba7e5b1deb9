//! The ways in which building or compiling an animation can fail.

use vstd::prelude::*;

verus! {

/// Why an operation of this crate refused its input.
#[derive(Clone, Copy, PartialEq, Eq, Structural, Debug)]
pub enum Error {
    /// A time window ends before it starts.
    DegenerateInterval,
    /// A polygon without points was given where a shape is needed.
    DegeneratePolygon,
    /// Two polygons differ in their number of points where equal numbers were asked for.
    MismatchedMorphInput,
    /// The timeline has no duration, and the caller asked for one.
    EmptyTimeline,
    /// The timeline needs more frames, or later frame times, than the machine can count.
    TimelineTooLong,
}

impl Error {
    /// A sentence that says what went wrong.
    pub fn message(&self) -> (text: &'static str)
        ensures
            text@ == match self {
                Error::DegenerateInterval => "a time window ends before it starts"@,
                Error::DegeneratePolygon => "a polygon has no points"@,
                Error::MismatchedMorphInput => "the polygons differ in their number of points"@,
                Error::EmptyTimeline => "the timeline has no duration"@,
                Error::TimelineTooLong => "the timeline has too many frames"@,
            },
    {
        match self {
            Error::DegenerateInterval => "a time window ends before it starts",
            Error::DegeneratePolygon => "a polygon has no points",
            Error::MismatchedMorphInput => "the polygons differ in their number of points",
            Error::EmptyTimeline => "the timeline has no duration",
            Error::TimelineTooLong => "the timeline has too many frames",
        }
    }
}

} // verus!
