//! Choices that shape a simulation.

use vstd::prelude::*;

verus! {

/// The shape of the path that a simulation starts from.
#[derive(Clone, Copy, Debug, PartialEq, Eq, Structural)]
pub enum InitializationType {
    /// A line across the canvas at half its height.
    HorizontalLine,
    /// A line down the canvas at half its width.
    VerticalLine,
    /// A regular polygon around the centre of the canvas.
    Polygon,
}

impl InitializationType {
    /// Whether a path of this shape is closed. Only a polygon is.
    pub open spec fn closes(self) -> bool {
        self is Polygon
    }

    /// Whether a path of this shape is closed. Only a polygon is.
    pub fn is_cyclic(self) -> (cyclic: bool)
        ensures
            cyclic == self.closes(),
    {
        match self {
            InitializationType::Polygon => true,
            InitializationType::HorizontalLine => false,
            InitializationType::VerticalLine => false,
        }
    }
}

/// The region outside of which nodes freeze.
#[derive(Clone, Copy, Debug, PartialEq, Eq, Structural)]
pub enum BoundsType {
    /// The whole plane.
    Unbounded,
    /// The canvas.
    View,
    /// A rectangle around the centre of the canvas.
    Rect,
    /// A circle around the centre of the canvas.
    Circle,
}

/// Whether the frames of a simulation are being recorded.
#[derive(Clone, Copy, Debug, PartialEq, Eq, Structural)]
pub struct RecordingConfig {
    pub recording: bool,
}

impl RecordingConfig {
    /// Not recording.
    pub fn new() -> (config: Self)
        ensures
            !config.recording,
    {
        RecordingConfig { recording: false }
    }
}

impl Default for RecordingConfig {
    fn default() -> (config: Self)
        ensures
            !config.recording,
    {
        RecordingConfig::new()
    }
}

} // verus!
