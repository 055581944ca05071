//! The read-only values a session is configured with: scaling policy,
//! interpolation choice, zoom step size and window geometry. They are read
//! once at startup by an outside loader and handed in as plain values.

use vstd::prelude::*;

use crate::percent::Percent;
use crate::ratio::Ratio;

verus! {

/// How a freshly loaded image is scaled to the viewport.
#[derive(Debug, Clone, Copy, PartialEq, Eq, Structural)]
pub enum ImageScaling {
    FitToWidth,
    FitToHeight,
    Fit,
    NoScaling,
}

/// The interpolation algorithm handed to the renderer; opaque to the core.
#[derive(Debug, Clone, Copy, PartialEq, Eq, Structural)]
pub enum InterpTypeDef {
    Nearest,
    Tiles,
    Bilinear,
    Hyper,
}

/// The initial window geometry: a fraction of the screen, shaped to a ratio.
#[derive(Debug, Clone, Copy, PartialEq, Eq, Structural)]
pub struct Geometry {
    pub scale: Percent,
    pub aspect_ratio: Ratio,
}

/// The per-mode part of the configuration.
#[derive(Debug, Clone, Copy, PartialEq, Eq, Structural)]
pub struct Mode {
    pub initial_scaling: ImageScaling,
    pub hide_status: bool,
    pub geometry: Geometry,
}

/// One `Mode` for browsing plain images, one for browsing archives.
#[derive(Debug, Clone, Copy, PartialEq, Eq, Structural)]
pub struct ModeEntry {
    pub image: Mode,
    pub archive: Mode,
}

/// What kind of input the session was started on.
#[derive(Debug, Clone, Copy, PartialEq, Eq, Structural)]
pub enum ViewerMode {
    Image,
    Archive,
}

impl ModeEntry {
    /// The mode that applies to this kind of session.
    pub fn select(self, mode: ViewerMode) -> (r: Mode)
        ensures
            mode matches ViewerMode::Image ==> r == self.image,
            mode matches ViewerMode::Archive ==> r == self.archive,
    {
        match mode {
            ViewerMode::Image => self.image,
            ViewerMode::Archive => self.archive,
        }
    }
}

/// The configuration the coordinator works with for one session.
#[derive(Debug, Clone, Copy, PartialEq, Eq, Structural)]
pub struct Config {
    pub show_scrollbars: bool,
    pub interpolation_algorithm: InterpTypeDef,
    pub zoom_step_size: Percent,
    pub mode: Mode,
}

} // verus!
