//! The messages that flow between the outside shell and the coordinator:
//! user actions, and the asynchronous outcomes of a load operation.

use vstd::prelude::*;

use crate::collection::StableKey;
use crate::coordinator::ImageMeta;
use crate::math::Pixels;

verus! {

/// An abstract user action, produced by the key-binding table.
#[derive(Debug, Clone, Copy, PartialEq, Eq, Structural)]
pub enum UserEvent {
    Quit,
    Next,
    Previous,
    ScaleToFitCurrent,
    OriginalSize,
    ResizeToFitImage,
    ZoomOut,
    ZoomIn,
    ScrollDown,
    ScrollUp,
    ScrollLeft,
    ScrollRight,
    ScrollVStart,
    ScrollVEnd,
    ScrollHStart,
    ScrollHEnd,
    ToggleStatus,
    JumpToStart,
    JumpToEnd,
    RotateClockwise,
    RotateCounterClockwise,
    RotateUpsideDown,
}

/// A physical key, by its key value.
#[derive(PartialEq, Eq, Hash, Debug, Clone, Copy, Structural)]
pub struct KeyPress(pub u32);

/// Why a load operation failed; every kind is handled alike, by removing the
/// entry and skipping on.
#[derive(Debug, Clone, Copy, PartialEq, Eq, Structural)]
pub enum LoadError {
    /// The file could not be opened or streamed.
    UnreadableFile,
    /// The decoder rejected the content.
    UnsupportedFormat,
    /// The probe for size and dimensions failed terminally.
    MetadataProbeFailed,
}

/// An event delivered to the coordinator's loop, serially and in order.
#[derive(Debug)]
pub enum Event {
    User(UserEvent),
    ImageLoaded { id: StableKey, handle: u64, size: Pixels },
    ImageMeta { id: StableKey, meta: ImageMeta },
    LoadFailed { id: StableKey, err: LoadError },
    Quit,
}

} // verus!
