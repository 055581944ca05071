//! Core of an image browser: an ordered collection of image paths addressed by
//! stable keys, a cursor that steps through it, a coordinator that keeps at
//! most one load in flight and skips past entries that fail to load, and the
//! integer arithmetic that scales a loaded image to a viewport.
//!
//! Everything here is pure logic over plain values; the windowing toolkit,
//! file I/O and decoding live outside the library and talk to it through
//! events and actions.

pub mod collection;
pub mod config;
pub mod coordinator;
pub mod digits;
pub mod events;
pub mod math;
pub mod percent;
pub mod ratio;
pub mod scroll;
pub mod side_table;
