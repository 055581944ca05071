//! Scroll directions, and which user events ask for them. The widget that
//! performs the scrolling lives outside; this mapping is the decidable part.

use vstd::prelude::*;

use crate::events::UserEvent;

verus! {

/// A scroll request along one axis.
#[derive(Clone, Copy, Debug, PartialEq, Eq, Structural)]
pub enum Scroll {
    H(ScrollH),
    V(ScrollV),
}

/// Horizontal scrolling.
#[derive(Clone, Copy, Debug, PartialEq, Eq, Structural)]
pub enum ScrollH {
    Left,
    Right,
    Start,
    End,
}

/// Vertical scrolling.
#[derive(Clone, Copy, Debug, PartialEq, Eq, Structural)]
pub enum ScrollV {
    Down,
    Up,
    Start,
    End,
}

/// The scroll request a user event stands for, if it is one.
pub open spec fn scroll_of_event(evt: UserEvent) -> Result<Scroll, ()> {
    match evt {
        UserEvent::ScrollDown => Ok(Scroll::V(ScrollV::Down)),
        UserEvent::ScrollUp => Ok(Scroll::V(ScrollV::Up)),
        UserEvent::ScrollVStart => Ok(Scroll::V(ScrollV::Start)),
        UserEvent::ScrollVEnd => Ok(Scroll::V(ScrollV::End)),
        UserEvent::ScrollLeft => Ok(Scroll::H(ScrollH::Left)),
        UserEvent::ScrollRight => Ok(Scroll::H(ScrollH::Right)),
        UserEvent::ScrollHStart => Ok(Scroll::H(ScrollH::Start)),
        UserEvent::ScrollHEnd => Ok(Scroll::H(ScrollH::End)),
        _ => Err(()),
    }
}

impl core::convert::TryFrom<UserEvent> for Scroll {
    type Error = ();

    fn try_from(evt: UserEvent) -> (r: Result<Scroll, ()>) {
        match evt {
            UserEvent::ScrollDown => Ok(Scroll::V(ScrollV::Down)),
            UserEvent::ScrollUp => Ok(Scroll::V(ScrollV::Up)),
            UserEvent::ScrollVStart => Ok(Scroll::V(ScrollV::Start)),
            UserEvent::ScrollVEnd => Ok(Scroll::V(ScrollV::End)),
            UserEvent::ScrollLeft => Ok(Scroll::H(ScrollH::Left)),
            UserEvent::ScrollRight => Ok(Scroll::H(ScrollH::Right)),
            UserEvent::ScrollHStart => Ok(Scroll::H(ScrollH::Start)),
            UserEvent::ScrollHEnd => Ok(Scroll::H(ScrollH::End)),
            _ => Err(()),
        }
    }
}

impl vstd::std_specs::convert::TryFromSpecImpl<UserEvent> for Scroll {
    open spec fn obeys_try_from_spec() -> bool {
        true
    }

    open spec fn try_from_spec(evt: UserEvent) -> Result<Scroll, ()> {
        scroll_of_event(evt)
    }
}

} // verus!
