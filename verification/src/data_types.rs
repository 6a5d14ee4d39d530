//! Plain data carried through the manager: window ids, rectangles, command
//! directions, and the X requests that the core asks a driver to perform.

use vstd::prelude::*;

verus! {

/// An X window id: an opaque integer handed out by the X server.
pub type WinId = u32;

/// An axis-aligned pixel rectangle: a screen region or a client geometry.
#[derive(Clone, Copy, Debug, PartialEq, Eq, Structural)]
pub struct Region {
    pub x: u32,
    pub y: u32,
    pub w: u32,
    pub h: u32,
}

impl Region {
    pub fn new(x: u32, y: u32, w: u32, h: u32) -> (r: Region)
        ensures
            r == (Region { x, y, w, h }),
    {
        Region { x, y, w, h }
    }
}

/// Direction of travel around a ring (clients or layouts).
#[derive(Clone, Copy, Debug, PartialEq, Eq, Structural)]
pub enum Direction {
    Forward,
    Backward,
}

/// Requested adjustment of a layout parameter.
#[derive(Clone, Copy, Debug, PartialEq, Eq, Structural)]
pub enum Change {
    More,
    Less,
}

/// One X request that the core asks the driver to submit. The core computes
/// these; a driver owning the real connection performs them in order.
#[derive(Clone, Copy, Debug, PartialEq, Eq, Structural)]
pub enum XRequest {
    /// Set a window's geometry and border width.
    Configure { id: WinId, x: u32, y: u32, w: u32, h: u32, border: u32 },
    /// Map (show) a window.
    MapWindow(WinId),
    /// Unmap (hide) a window.
    UnmapWindow(WinId),
    /// Give a window the focused border colour and the input focus.
    Focus(WinId),
    /// Restore a window's unfocused border colour.
    Unfocus(WinId),
    /// Subscribe to enter/leave notifications on a window.
    Subscribe(WinId),
    /// Ask a window to close itself via `WM_DELETE_WINDOW`.
    DeleteWindow(WinId),
}

} // verus!
