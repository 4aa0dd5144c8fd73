//! The vocabulary between the core and the display server.
//!
//! The core never talks to the server itself. Incoming protocol traffic
//! reaches it as already-decoded [`Event`] values; every effect it decides
//! on leaves it as a [`Command`] value that the surrounding shell performs
//! and flushes. Both are plain data, so every decision of the core is a
//! checkable function from state and event to state and commands.

use vstd::prelude::*;

verus! {

/// An outgoing request to the display server.
#[derive(Clone, Copy, Debug, PartialEq, Eq, Structural)]
pub enum Command {
    /// Make a window visible.
    MapWindow { window: u32 },
    /// Hide a window.
    UnmapWindow { window: u32 },
    /// Give a window the input focus.
    FocusWindow { window: u32 },
    /// Raise a window to the top of the stacking order.
    RaiseWindow { window: u32 },
    /// Subscribe to pointer enter/leave traffic on a window.
    WatchWindow { window: u32 },
    /// Ask a window to close itself gracefully.
    CloseWindow { window: u32 },
    /// Move a window to an absolute position.
    MoveWindow { window: u32, x: i64, y: i64 },
    /// Resize a window to an absolute size; both sides are positive.
    ResizeWindow { window: u32, width: i64, height: i64 },
    /// Install a passive grab for one keycode under a modifier mask.
    GrabKeycode { mods: u32, code: u8 },
}

/// One decoded protocol event, as the shell hands it to the core.
#[derive(Clone, Copy, Debug, PartialEq, Eq, Structural)]
pub enum Event {
    /// A window appeared.
    MapNotify { window: u32 },
    /// A window was destroyed.
    DestroyNotify { window: u32 },
    /// The pointer entered a window.
    EnterNotify { window: u32 },
    /// The pointer left a window.
    LeaveNotify { window: u32 },
    /// A pointer button went down. The shell queries the target's
    /// geometry at press time and passes the best-effort result along.
    ButtonPress {
        root_x: i16,
        root_y: i16,
        child: u32,
        detail: u8,
        geometry: Option<crate::Rect>,
    },
    /// The pointer moved while a grab was active.
    MotionNotify { root_x: i16, root_y: i16, child: u32, state: u16 },
    /// The pressed button went up again.
    ButtonRelease,
    /// A grabbed key went down.
    KeyPress { keycode: u8, state: u16 },
    /// Anything the core does not route; explicitly ignored.
    Unknown,
}

} // verus!
