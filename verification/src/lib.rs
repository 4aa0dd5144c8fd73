//! Control core of a minimal floating-window manager for an X-style
//! display protocol.
//!
//! The core tracks which windows exist, which one is focused, groups
//! windows into switchable workspaces, resolves keyboard shortcuts, and
//! drives interactive move/resize via pointer drags. It performs no I/O
//! itself: every decision is returned as plain command values that a thin
//! shell executes against the display server.

use vstd::prelude::*;

pub mod command;
pub mod config;
pub mod key;
pub mod mouse;
pub mod window;
pub mod wm;

verus! {

/// A rectangle as the display protocol reports window geometry:
/// a signed 16-bit position and an unsigned 16-bit size.
#[derive(Clone, Copy, Debug, PartialEq, Eq, Structural)]
pub struct Rect {
    pub x: i16,
    pub y: i16,
    pub width: u16,
    pub height: u16,
}

} // verus!
