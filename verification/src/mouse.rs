//! The drag session: what a button press captures for the following
//! pointer motion.
//!
//! A session exists only between a button press and the matching release.
//! It records where on the root the press happened, which child window it
//! targets, which button went down, and a best-effort geometry snapshot
//! taken at press time. Motion is always judged as a delta from this
//! snapshot; the geometry is never re-queried mid-drag.

use vstd::prelude::*;

use crate::Rect;

verus! {

/// A drag session captured at button-press time.
#[derive(Clone, Copy, Debug, PartialEq, Eq, Structural)]
pub struct MouseInfo {
    /// Pointer x on the root window at press time.
    pub root_x: i16,
    /// Pointer y on the root window at press time.
    pub root_y: i16,
    /// The child window the press targets.
    pub child: u32,
    /// The button that went down.
    pub detail: u8,
    /// Geometry of the target at press time; nothing when the query
    /// failed, which leaves the whole session inert.
    pub geo: Option<Rect>,
}

impl MouseInfo {
    /// Captures a session from the fields of a button-press event and the
    /// geometry snapshot queried at press time.
    pub fn new(root_x: i16, root_y: i16, child: u32, detail: u8, geo: Option<Rect>) -> (r:
        MouseInfo)
        ensures
            r == (MouseInfo { root_x, root_y, child, detail, geo }),
    {
        MouseInfo { root_x, root_y, child, detail, geo }
    }

    /// Repackages the fields of a motion event; motion events carry no
    /// geometry snapshot.
    pub fn motion(root_x: i16, root_y: i16, child: u32, detail: u8) -> (r: MouseInfo)
        ensures
            r == (MouseInfo { root_x, root_y, child, detail, geo: None::<Rect> }),
    {
        MouseInfo { root_x, root_y, child, detail, geo: None }
    }
}

} // verus!
