//! One workspace: a group of floating windows with a focus pointer and an
//! optional monocle window.
//!
//! Invariants kept by every operation: the focus index lies in
//! `[0, floating.len())` whenever the floating list is non-empty and is 0
//! when it is empty; the floating list holds no window twice; and the
//! monocle window, when set, is never also in the floating list.

use vstd::prelude::*;

use crate::command::Command;
use crate::key::Key;
use crate::Rect;

verus! {

/// Clamps a focus index against a list length: the last valid index when
/// it runs past the end, 0 when the list is empty.
pub open spec fn clamped(focus: int, len: int) -> int {
    if len <= 0 {
        0
    } else if focus >= len {
        len - 1
    } else {
        focus
    }
}

/// The map commands that make every window of `windows` visible, in order.
pub open spec fn map_commands(windows: Seq<u32>) -> Seq<Command> {
    windows.map_values(|w: u32| Command::MapWindow { window: w })
}

/// The unmap commands that hide every window of `windows`, in order.
pub open spec fn unmap_commands(windows: Seq<u32>) -> Seq<Command> {
    windows.map_values(|w: u32| Command::UnmapWindow { window: w })
}

/// The commands that make every member of `ws` visible: the floating
/// members in order, then the monocle window if one is set.
pub open spec fn show_commands(ws: Workspace) -> Seq<Command> {
    map_commands(ws.floating@) + (match ws.monocle {
        Some(m) => seq![Command::MapWindow { window: m }],
        None => Seq::<Command>::empty(),
    })
}

/// The commands that hide every member of `ws`: the floating members in
/// order, then the monocle window if one is set.
pub open spec fn conceal_commands(ws: Workspace) -> Seq<Command> {
    unmap_commands(ws.floating@) + (match ws.monocle {
        Some(m) => seq![Command::UnmapWindow { window: m }],
        None => Seq::<Command>::empty(),
    })
}

/// How [`Workspace::add`] changes a workspace: the window is appended to
/// the floating list and focused; everything else stays.
pub open spec fn added_to(pre: Workspace, post: Workspace, window: u32) -> bool {
    &&& post.floating@ == pre.floating@.push(window)
    &&& post.focus == pre.floating@.len()
    &&& post.monocle == pre.monocle
    &&& post.trigger == pre.trigger
    &&& post.previous_geometry == pre.previous_geometry
}

/// How [`Workspace::remove`] changes a workspace: the window's first
/// floating occurrence is dropped, the focus is clamped back into range,
/// and a removed monocle window clears the monocle flag; everything else
/// stays, and the window is gone afterwards.
pub open spec fn removed_from(pre: Workspace, post: Workspace, window: u32) -> bool {
    &&& pre.floating@.contains(window) ==> post.floating@ == pre.floating@.remove(
        pre.floating@.index_of(window),
    )
    &&& !pre.floating@.contains(window) ==> post.floating@ == pre.floating@
    &&& !post.spec_contains(window)
    &&& post.focus == clamped(pre.focus as int, post.floating@.len() as int)
    &&& post.monocle == (if pre.monocle == Some(window) {
        None::<u32>
    } else {
        pre.monocle
    })
    &&& post.trigger == pre.trigger
    &&& post.previous_geometry == pre.previous_geometry
}

/// A group of windows switchable as a unit, with its own focus state.
pub struct Workspace {
    /// The semantic key that activates this workspace.
    pub trigger: Key,
    /// The member windows in insertion order, without the monocle window.
    pub floating: Vec<u32>,
    /// The window shown in exclusive monocle mode, if any.
    pub monocle: Option<u32>,
    /// Geometry remembered across monocle promotion, if any.
    pub previous_geometry: Option<Rect>,
    /// Index of the focused window within `floating`.
    pub focus: usize,
}

impl Workspace {
    /// The focus index is valid: inside the list when the list is
    /// non-empty, 0 when it is empty.
    pub open spec fn focus_ok(self) -> bool {
        if self.floating@.len() == 0 {
            self.focus == 0
        } else {
            self.focus < self.floating@.len()
        }
    }

    /// No window appears twice in the floating list.
    pub open spec fn floating_distinct(self) -> bool {
        forall|i: int, j: int|
            0 <= i < j < self.floating@.len() ==> self.floating@[i] != self.floating@[j]
    }

    /// The monocle window is never also a floating member.
    pub open spec fn monocle_apart(self) -> bool {
        match self.monocle {
            Some(m) => !self.floating@.contains(m),
            None => true,
        }
    }

    /// Well-formedness: all three invariants above.
    pub open spec fn wf(self) -> bool {
        self.focus_ok() && self.floating_distinct() && self.monocle_apart()
    }

    /// Whether this workspace holds the window, floating or monocled.
    pub open spec fn spec_contains(self, window: u32) -> bool {
        self.floating@.contains(window) || self.monocle == Some(window)
    }

    /// The focused window: the floating member at the focus index, or
    /// nothing when the floating list is empty.
    pub open spec fn spec_focus(self) -> Option<u32> {
        if self.floating@.len() == 0 {
            None
        } else {
            Some(self.floating@[self.focus as int])
        }
    }

    /// The floating list after promoting the focused window to monocle.
    pub open spec fn promoted_floating(self) -> Seq<u32> {
        self.floating@.remove(self.focus as int)
    }

    /// The focus index recorded at promotion time: the old index clamped
    /// against the shortened list.
    pub open spec fn promoted_focus(self) -> int {
        clamped(self.focus as int, self.floating@.len() - 1)
    }

    /// A fresh workspace activated by `trigger`: no windows, focus 0.
    pub fn new(trigger: Key) -> (r: Workspace)
        ensures
            r.trigger == trigger,
            r.floating@.len() == 0,
            r.monocle is None,
            r.previous_geometry is None,
            r.focus == 0,
            r.wf(),
    {
        Workspace {
            trigger,
            floating: Vec::new(),
            monocle: None,
            previous_geometry: None,
            focus: 0,
        }
    }

    /// Appends a window and focuses it. The caller keeps every window in
    /// at most one place, so the window must not already be present here.
    pub fn add(&mut self, window: u32)
        requires
            old(self).wf(),
            !old(self).spec_contains(window),
        ensures
            added_to(*old(self), *final(self), window),
            final(self).wf(),
    {
        self.floating.push(window);
        self.focus = self.floating.len() - 1;
    }

    /// Drops a window from the floating list if present, clamping the
    /// focus back into range; a destroyed monocle window clears the
    /// monocle flag rather than stranding it.
    pub fn remove(&mut self, window: u32)
        requires
            old(self).wf(),
        ensures
            removed_from(*old(self), *final(self), window),
            final(self).wf(),
    {
        match self.find(window) {
            Some(i) => {
                self.floating.remove(i);
                proof {
                    let f = old(self).floating@;
                    let w = f.index_of(window);
                    assert(f[i as int] == window && f[w] == window);
                    assert(w == i);
                    assert(forall|k: int| 0 <= k < self.floating@.len()
                        ==> self.floating@[k] == (if k < i { f[k] } else { f[k + 1] }));
                    assert(!self.floating@.contains(window));
                }
            },
            None => {},
        }
        if self.focus >= self.floating.len() {
            if self.floating.len() == 0 {
                self.focus = 0;
            } else {
                self.focus = self.floating.len() - 1;
            }
        }
        if self.monocle == Some(window) {
            self.monocle = None;
        }
    }

    /// The focused window, or nothing when the floating list is empty.
    pub fn get_focus(&self) -> (r: Option<u32>)
        requires
            self.wf(),
        ensures
            r == self.spec_focus(),
    {
        if self.floating.len() == 0 {
            None
        } else {
            Some(self.floating[self.focus])
        }
    }

    /// Focuses a window that is a floating member of this workspace.
    pub fn set_focus(&mut self, window: u32)
        requires
            old(self).wf(),
            old(self).floating@.contains(window),
        ensures
            final(self).floating@ == old(self).floating@,
            final(self).floating@[final(self).focus as int] == window,
            final(self).focus == old(self).floating@.index_of(window),
            final(self).monocle == old(self).monocle,
            final(self).trigger == old(self).trigger,
            final(self).previous_geometry == old(self).previous_geometry,
            final(self).wf(),
    {
        let found = self.find(window);
        match found {
            Some(i) => {
                self.focus = i;
                proof {
                    let f = old(self).floating@;
                    let w = f.index_of(window);
                    assert(f[i as int] == window && f[w] == window);
                    assert(w == i);
                }
            },
            None => {
                proof {
                    assert(false);
                }
            },
        }
    }

    /// Promotes the focused window to monocle mode: removes it from the
    /// floating list and stores it, returning it. A no-op returning
    /// nothing when already monocled or when the floating list is empty.
    pub fn set_monocle(&mut self) -> (r: Option<u32>)
        requires
            old(self).wf(),
        ensures
            (old(self).monocle is Some || old(self).floating@.len() == 0) ==> {
                &&& r is None
                &&& *final(self) == *old(self)
            },
            (old(self).monocle is None && old(self).floating@.len() > 0) ==> {
                let w = old(self).floating@[old(self).focus as int];
                &&& r == Some(w)
                &&& final(self).monocle == Some(w)
                &&& final(self).floating@ == old(self).promoted_floating()
                &&& final(self).focus == old(self).promoted_focus()
                &&& final(self).trigger == old(self).trigger
                &&& final(self).previous_geometry == old(self).previous_geometry
            },
            final(self).wf(),
    {
        if self.monocle.is_some() || self.floating.len() == 0 {
            return None;
        }
        let window = self.floating.remove(self.focus);
        if self.focus >= self.floating.len() {
            if self.floating.len() == 0 {
                self.focus = 0;
            } else {
                self.focus = self.floating.len() - 1;
            }
        }
        self.monocle = Some(window);
        proof {
            let f = old(self).floating@;
            let i = old(self).focus as int;
            assert(forall|k: int| 0 <= k < self.floating@.len()
                ==> self.floating@[k] == (if k < i { f[k] } else { f[k + 1] }));
            assert(!self.floating@.contains(window));
        }
        Some(window)
    }

    /// The monocle window, if one is set.
    pub fn get_monocle(&self) -> (r: Option<u32>)
        ensures
            r == self.monocle,
    {
        self.monocle
    }

    /// Leaves monocle mode: reinserts the stored window into the floating
    /// list at the current focus position and returns it. A no-op
    /// returning nothing when not monocled.
    pub fn clear_monocle(&mut self) -> (r: Option<u32>)
        requires
            old(self).wf(),
        ensures
            old(self).monocle is None ==> {
                &&& r is None
                &&& *final(self) == *old(self)
            },
            match old(self).monocle {
                Some(m) => {
                    &&& r == Some(m)
                    &&& final(self).monocle is None
                    &&& final(self).floating@
                        == old(self).floating@.insert(old(self).focus as int, m)
                    &&& final(self).focus == old(self).focus
                    &&& final(self).trigger == old(self).trigger
                    &&& final(self).previous_geometry == old(self).previous_geometry
                },
                None => true,
            },
            final(self).wf(),
    {
        match self.monocle {
            None => None,
            Some(monocle) => {
                self.floating.insert(self.focus, monocle);
                self.monocle = None;
                proof {
                    let f = old(self).floating@;
                    let i = old(self).focus as int;
                    f.insert_ensures(i, monocle);
                    assert(forall|k: int| 0 <= k < self.floating@.len()
                        ==> self.floating@[k] == (if k < i {
                            f[k]
                        } else if k == i {
                            monocle
                        } else {
                            f[k - 1]
                        }));
                }
                Some(monocle)
            },
        }
    }

    /// The commands that make every member window visible, floating
    /// members in order and the monocle window last. Pure command
    /// emission; no state change.
    pub fn show(&self) -> (r: Vec<Command>)
        ensures
            r@ == show_commands(*self),
    {
        let mut r: Vec<Command> = Vec::new();
        let mut i: usize = 0;
        while i < self.floating.len()
            invariant
                i <= self.floating@.len(),
                r@.len() == i,
                forall|k: int| 0 <= k < i
                    ==> r@[k] == (Command::MapWindow { window: self.floating@[k] }),
            decreases self.floating@.len() - i,
        {
            r.push(Command::MapWindow { window: self.floating[i] });
            i = i + 1;
        }
        match self.monocle {
            Some(m) => {
                r.push(Command::MapWindow { window: m });
            },
            None => {},
        }
        proof {
            assert(r@ =~= map_commands(self.floating@) + (match self.monocle {
                Some(m) => seq![Command::MapWindow { window: m }],
                None => Seq::<Command>::empty(),
            }));
        }
        r
    }

    /// The commands that hide every member window, floating members in
    /// order and the monocle window last. Pure command emission; no state
    /// change.
    pub fn conceal(&self) -> (r: Vec<Command>)
        ensures
            r@ == conceal_commands(*self),
    {
        let mut r: Vec<Command> = Vec::new();
        let mut i: usize = 0;
        while i < self.floating.len()
            invariant
                i <= self.floating@.len(),
                r@.len() == i,
                forall|k: int| 0 <= k < i
                    ==> r@[k] == (Command::UnmapWindow { window: self.floating@[k] }),
            decreases self.floating@.len() - i,
        {
            r.push(Command::UnmapWindow { window: self.floating[i] });
            i = i + 1;
        }
        match self.monocle {
            Some(m) => {
                r.push(Command::UnmapWindow { window: m });
            },
            None => {},
        }
        proof {
            assert(r@ =~= unmap_commands(self.floating@) + (match self.monocle {
                Some(m) => seq![Command::UnmapWindow { window: m }],
                None => Seq::<Command>::empty(),
            }));
        }
        r
    }

    /// Whether this workspace holds the window, floating or monocled.
    pub fn contains(&self, window: u32) -> (r: bool)
        ensures
            r == self.spec_contains(window),
    {
        if self.find(window).is_some() {
            true
        } else {
            match self.monocle {
                Some(m) => m == window,
                None => false,
            }
        }
    }

    /// The window's position within the floating list: nothing when it is
    /// absent or when it is the monocle window, distinguishing "has a
    /// floating position" from "is present at all".
    pub fn find(&self, window: u32) -> (r: Option<usize>)
        ensures
            match r {
                Some(i) => i < self.floating@.len() && self.floating@[i as int] == window,
                None => !self.floating@.contains(window),
            },
    {
        let mut i: usize = 0;
        while i < self.floating.len()
            invariant
                i <= self.floating@.len(),
                forall|k: int| 0 <= k < i ==> self.floating@[k] != window,
            decreases self.floating@.len() - i,
        {
            if self.floating[i] == window {
                return Some(i);
            }
            i = i + 1;
        }
        None
    }
}

/// The focus pointer is always accounted for: in a well-formed workspace
/// the focus index is a valid position whenever any window floats, and
/// there is a focused window exactly when the floating list is non-empty.
pub proof fn lemma_focus_in_range(ws: Workspace)
    requires
        ws.wf(),
    ensures
        ws.floating@.len() > 0 ==> 0 <= ws.focus < ws.floating@.len(),
        (ws.spec_focus() is None) <==> ws.floating@.len() == 0,
{
}

/// Membership is exclusive: a held window is in the floating list or is
/// the monocle window, never both at once.
pub proof fn lemma_contains_exclusive(ws: Workspace, window: u32)
    requires
        ws.wf(),
    ensures
        ws.spec_contains(window) == (ws.floating@.contains(window)
            != (ws.monocle == Some(window))),
        !(ws.floating@.contains(window) && ws.monocle == Some(window)),
{
}

/// Clearing the monocle restores exactly the window last promoted,
/// reinserted at the focus position recorded at promotion time: promoting
/// the focused window `w` and then clearing the monocle puts `w` back at
/// the recorded index, changes nothing else, and restores the earlier
/// floating list outright whenever `w` was not its last element.
pub proof fn lemma_promote_then_clear(ws: Workspace)
    requires
        ws.wf(),
        ws.monocle is None,
        ws.floating@.len() > 0,
    ensures
        ({
            let w = ws.floating@[ws.focus as int];
            let f1 = ws.promoted_floating();
            let k1 = ws.promoted_focus();
            let f2 = f1.insert(k1, w);
            &&& f2[k1] == w
            &&& f2.remove(k1) == f1
            &&& ws.focus < ws.floating@.len() - 1 ==> f2 == ws.floating@
            &&& ws.floating@.len() == 1 ==> f2 == ws.floating@
        }),
{
    let w = ws.floating@[ws.focus as int];
    let f1 = ws.promoted_floating();
    let k1 = ws.promoted_focus();
    let f2 = f1.insert(k1, w);
    f1.insert_ensures(k1, w);
    assert(f2.remove(k1) =~= f1);
    if ws.focus < ws.floating@.len() - 1 || ws.floating@.len() == 1 {
        assert(f2 =~= ws.floating@);
    }
}

} // verus!
