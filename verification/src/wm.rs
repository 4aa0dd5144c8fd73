//! The window-manager core: workspaces, the active index, the binding
//! registry, the symbol table and the drag session, with the decision
//! logic that turns decoded protocol events into state changes and
//! outgoing commands.
//!
//! The surrounding shell owns the display connection. It decodes each
//! protocol event into an [`Event`], hands it to [`StarMan::handle_event`],
//! performs the returned commands, invokes the returned handler if any,
//! and flushes before waiting for the next event.

use vstd::prelude::*;

use crate::Rect;
use crate::command::{Command, Event};
use crate::config::{Config, Handler};
use crate::key::{Key, SymTable, codes_with_sym};
use crate::mouse::MouseInfo;
use crate::window::{
    Workspace,
    added_to,
    conceal_commands,
    removed_from,
    show_commands,
};

verus! {

/// The motion state that selects the resize chord: left button held
/// together with the meta and shift modifiers.
pub const RESIZE_CHORD: u16 = 0x141;

/// The whole window-manager state, owned exclusively by the dispatch
/// loop; nothing else mutates it.
pub struct StarMan {
    /// The binding registry and static configuration.
    pub conf: Config,
    /// The keycode-to-symbol table, read once at startup.
    pub keymap: SymTable,
    /// All workspaces, in trigger order.
    pub workspaces: Vec<Workspace>,
    /// Index of the active workspace, the only one whose windows are
    /// mapped.
    pub workspace: usize,
    /// The drag session between a button press and its release, if any.
    pub mouse: Option<MouseInfo>,
}

/// The parts of the state that a drag interaction never touches.
pub open spec fn same_but_mouse(pre: StarMan, post: StarMan) -> bool {
    &&& post.conf == pre.conf
    &&& post.keymap == pre.keymap
    &&& post.workspaces@ == pre.workspaces@
    &&& post.workspace == pre.workspace
}

/// What a motion event under an armed drag session commands. Nothing
/// moves on a zero delta (a click, not a drag), on a session started
/// with a button other than the left one, or on a session whose geometry
/// snapshot failed. Under the resize chord the new size is the snapshot
/// plus the delta, commanded only when both sides stay positive; any
/// other chord moves the window to the snapshot position plus the delta.
pub open spec fn motion_command(
    mouse: Option<MouseInfo>,
    root_x: i16,
    root_y: i16,
    state: u16,
) -> Option<Command> {
    match mouse {
        None => None,
        Some(start) => {
            let dx = root_x - start.root_x;
            let dy = root_y - start.root_y;
            if (dx == 0 && dy == 0) || start.detail != 1 {
                None
            } else {
                match start.geo {
                    None => None,
                    Some(g) => if state == RESIZE_CHORD {
                        if g.width + dx > 0 && g.height + dy > 0 {
                            Some(
                                Command::ResizeWindow {
                                    window: start.child,
                                    width: (g.width + dx) as i64,
                                    height: (g.height + dy) as i64,
                                },
                            )
                        } else {
                            None
                        }
                    } else {
                        Some(
                            Command::MoveWindow {
                                window: start.child,
                                x: (g.x + dx) as i64,
                                y: (g.y + dy) as i64,
                            },
                        )
                    },
                }
            }
        },
    }
}

/// Well-formedness does not read the drag session: it carries over to any
/// state with the same workspaces whose active index is still in range
/// and whose registry and symbol table are well-formed.
proof fn lemma_wf_same_core(pre: StarMan, post: StarMan)
    requires
        pre.wf(),
        post.workspaces@ == pre.workspaces@,
        post.workspace < post.workspaces@.len(),
        post.conf.wf(),
        post.keymap.wf(),
    ensures
        post.wf(),
{
    assert forall|i: int| 0 <= i < post.workspaces@.len() implies (#[trigger] post.ws(
        i,
    )).wf() by {
        assert(post.ws(i) == pre.ws(i));
        assert(pre.ws(i).wf());
    }
    assert forall|i: int, j: int, w: u32|
        0 <= i < post.workspaces@.len() && 0 <= j < post.workspaces@.len() && i != j
            && #[trigger] post.ws(i).spec_contains(w) implies !#[trigger] post.ws(
        j,
    ).spec_contains(w) by {
        assert(post.ws(i) == pre.ws(i));
        assert(post.ws(j) == pre.ws(j));
        assert(pre.ws(i).spec_contains(w));
    }
}

/// Replacing the workspace at position `i` preserves well-formedness as
/// long as the replacement is itself well-formed and holds no window
/// beyond the old one's, except possibly one window (`extra`) that no
/// workspace held before.
proof fn lemma_wf_update(pre: StarMan, post: StarMan, i: int, extra: Option<u32>)
    requires
        pre.wf(),
        0 <= i < pre.workspaces@.len(),
        post.workspace < post.workspaces@.len(),
        post.conf == pre.conf,
        post.keymap == pre.keymap,
        post.workspaces@.len() == pre.workspaces@.len(),
        forall|k: int|
            0 <= k < pre.workspaces@.len() && k != i ==> post.ws(k) == pre.ws(k),
        post.ws(i).wf(),
        forall|x: u32|
            #[trigger] post.ws(i).spec_contains(x) ==> pre.ws(i).spec_contains(x) || (extra
                == Some(x) && !pre.spec_tracked(x)),
    ensures
        post.wf(),
{
    assert forall|k: int| 0 <= k < post.workspaces@.len() implies (#[trigger] post.ws(
        k,
    )).wf() by {
        if k != i {
            assert(post.ws(k) == pre.ws(k));
            assert(pre.ws(k).wf());
        }
    }
    assert forall|a: int, b: int, w: u32|
        0 <= a < post.workspaces@.len() && 0 <= b < post.workspaces@.len() && a != b
            && #[trigger] post.ws(a).spec_contains(w) implies !#[trigger] post.ws(
        b,
    ).spec_contains(w) by {
        if post.ws(b).spec_contains(w) {
            if a == i {
                assert(post.ws(b) == pre.ws(b));
                if pre.ws(i).spec_contains(w) {
                    assert(!pre.ws(b).spec_contains(w));
                } else {
                    assert(extra == Some(w) && !pre.spec_tracked(w));
                    assert(pre.ws(b).spec_contains(w) ==> pre.spec_tracked(w));
                }
            } else if b == i {
                assert(post.ws(a) == pre.ws(a));
                assert(pre.ws(a).spec_contains(w));
                if pre.ws(i).spec_contains(w) {
                    assert(!pre.ws(a).spec_contains(w));
                } else {
                    assert(extra == Some(w) && !pre.spec_tracked(w));
                    assert(pre.ws(a).spec_contains(w) ==> pre.spec_tracked(w));
                }
            } else {
                assert(post.ws(a) == pre.ws(a));
                assert(post.ws(b) == pre.ws(b));
                assert(pre.ws(a).spec_contains(w));
                assert(!pre.ws(b).spec_contains(w));
            }
        }
    }
}

/// How a map notification changes the state. A window some workspace
/// already holds is ignored; a new window joins the active workspace,
/// gets focused, and has its pointer traffic watched.
pub open spec fn spec_map_event(
    pre: StarMan,
    post: StarMan,
    window: u32,
    cmds: Seq<Command>,
) -> bool {
    if pre.spec_tracked(window) {
        post == pre && cmds.len() == 0
    } else {
        &&& post.workspace == pre.workspace
        &&& post.conf == pre.conf
        &&& post.keymap == pre.keymap
        &&& post.mouse == pre.mouse
        &&& post.workspaces@.len() == pre.workspaces@.len()
        &&& forall|k: int|
            0 <= k < pre.workspaces@.len() && k != pre.workspace ==> post.ws(k) == pre.ws(k)
        &&& added_to(pre.active(), post.active(), window)
        &&& cmds == seq![
            Command::WatchWindow { window },
            Command::FocusWindow { window },
        ]
    }
}

/// How a destroy notification changes the state: the window leaves the
/// active workspace, and the workspace's new focused window, if any, is
/// given the input focus.
pub open spec fn spec_destroy_event(
    pre: StarMan,
    post: StarMan,
    window: u32,
    cmds: Seq<Command>,
) -> bool {
    &&& post.workspace == pre.workspace
    &&& post.conf == pre.conf
    &&& post.keymap == pre.keymap
    &&& post.mouse == pre.mouse
    &&& post.workspaces@.len() == pre.workspaces@.len()
    &&& forall|k: int|
        0 <= k < pre.workspaces@.len() && k != pre.workspace ==> post.ws(k) == pre.ws(k)
    &&& removed_from(pre.active(), post.active(), window)
    &&& cmds == (match post.active().spec_focus() {
        Some(t) => seq![Command::FocusWindow { window: t }],
        None => Seq::<Command>::empty(),
    })
}

/// How a pointer-enter notification changes the state: the entered
/// window is raised and focused; when it floats in the active workspace
/// the workspace focus follows it, otherwise the workspace state stays.
pub open spec fn spec_enter_event(
    pre: StarMan,
    post: StarMan,
    window: u32,
    cmds: Seq<Command>,
) -> bool {
    &&& post.workspace == pre.workspace
    &&& post.conf == pre.conf
    &&& post.keymap == pre.keymap
    &&& post.mouse == pre.mouse
    &&& post.workspaces@.len() == pre.workspaces@.len()
    &&& forall|k: int|
        0 <= k < pre.workspaces@.len() && k != pre.workspace ==> post.ws(k) == pre.ws(k)
    &&& if pre.active().floating@.contains(window) {
        &&& post.active().floating@ == pre.active().floating@
        &&& post.active().focus == pre.active().floating@.index_of(window)
        &&& post.active().monocle == pre.active().monocle
        &&& post.active().trigger == pre.active().trigger
        &&& post.active().previous_geometry == pre.active().previous_geometry
    } else {
        post.active() == pre.active()
    }
    &&& cmds == seq![
        Command::RaiseWindow { window },
        Command::FocusWindow { window },
    ]
}

/// The grab commands for a list of keycodes under one modifier mask, in
/// order.
pub open spec fn grab_commands(codes: Seq<u8>, mods: u32) -> Seq<Command> {
    codes.map_values(|c: u8| Command::GrabKeycode { mods, code: c })
}

/// The grab commands that install every workspace trigger: for each
/// workspace in order, one grab per keycode that produces its trigger
/// symbol.
pub open spec fn trigger_grab_seq(
    wss: Seq<Workspace>,
    entries: Seq<crate::key::SymEntry>,
) -> Seq<Command>
    decreases wss.len(),
{
    if wss.len() == 0 {
        Seq::empty()
    } else {
        trigger_grab_seq(wss.drop_last(), entries) + grab_commands(
            codes_with_sym(entries, wss.last().trigger.code@),
            wss.last().trigger.mods,
        )
    }
}

/// How a workspace switch changes the state. A key that is no trigger,
/// or the active workspace's own trigger, changes nothing and issues no
/// commands; any other matched trigger hides the outgoing workspace,
/// makes the match active, and shows it.
pub open spec fn spec_switch(
    pre: StarMan,
    post: StarMan,
    sym: Seq<char>,
    mods: u32,
    cmds: Seq<Command>,
) -> bool {
    match pre.first_trigger(sym, mods) {
        None => post == pre && cmds.len() == 0,
        Some(i) => if i == pre.workspace {
            post == pre && cmds.len() == 0
        } else {
            &&& post.workspaces@ == pre.workspaces@
            &&& post.workspace == i
            &&& post.conf == pre.conf
            &&& post.keymap == pre.keymap
            &&& post.mouse == pre.mouse
            &&& cmds == conceal_commands(pre.active()) + show_commands(pre.ws(i))
        },
    }
}

/// How a key press resolves, in this exact order: an unmapped keycode is
/// dropped; a key the registry binds invokes its handler and nothing
/// else — bound handlers shadow workspace triggers; otherwise the key
/// may switch workspaces; anything else is ignored.
pub open spec fn spec_key_event(
    pre: StarMan,
    post: StarMan,
    keycode: u8,
    state: u16,
    handler: Option<Handler>,
    cmds: Seq<Command>,
) -> bool {
    match pre.keymap.first_sym(keycode) {
        None => handler is None && cmds.len() == 0 && post == pre,
        Some(sym) => if pre.conf.has_binding(sym, state as u32) {
            &&& handler == Some(pre.conf.handler_of(sym, state as u32))
            &&& cmds.len() == 0
            &&& post == pre
        } else {
            &&& handler is None
            &&& spec_switch(pre, post, sym, state as u32, cmds)
        },
    }
}

/// How moving a window to the target workspace changes the state. An
/// untracked window changes nothing. Otherwise the window leaves the
/// workspace holding it and joins the target; it is hidden when it
/// leaves the active workspace and shown when it arrives there.
pub open spec fn spec_move_window(
    pre: StarMan,
    post: StarMan,
    window: u32,
    target: int,
    cmds: Seq<Command>,
) -> bool {
    if !pre.spec_tracked(window) {
        post == pre && cmds.len() == 0
    } else {
        let src = pre.holder_of(window);
        &&& post.workspace == pre.workspace
        &&& post.conf == pre.conf
        &&& post.keymap == pre.keymap
        &&& post.mouse == pre.mouse
        &&& post.workspaces@.len() == pre.workspaces@.len()
        &&& forall|k: int|
            0 <= k < pre.workspaces@.len() && k != src && k != target ==> post.ws(k) == pre.ws(
                k,
            )
        &&& if src == target {
            exists|mid: Workspace|
                removed_from(pre.ws(src), mid, window) && #[trigger] added_to(
                    mid,
                    post.ws(src),
                    window,
                )
        } else {
            &&& removed_from(pre.ws(src), post.ws(src), window)
            &&& added_to(pre.ws(target), post.ws(target), window)
        }
        &&& cmds == (if src == pre.workspace {
            seq![Command::UnmapWindow { window }]
        } else {
            Seq::<Command>::empty()
        }) + (if target == pre.workspace {
            seq![Command::MapWindow { window }]
        } else {
            Seq::<Command>::empty()
        })
    }
}

/// Switching to the trigger of the workspace that is already active
/// changes nothing and issues no hide or show commands.
pub proof fn lemma_switch_to_active_is_noop(
    pre: StarMan,
    post: StarMan,
    sym: Seq<char>,
    mods: u32,
    cmds: Seq<Command>,
)
    requires
        spec_switch(pre, post, sym, mods, cmds),
        pre.first_trigger(sym, mods) == Some(pre.workspace as int),
    ensures
        post == pre,
        cmds.len() == 0,
{
}

/// A key bound in the registry invokes the bound handler and switches no
/// workspace, even when the same key is also a workspace trigger: bound
/// handlers shadow triggers.
pub proof fn lemma_binding_shadows_trigger(
    pre: StarMan,
    post: StarMan,
    keycode: u8,
    state: u16,
    sym: Seq<char>,
    handler: Option<Handler>,
    cmds: Seq<Command>,
)
    requires
        spec_key_event(pre, post, keycode, state, handler, cmds),
        pre.keymap.first_sym(keycode) == Some(sym),
        pre.conf.has_binding(sym, state as u32),
    ensures
        handler == Some(pre.conf.handler_of(sym, state as u32)),
        post == pre,
        cmds.len() == 0,
{
}

/// A motion whose pointer has not left the press position commands
/// nothing: a click is not a drag.
pub proof fn lemma_zero_delta_drags_nothing(start: MouseInfo, state: u16)
    ensures
        motion_command(Some(start), start.root_x, start.root_y, state) is None,
{
}

/// A motion under the resize chord whose new width or height would not
/// be positive commands nothing: the sample is silently discarded.
pub proof fn lemma_degenerate_resize_commands_nothing(
    start: MouseInfo,
    g: Rect,
    root_x: i16,
    root_y: i16,
)
    requires
        start.geo == Some(g),
        !(g.width + (root_x - start.root_x) > 0 && g.height + (root_y - start.root_y) > 0),
    ensures
        motion_command(Some(start), root_x, root_y, RESIZE_CHORD) is None,
{
}

impl StarMan {
    /// The workspace the given index names.
    pub open spec fn ws(self, i: int) -> Workspace {
        self.workspaces@[i]
    }

    /// The active workspace.
    pub open spec fn active(self) -> Workspace {
        self.workspaces@[self.workspace as int]
    }

    /// No window is held by two workspaces at once.
    pub open spec fn windows_disjoint(self) -> bool {
        forall|i: int, j: int, w: u32|
            0 <= i < self.workspaces@.len() && 0 <= j < self.workspaces@.len() && i != j
                && #[trigger] self.ws(i).spec_contains(w) ==> !#[trigger] self.ws(
                j,
            ).spec_contains(w)
    }

    /// Well-formedness: some workspace exists, the active index names
    /// one, every workspace is well-formed, no window is held twice, and
    /// the registry and symbol table are well-formed.
    pub open spec fn wf(self) -> bool {
        &&& self.workspaces@.len() > 0
        &&& self.workspace < self.workspaces@.len()
        &&& forall|i: int| 0 <= i < self.workspaces@.len() ==> (#[trigger] self.ws(i)).wf()
        &&& self.windows_disjoint()
        &&& self.conf.wf()
        &&& self.keymap.wf()
    }

    /// Whether workspace `i`'s trigger names this symbol under these
    /// modifiers.
    pub open spec fn matches_trigger(self, i: int, sym: Seq<char>, mods: u32) -> bool {
        &&& self.ws(i).trigger.code@ == sym
        &&& self.ws(i).trigger.mods == mods
    }

    /// The first workspace whose trigger is the given key, if any has
    /// it.
    pub open spec fn first_trigger(self, sym: Seq<char>, mods: u32) -> Option<int> {
        if exists|i: int|
            0 <= i < self.workspaces@.len() && #[trigger] self.matches_trigger(i, sym, mods)
                && (forall|k: int| 0 <= k < i ==> !(#[trigger] self.matches_trigger(k, sym, mods))) {
            Some(
                choose|i: int|
                    0 <= i < self.workspaces@.len() && #[trigger] self.matches_trigger(
                        i,
                        sym,
                        mods,
                    ) && (forall|k: int|
                        0 <= k < i ==> !(#[trigger] self.matches_trigger(k, sym, mods))),
            )
        } else {
            None
        }
    }

    /// Whether some workspace holds the window.
    pub open spec fn spec_tracked(self, window: u32) -> bool {
        exists|i: int|
            0 <= i < self.workspaces@.len() && (#[trigger] self.ws(i)).spec_contains(window)
    }

    /// The workspace holding the window (unique in a well-formed state).
    pub open spec fn holder_of(self, window: u32) -> int {
        choose|i: int|
            0 <= i < self.workspaces@.len() && (#[trigger] self.ws(i)).spec_contains(window)
    }

    /// A fresh manager around a symbol table: ten empty workspaces
    /// triggered by meta plus a digit, the first one active, no bindings
    /// and no drag session.
    pub fn new(keymap: SymTable) -> (r: StarMan)
        requires
            keymap.wf(),
        ensures
            r.wf(),
            r.keymap == keymap,
            r.workspace == 0,
            r.mouse is None,
            r.conf.key_bindings@.len() == 0,
            r.workspaces@.len() == 10,
            forall|i: int|
                0 <= i < 10 ==> {
                    &&& (#[trigger] r.ws(i)).floating@.len() == 0
                    &&& r.ws(i).monocle is None
                    &&& r.ws(i).focus == 0
                    &&& r.ws(i).trigger.mods == crate::key::META
                },
            r.ws(0).trigger.code@ == "1"@,
            r.ws(1).trigger.code@ == "2"@,
            r.ws(2).trigger.code@ == "3"@,
            r.ws(3).trigger.code@ == "4"@,
            r.ws(4).trigger.code@ == "5"@,
            r.ws(5).trigger.code@ == "6"@,
            r.ws(6).trigger.code@ == "7"@,
            r.ws(7).trigger.code@ == "8"@,
            r.ws(8).trigger.code@ == "9"@,
            r.ws(9).trigger.code@ == "0"@,
    {
        let mut workspaces: Vec<Workspace> = Vec::new();
        workspaces.push(Workspace::new(Key::new(crate::key::META, "1")));
        workspaces.push(Workspace::new(Key::new(crate::key::META, "2")));
        workspaces.push(Workspace::new(Key::new(crate::key::META, "3")));
        workspaces.push(Workspace::new(Key::new(crate::key::META, "4")));
        workspaces.push(Workspace::new(Key::new(crate::key::META, "5")));
        workspaces.push(Workspace::new(Key::new(crate::key::META, "6")));
        workspaces.push(Workspace::new(Key::new(crate::key::META, "7")));
        workspaces.push(Workspace::new(Key::new(crate::key::META, "8")));
        workspaces.push(Workspace::new(Key::new(crate::key::META, "9")));
        workspaces.push(Workspace::new(Key::new(crate::key::META, "0")));
        let r = StarMan { conf: Config::new(), keymap, workspaces, workspace: 0, mouse: None };
        proof {
            assert forall|i: int, j: int, w: u32|
                0 <= i < r.workspaces@.len() && 0 <= j < r.workspaces@.len() && i != j
                    && #[trigger] r.ws(i).spec_contains(w) implies !#[trigger] r.ws(
                j,
            ).spec_contains(w) by {
                assert(r.ws(i).floating@.len() == 0);
            }
        }
        r
    }

    /// The active workspace, for read-only inspection.
    pub fn workspace(&self) -> (r: &Workspace)
        requires
            self.wf(),
        ensures
            *r == self.active(),
    {
        &self.workspaces[self.workspace]
    }

    /// Whether any workspace holds the window.
    fn holds_window(&self, window: u32) -> (r: bool)
        ensures
            r == self.spec_tracked(window),
    {
        let mut i: usize = 0;
        while i < self.workspaces.len()
            invariant
                i <= self.workspaces@.len(),
                forall|k: int| 0 <= k < i ==> !(#[trigger] self.ws(k)).spec_contains(window),
            decreases self.workspaces@.len() - i,
        {
            if self.workspaces[i].contains(window) {
                proof {
                    assert(self.ws(i as int).spec_contains(window));
                }
                return true;
            }
            i = i + 1;
        }
        false
    }

    /// Handles a map notification: a window some workspace already holds
    /// is ignored; a new window joins the active workspace, is focused,
    /// and has its pointer enter/leave traffic watched.
    pub fn map_event(&mut self, window: u32) -> (cmds: Vec<Command>)
        requires
            old(self).wf(),
        ensures
            final(self).wf(),
            spec_map_event(*old(self), *final(self), window, cmds@),
    {
        if self.holds_window(window) {
            return Vec::new();
        }
        let i = self.workspace;
        proof {
            assert(old(self).ws(i as int).wf());
            assert(!old(self).ws(i as int).spec_contains(window));
        }
        let mut ws = self.workspaces.remove(i);
        ws.add(window);
        self.workspaces.insert(i, ws);
        proof {
            assert(self.workspaces@ =~= old(self).workspaces@.update(
                i as int,
                self.workspaces@[i as int],
            ));
            let pre = *old(self);
            let post = *self;
            assert forall|x: u32| #[trigger] post.ws(i as int).spec_contains(x) implies pre.ws(
                i as int,
            ).spec_contains(x) || (Some(window) == Some(x) && !pre.spec_tracked(x)) by {
                if post.ws(i as int).floating@.contains(x) {
                    let k = post.ws(i as int).floating@.index_of(x);
                    if k < pre.ws(i as int).floating@.len() {
                        assert(pre.ws(i as int).floating@[k] == x);
                    } else {
                        assert(x == window);
                    }
                }
            }
            lemma_wf_update(pre, post, i as int, Some(window));
        }
        let mut cmds: Vec<Command> = Vec::new();
        cmds.push(Command::WatchWindow { window });
        cmds.push(Command::FocusWindow { window });
        proof {
            assert(cmds@ =~= seq![
                Command::WatchWindow { window },
                Command::FocusWindow { window },
            ]);
        }
        cmds
    }

    /// Handles a destroy notification: removes the window from the
    /// active workspace and focuses that workspace's new focused window,
    /// if it still has one.
    pub fn destroy_event(&mut self, window: u32) -> (cmds: Vec<Command>)
        requires
            old(self).wf(),
        ensures
            final(self).wf(),
            spec_destroy_event(*old(self), *final(self), window, cmds@),
    {
        let i = self.workspace;
        proof {
            assert(old(self).ws(i as int).wf());
        }
        let mut ws = self.workspaces.remove(i);
        ws.remove(window);
        let focus_target = ws.get_focus();
        self.workspaces.insert(i, ws);
        proof {
            assert(self.workspaces@ =~= old(self).workspaces@.update(
                i as int,
                self.workspaces@[i as int],
            ));
            let pre = *old(self);
            let post = *self;
            assert forall|x: u32| #[trigger] post.ws(i as int).spec_contains(x) implies pre.ws(
                i as int,
            ).spec_contains(x) || (None::<u32> == Some(x) && !pre.spec_tracked(x)) by {
                let f = pre.ws(i as int).floating@;
                if post.ws(i as int).floating@.contains(x) {
                    let k = post.ws(i as int).floating@.index_of(x);
                    if f.contains(window) {
                        let r = f.index_of(window);
                        if k < r {
                            assert(f[k] == x);
                        } else {
                            assert(f[k + 1] == x);
                        }
                    } else {
                        assert(f[k] == x);
                    }
                }
            }
            lemma_wf_update(pre, post, i as int, None);
        }
        match focus_target {
            Some(t) => {
                let mut cmds: Vec<Command> = Vec::new();
                cmds.push(Command::FocusWindow { window: t });
                proof {
                    assert(cmds@ =~= seq![Command::FocusWindow { window: t }]);
                }
                cmds
            },
            None => Vec::new(),
        }
    }

    /// Handles a pointer-enter notification: raises and focuses the
    /// entered window; when it floats in the active workspace the
    /// workspace focus follows the pointer, and a window this manager
    /// does not track changes no workspace state.
    pub fn enter_event(&mut self, window: u32) -> (cmds: Vec<Command>)
        requires
            old(self).wf(),
        ensures
            final(self).wf(),
            spec_enter_event(*old(self), *final(self), window, cmds@),
    {
        let i = self.workspace;
        proof {
            assert(old(self).ws(i as int).wf());
        }
        let mut ws = self.workspaces.remove(i);
        let found = ws.find(window);
        match found {
            Some(_) => {
                proof {
                    assert(ws.floating@.contains(window));
                }
                ws.set_focus(window);
            },
            None => {},
        }
        self.workspaces.insert(i, ws);
        proof {
            assert(self.workspaces@ =~= old(self).workspaces@.update(
                i as int,
                self.workspaces@[i as int],
            ));
            let pre = *old(self);
            let post = *self;
            assert forall|x: u32| #[trigger] post.ws(i as int).spec_contains(x) implies pre.ws(
                i as int,
            ).spec_contains(x) || (None::<u32> == Some(x) && !pre.spec_tracked(x)) by {
                assert(post.ws(i as int).floating@ == pre.ws(i as int).floating@);
                assert(post.ws(i as int).monocle == pre.ws(i as int).monocle);
            }
            lemma_wf_update(pre, post, i as int, None);
        }
        let mut cmds: Vec<Command> = Vec::new();
        cmds.push(Command::RaiseWindow { window });
        cmds.push(Command::FocusWindow { window });
        proof {
            assert(cmds@ =~= seq![
                Command::RaiseWindow { window },
                Command::FocusWindow { window },
            ]);
        }
        cmds
    }

    /// Arms a drag session from a button press: the root coordinates,
    /// the target child window, the button, and the geometry snapshot
    /// the shell queried at press time (nothing if the query failed).
    pub fn button_press(
        &mut self,
        root_x: i16,
        root_y: i16,
        child: u32,
        detail: u8,
        geometry: Option<Rect>,
    )
        requires
            old(self).wf(),
        ensures
            final(self).wf(),
            same_but_mouse(*old(self), *final(self)),
            final(self).mouse == Some(
                MouseInfo { root_x, root_y, child, detail, geo: geometry },
            ),
    {
        self.mouse = Some(MouseInfo::new(root_x, root_y, child, detail, geometry));
        proof {
            lemma_wf_same_core(*old(self), *self);
        }
    }

    /// Decides what a pointer motion commands; the session itself is
    /// left as it is. See [`motion_command`] for the decision.
    pub fn motion_event(&mut self, root_x: i16, root_y: i16, state: u16) -> (r: Option<Command>)
        ensures
            *final(self) == *old(self),
            r == motion_command(old(self).mouse, root_x, root_y, state),
    {
        match &self.mouse {
            None => None,
            Some(start) => {
                let dx = root_x as i64 - start.root_x as i64;
                let dy = root_y as i64 - start.root_y as i64;
                if (dx == 0 && dy == 0) || start.detail != 1 {
                    return None;
                }
                match start.geo {
                    None => None,
                    Some(g) => {
                        if state == RESIZE_CHORD {
                            let width = g.width as i64 + dx;
                            let height = g.height as i64 + dy;
                            if width > 0 && height > 0 {
                                Some(Command::ResizeWindow { window: start.child, width, height })
                            } else {
                                None
                            }
                        } else {
                            Some(
                                Command::MoveWindow {
                                    window: start.child,
                                    x: g.x as i64 + dx,
                                    y: g.y as i64 + dy,
                                },
                            )
                        }
                    },
                }
            },
        }
    }

    /// Discards the drag session unconditionally: every button release
    /// returns the drag controller to its idle state, whether or not any
    /// motion happened.
    pub fn button_release(&mut self)
        requires
            old(self).wf(),
        ensures
            final(self).wf(),
            same_but_mouse(*old(self), *final(self)),
            final(self).mouse is None,
    {
        self.mouse = None;
        proof {
            lemma_wf_same_core(*old(self), *self);
        }
    }

    /// The position of the first workspace whose trigger is this key.
    fn find_trigger(&self, key: &Key) -> (r: Option<usize>)
        ensures
            match r {
                Some(i) => i < self.workspaces@.len() && self.first_trigger(key.code@, key.mods)
                    == Some(i as int),
                None => self.first_trigger(key.code@, key.mods) is None,
            },
    {
        let mut i: usize = 0;
        while i < self.workspaces.len()
            invariant
                i <= self.workspaces@.len(),
                forall|k: int| 0 <= k < i ==> !(#[trigger] self.matches_trigger(k, key.code@, key.mods)),
            decreases self.workspaces@.len() - i,
        {
            if self.workspaces[i].trigger.same(key) {
                proof {
                    assert(self.matches_trigger(i as int, key.code@, key.mods));
                    let w = choose|w: int|
                        0 <= w < self.workspaces@.len() && #[trigger] self.matches_trigger(
                            w,
                            key.code@,
                            key.mods,
                        ) && (forall|k: int|
                            0 <= k < w ==> !(#[trigger] self.matches_trigger(
                                k,
                                key.code@,
                                key.mods,
                            )));
                    if w < i as int {
                        assert(!self.matches_trigger(w, key.code@, key.mods));
                    }
                    if w > i as int {
                        assert(!self.matches_trigger(i as int, key.code@, key.mods));
                    }
                }
                return Some(i);
            }
            i = i + 1;
        }
        proof {
            if self.first_trigger(key.code@, key.mods) is Some {
                let w = choose|w: int|
                    0 <= w < self.workspaces@.len() && #[trigger] self.matches_trigger(
                        w,
                        key.code@,
                        key.mods,
                    ) && (forall|k: int|
                        0 <= k < w ==> !(#[trigger] self.matches_trigger(k, key.code@, key.mods)));
                assert(!self.matches_trigger(w, key.code@, key.mods));
            }
        }
        None
    }

    /// Switches workspaces on a trigger key: hides the active workspace,
    /// makes the first match active, and shows it. The active
    /// workspace's own trigger, or a key that triggers nothing, changes
    /// nothing and issues no commands.
    pub fn switch(&mut self, key: &Key) -> (cmds: Vec<Command>)
        requires
            old(self).wf(),
        ensures
            final(self).wf(),
            spec_switch(*old(self), *final(self), key.code@, key.mods, cmds@),
    {
        let found = self.find_trigger(key);
        match found {
            None => Vec::new(),
            Some(idx) => {
                if idx == self.workspace {
                    Vec::new()
                } else {
                    proof {
                        assert(old(self).ws(old(self).workspace as int).wf());
                        assert(old(self).ws(idx as int).wf());
                    }
                    let mut cmds = self.workspaces[self.workspace].conceal();
                    let mut shown = self.workspaces[idx].show();
                    cmds.append(&mut shown);
                    self.workspace = idx;
                    proof {
                        lemma_wf_same_core(*old(self), *self);
                    }
                    cmds
                }
            },
        }
    }

    /// Resolves a key press: translates the keycode, then — in this
    /// exact order — invokes the registry binding if one exists (bound
    /// handlers shadow workspace triggers), else tries a workspace
    /// switch, else ignores the key. An unmapped keycode is dropped.
    pub fn key_event(&mut self, keycode: u8, state: u16) -> (r: (Option<Handler>, Vec<Command>))
        requires
            old(self).wf(),
        ensures
            final(self).wf(),
            spec_key_event(*old(self), *final(self), keycode, state, r.0, r.1@),
    {
        let sym = self.keymap.translate(keycode);
        match sym {
            None => (None, Vec::new()),
            Some(code) => {
                let key = Key { code, mods: state as u32 };
                let bound = self.conf.key(&key);
                match bound {
                    Some(h) => (Some(h), Vec::new()),
                    None => {
                        let cmds = self.switch(&key);
                        (None, cmds)
                    },
                }
            },
        }
    }

    /// Binds a key to a handler, overwriting any earlier binding for the
    /// same key, and commands a grab for every keycode that produces the
    /// key's symbol.
    pub fn bind(&mut self, key: Key, handler: Handler) -> (cmds: Vec<Command>)
        requires
            old(self).wf(),
        ensures
            final(self).wf(),
            final(self).keymap == old(self).keymap,
            final(self).workspaces@ == old(self).workspaces@,
            final(self).workspace == old(self).workspace,
            final(self).mouse == old(self).mouse,
            final(self).conf.border == old(self).conf.border,
            final(self).conf.has_binding(key.code@, key.mods),
            final(self).conf.handler_of(key.code@, key.mods) == handler,
            forall|c: Seq<char>, m: u32|
                #![trigger old(self).conf.has_binding(c, m)]
                #![trigger final(self).conf.has_binding(c, m)]
                !(c == key.code@ && m == key.mods) ==> {
                    &&& final(self).conf.has_binding(c, m) == old(self).conf.has_binding(c, m)
                    &&& (old(self).conf.has_binding(c, m) ==> final(self).conf.handler_of(c, m)
                        == old(self).conf.handler_of(c, m))
                },
            cmds@ == grab_commands(codes_with_sym(old(self).keymap.entries@, key.code@), key.mods),
    {
        let codes = key.xcode(&self.keymap);
        let mods = key.mods;
        let mut cmds: Vec<Command> = Vec::new();
        let mut j: usize = 0;
        while j < codes.len()
            invariant
                j <= codes@.len(),
                cmds@.len() == j,
                forall|k: int|
                    0 <= k < j ==> cmds@[k] == (Command::GrabKeycode { mods, code: codes@[k] }),
            decreases codes@.len() - j,
        {
            cmds.push(Command::GrabKeycode { mods, code: codes[j] });
            j = j + 1;
        }
        proof {
            assert(cmds@ =~= grab_commands(codes@, mods));
        }
        self.conf.bind_handler(key, handler);
        proof {
            lemma_wf_same_core(*old(self), *self);
        }
        cmds
    }

    /// The grab commands that install every workspace trigger, so that
    /// pressing any trigger reaches this manager whatever window holds
    /// the input focus.
    pub fn trigger_grabs(&self) -> (cmds: Vec<Command>)
        ensures
            cmds@ == trigger_grab_seq(self.workspaces@, self.keymap.entries@),
    {
        let mut cmds: Vec<Command> = Vec::new();
        let mut i: usize = 0;
        while i < self.workspaces.len()
            invariant
                i <= self.workspaces@.len(),
                cmds@ == trigger_grab_seq(
                    self.workspaces@.subrange(0, i as int),
                    self.keymap.entries@,
                ),
            decreases self.workspaces@.len() - i,
        {
            let codes = self.workspaces[i].trigger.xcode(&self.keymap);
            let mods = self.workspaces[i].trigger.mods;
            let ghost prefix = cmds@;
            let mut j: usize = 0;
            while j < codes.len()
                invariant
                    j <= codes@.len(),
                    cmds@.len() == prefix.len() + j,
                    cmds@.subrange(0, prefix.len() as int) == prefix,
                    forall|k: int|
                        0 <= k < j ==> cmds@[prefix.len() + k] == (Command::GrabKeycode {
                            mods,
                            code: codes@[k],
                        }),
                decreases codes@.len() - j,
            {
                cmds.push(Command::GrabKeycode { mods, code: codes[j] });
                proof {
                    assert(cmds@.subrange(0, prefix.len() as int) =~= prefix);
                }
                j = j + 1;
            }
            proof {
                assert(cmds@ =~= prefix + grab_commands(codes@, mods));
                assert(self.workspaces@.subrange(0, i + 1).drop_last() =~= self.workspaces@
                    .subrange(0, i as int));
                assert(self.workspaces@.subrange(0, i + 1).last() == self.workspaces@[i as int]);
            }
            i = i + 1;
        }
        proof {
            assert(self.workspaces@.subrange(0, self.workspaces@.len() as int) =~= self
                .workspaces@);
        }
        cmds
    }

    /// The position of the workspace holding the window, if any does.
    fn find_holder(&self, window: u32) -> (r: Option<usize>)
        requires
            self.wf(),
        ensures
            match r {
                Some(i) => {
                    &&& i < self.workspaces@.len()
                    &&& self.ws(i as int).spec_contains(window)
                    &&& self.spec_tracked(window)
                    &&& self.holder_of(window) == i
                },
                None => !self.spec_tracked(window),
            },
    {
        let mut i: usize = 0;
        while i < self.workspaces.len()
            invariant
                self.wf(),
                i <= self.workspaces@.len(),
                forall|k: int| 0 <= k < i ==> !(#[trigger] self.ws(k)).spec_contains(window),
            decreases self.workspaces@.len() - i,
        {
            if self.workspaces[i].contains(window) {
                proof {
                    assert(self.ws(i as int).spec_contains(window));
                    assert(self.spec_tracked(window));
                    let w = self.holder_of(window);
                    assert(0 <= w < self.workspaces@.len() && self.ws(w).spec_contains(window));
                    if w != i as int {
                        assert(!self.ws(i as int).spec_contains(window));
                    }
                }
                return Some(i);
            }
            i = i + 1;
        }
        None
    }

    /// Moves a window to the target workspace: removes it from whichever
    /// workspace holds it, hides it if that one was active, adds it to
    /// the target, and shows it immediately only if the target is
    /// active. An untracked window moves nowhere.
    pub fn move_window_to(&mut self, window: u32, target: usize) -> (cmds: Vec<Command>)
        requires
            old(self).wf(),
            target < old(self).workspaces@.len(),
        ensures
            final(self).wf(),
            spec_move_window(*old(self), *final(self), window, target as int, cmds@),
    {
        let found = self.find_holder(window);
        match found {
            None => Vec::new(),
            Some(src) => {
                proof {
                    assert(old(self).ws(src as int).wf());
                }
                let mut ws = self.workspaces.remove(src);
                ws.remove(window);
                self.workspaces.insert(src, ws);
                let ghost pre = *old(self);
                let ghost mid = *self;
                proof {
                    assert(mid.workspaces@ =~= pre.workspaces@.update(
                        src as int,
                        mid.workspaces@[src as int],
                    ));
                    assert forall|x: u32| #[trigger] mid.ws(src as int).spec_contains(
                        x,
                    ) implies pre.ws(src as int).spec_contains(x) || (None::<u32> == Some(x)
                        && !pre.spec_tracked(x)) by {
                        let f = pre.ws(src as int).floating@;
                        if mid.ws(src as int).floating@.contains(x) {
                            let k = mid.ws(src as int).floating@.index_of(x);
                            if f.contains(window) {
                                let rr = f.index_of(window);
                                if k < rr {
                                    assert(f[k] == x);
                                } else {
                                    assert(f[k + 1] == x);
                                }
                            } else {
                                assert(f[k] == x);
                            }
                        }
                    }
                    lemma_wf_update(pre, mid, src as int, None);
                    assert forall|k: int|
                        0 <= k < mid.workspaces@.len() implies !(#[trigger] mid.ws(
                        k,
                    )).spec_contains(window) by {
                        if k != src {
                            assert(mid.ws(k) == pre.ws(k));
                            assert(pre.ws(src as int).spec_contains(window));
                        }
                    }
                    assert(!mid.spec_tracked(window));
                    assert(mid.ws(target as int).wf());
                }
                let mut wt = self.workspaces.remove(target);
                wt.add(window);
                self.workspaces.insert(target, wt);
                proof {
                    let post = *self;
                    assert(post.workspaces@ =~= mid.workspaces@.update(
                        target as int,
                        post.workspaces@[target as int],
                    ));
                    assert forall|x: u32| #[trigger] post.ws(target as int).spec_contains(
                        x,
                    ) implies mid.ws(target as int).spec_contains(x) || (Some(window) == Some(x)
                        && !mid.spec_tracked(x)) by {
                        if post.ws(target as int).floating@.contains(x) {
                            let k = post.ws(target as int).floating@.index_of(x);
                            if k < mid.ws(target as int).floating@.len() {
                                assert(mid.ws(target as int).floating@[k] == x);
                            } else {
                                assert(x == window);
                            }
                        }
                    }
                    lemma_wf_update(mid, post, target as int, Some(window));
                    if src == target {
                        assert(removed_from(pre.ws(src as int), mid.ws(src as int), window)
                            && added_to(mid.ws(src as int), post.ws(src as int), window));
                    }
                }
                let mut cmds: Vec<Command> = Vec::new();
                if src == self.workspace {
                    cmds.push(Command::UnmapWindow { window });
                }
                if target == self.workspace {
                    cmds.push(Command::MapWindow { window });
                }
                proof {
                    assert(cmds@ =~= (if src as int == pre.workspace as int {
                        seq![Command::UnmapWindow { window }]
                    } else {
                        Seq::<Command>::empty()
                    }) + (if target as int == pre.workspace as int {
                        seq![Command::MapWindow { window }]
                    } else {
                        Seq::<Command>::empty()
                    }));
                }
                cmds
            },
        }
    }

    /// Promotes the focused window of the active workspace to monocle
    /// mode, returning it; a no-op returning nothing when the workspace
    /// is already monocled or empty.
    pub fn monocle_focus(&mut self) -> (r: Option<u32>)
        requires
            old(self).wf(),
        ensures
            final(self).wf(),
            final(self).workspace == old(self).workspace,
            final(self).conf == old(self).conf,
            final(self).keymap == old(self).keymap,
            final(self).mouse == old(self).mouse,
            final(self).workspaces@.len() == old(self).workspaces@.len(),
            forall|k: int|
                0 <= k < old(self).workspaces@.len() && k != old(self).workspace
                    ==> final(self).ws(k) == old(self).ws(k),
            (old(self).active().monocle is Some || old(self).active().floating@.len() == 0) ==> {
                &&& r is None
                &&& final(self).active() == old(self).active()
            },
            (old(self).active().monocle is None && old(self).active().floating@.len() > 0) ==> {
                let w = old(self).active().floating@[old(self).active().focus as int];
                &&& r == Some(w)
                &&& final(self).active().monocle == Some(w)
                &&& final(self).active().floating@ == old(self).active().promoted_floating()
                &&& final(self).active().focus == old(self).active().promoted_focus()
                &&& final(self).active().trigger == old(self).active().trigger
                &&& final(self).active().previous_geometry == old(
                    self,
                ).active().previous_geometry
            },
    {
        let i = self.workspace;
        proof {
            assert(old(self).ws(i as int).wf());
        }
        let mut ws = self.workspaces.remove(i);
        let r = ws.set_monocle();
        self.workspaces.insert(i, ws);
        proof {
            let pre = *old(self);
            let post = *self;
            assert(post.workspaces@ =~= pre.workspaces@.update(
                i as int,
                post.workspaces@[i as int],
            ));
            assert forall|x: u32| #[trigger] post.ws(i as int).spec_contains(x) implies pre.ws(
                i as int,
            ).spec_contains(x) || (None::<u32> == Some(x) && !pre.spec_tracked(x)) by {
                let f = pre.ws(i as int).floating@;
                if post.ws(i as int).floating@.contains(x) {
                    let k = post.ws(i as int).floating@.index_of(x);
                    if pre.ws(i as int).monocle is None && f.len() > 0 {
                        if k < pre.ws(i as int).focus {
                            assert(f[k] == x);
                        } else {
                            assert(f[k + 1] == x);
                        }
                    }
                }
            }
            lemma_wf_update(pre, post, i as int, None);
        }
        r
    }

    /// Leaves monocle mode on the active workspace, reinserting the
    /// stored window at the focus position and returning it; a no-op
    /// returning nothing when not monocled.
    pub fn monocle_clear(&mut self) -> (r: Option<u32>)
        requires
            old(self).wf(),
        ensures
            final(self).wf(),
            final(self).workspace == old(self).workspace,
            final(self).conf == old(self).conf,
            final(self).keymap == old(self).keymap,
            final(self).mouse == old(self).mouse,
            final(self).workspaces@.len() == old(self).workspaces@.len(),
            forall|k: int|
                0 <= k < old(self).workspaces@.len() && k != old(self).workspace
                    ==> final(self).ws(k) == old(self).ws(k),
            old(self).active().monocle is None ==> {
                &&& r is None
                &&& final(self).active() == old(self).active()
            },
            match old(self).active().monocle {
                Some(m) => {
                    &&& r == Some(m)
                    &&& final(self).active().monocle is None
                    &&& final(self).active().floating@ == old(self).active().floating@.insert(
                        old(self).active().focus as int,
                        m,
                    )
                    &&& final(self).active().focus == old(self).active().focus
                    &&& final(self).active().trigger == old(self).active().trigger
                    &&& final(self).active().previous_geometry == old(
                        self,
                    ).active().previous_geometry
                },
                None => true,
            },
    {
        let i = self.workspace;
        proof {
            assert(old(self).ws(i as int).wf());
        }
        let mut ws = self.workspaces.remove(i);
        let r = ws.clear_monocle();
        self.workspaces.insert(i, ws);
        proof {
            let pre = *old(self);
            let post = *self;
            assert(post.workspaces@ =~= pre.workspaces@.update(
                i as int,
                post.workspaces@[i as int],
            ));
            assert forall|x: u32| #[trigger] post.ws(i as int).spec_contains(x) implies pre.ws(
                i as int,
            ).spec_contains(x) || (None::<u32> == Some(x) && !pre.spec_tracked(x)) by {
                match pre.ws(i as int).monocle {
                    Some(m) => {
                        let f = pre.ws(i as int).floating@;
                        let pos = pre.ws(i as int).focus as int;
                        if post.ws(i as int).floating@.contains(x) {
                            let k = post.ws(i as int).floating@.index_of(x);
                            f.insert_ensures(pos, m);
                            if k < pos {
                                assert(f[k] == x);
                            } else if k == pos {
                                assert(x == m);
                            } else {
                                assert(f[k - 1] == x);
                            }
                        }
                    },
                    None => {},
                }
            }
            lemma_wf_update(pre, post, i as int, None);
        }
        r
    }

    /// Routes one decoded protocol event to its handler and hands back
    /// what the shell must do: perform the commands, then invoke the
    /// returned registry handler if one is named. Unrecognised traffic
    /// and pointer leave events are explicitly ignored.
    pub fn handle_event(&mut self, event: Event) -> (r: (Option<Handler>, Vec<Command>))
        requires
            old(self).wf(),
        ensures
            final(self).wf(),
            match event {
                Event::MapNotify { window } => r.0 is None && spec_map_event(
                    *old(self),
                    *final(self),
                    window,
                    r.1@,
                ),
                Event::DestroyNotify { window } => r.0 is None && spec_destroy_event(
                    *old(self),
                    *final(self),
                    window,
                    r.1@,
                ),
                Event::EnterNotify { window } => r.0 is None && spec_enter_event(
                    *old(self),
                    *final(self),
                    window,
                    r.1@,
                ),
                Event::LeaveNotify { window } => r.0 is None && r.1@.len() == 0 && *final(self)
                    == *old(self),
                Event::ButtonPress { root_x, root_y, child, detail, geometry } => {
                    &&& r.0 is None
                    &&& r.1@.len() == 0
                    &&& same_but_mouse(*old(self), *final(self))
                    &&& final(self).mouse == Some(
                        MouseInfo { root_x, root_y, child, detail, geo: geometry },
                    )
                },
                Event::MotionNotify { root_x, root_y, child, state } => {
                    &&& r.0 is None
                    &&& *final(self) == *old(self)
                    &&& r.1@ == (match motion_command(old(self).mouse, root_x, root_y, state) {
                        Some(c) => seq![c],
                        None => Seq::<Command>::empty(),
                    })
                },
                Event::ButtonRelease => {
                    &&& r.0 is None
                    &&& r.1@.len() == 0
                    &&& same_but_mouse(*old(self), *final(self))
                    &&& final(self).mouse is None
                },
                Event::KeyPress { keycode, state } => spec_key_event(
                    *old(self),
                    *final(self),
                    keycode,
                    state,
                    r.0,
                    r.1@,
                ),
                Event::Unknown => r.0 is None && r.1@.len() == 0 && *final(self) == *old(self),
            },
    {
        match event {
            Event::MapNotify { window } => (None, self.map_event(window)),
            Event::DestroyNotify { window } => (None, self.destroy_event(window)),
            Event::EnterNotify { window } => (None, self.enter_event(window)),
            Event::LeaveNotify { window: _ } => (None, Vec::new()),
            Event::ButtonPress { root_x, root_y, child, detail, geometry } => {
                self.button_press(root_x, root_y, child, detail, geometry);
                (None, Vec::new())
            },
            Event::MotionNotify { root_x, root_y, child: _, state } => {
                let decided = self.motion_event(root_x, root_y, state);
                match decided {
                    Some(c) => {
                        let mut cmds: Vec<Command> = Vec::new();
                        cmds.push(c);
                        proof {
                            assert(cmds@ =~= seq![c]);
                        }
                        (None, cmds)
                    },
                    None => (None, Vec::new()),
                }
            },
            Event::ButtonRelease => {
                self.button_release();
                (None, Vec::new())
            },
            Event::KeyPress { keycode, state } => self.key_event(keycode, state),
            Event::Unknown => (None, Vec::new()),
        }
    }

    /// Commands a graceful close request for the target window; the
    /// state does not change.
    pub fn destroy(&mut self, target: u32) -> (cmds: Vec<Command>)
        ensures
            *final(self) == *old(self),
            cmds@ == seq![Command::CloseWindow { window: target }],
    {
        let mut cmds: Vec<Command> = Vec::new();
        cmds.push(Command::CloseWindow { window: target });
        proof {
            assert(cmds@ =~= seq![Command::CloseWindow { window: target }]);
        }
        cmds
    }

    /// Commands a graceful close request for the focused window of the
    /// active workspace, or nothing when it has no focused window.
    pub fn destroy_focus(&mut self) -> (cmds: Vec<Command>)
        requires
            old(self).wf(),
        ensures
            *final(self) == *old(self),
            cmds@ == (match old(self).active().spec_focus() {
                Some(t) => seq![Command::CloseWindow { window: t }],
                None => Seq::<Command>::empty(),
            }),
    {
        proof {
            assert(self.ws(self.workspace as int).wf());
        }
        let target = self.workspaces[self.workspace].get_focus();
        match target {
            Some(t) => self.destroy(t),
            None => Vec::new(),
        }
    }
}

} // verus!
