use starwm::command::{Command, Event};
use starwm::key::{Key, SymEntry, SymTable, META};
use starwm::mouse::MouseInfo;
use starwm::wm::{StarMan, RESIZE_CHORD};
use starwm::Rect;

fn digit(i: usize) -> String {
    let digits = ["1", "2", "3", "4", "5", "6", "7", "8", "9", "0"];
    String::from(digits[i])
}

fn keymap() -> SymTable {
    let mut entries = Vec::new();
    for i in 0..10 {
        entries.push(SymEntry { keycode: 10 + i as u8, syms: vec![digit(i)] });
    }
    SymTable { entries }
}

fn manager() -> StarMan {
    StarMan::new(keymap())
}

#[test]
fn fresh_manager_has_ten_empty_workspaces() {
    let sm = manager();
    assert_eq!(sm.workspaces.len(), 10);
    assert_eq!(sm.workspace, 0);
    assert!(sm.mouse.is_none());
    for i in 0..10 {
        assert_eq!(sm.workspaces[i].trigger.code, digit(i));
        assert_eq!(sm.workspaces[i].trigger.mods, META);
        assert!(sm.workspaces[i].floating.is_empty());
    }
}

#[test]
fn active_trigger_issues_no_commands() {
    let mut sm = manager();
    sm.map_event(100);
    let (handler, cmds) = sm.key_event(10, META as u16);
    assert!(handler.is_none());
    assert!(cmds.is_empty());
    assert_eq!(sm.workspace, 0);
}

#[test]
fn other_trigger_hides_active_and_shows_target() {
    let mut sm = manager();
    sm.map_event(100);
    let (handler, cmds) = sm.key_event(11, META as u16);
    assert!(handler.is_none());
    assert_eq!(cmds, vec![Command::UnmapWindow { window: 100 }]);
    assert_eq!(sm.workspace, 1);
    let (_, back) = sm.key_event(10, META as u16);
    assert_eq!(back, vec![Command::MapWindow { window: 100 }]);
    assert_eq!(sm.workspace, 0);
}

#[test]
fn bound_handler_shadows_workspace_trigger() {
    let mut sm = manager();
    let grabs = sm.bind(Key::new(META, "2"), 42);
    assert_eq!(grabs, vec![Command::GrabKeycode { mods: META, code: 11 }]);
    let (handler, cmds) = sm.key_event(11, META as u16);
    assert_eq!(handler, Some(42));
    assert!(cmds.is_empty());
    assert_eq!(sm.workspace, 0);
}

#[test]
fn unmapped_keycode_is_dropped() {
    let mut sm = manager();
    let (handler, cmds) = sm.key_event(99, META as u16);
    assert!(handler.is_none());
    assert!(cmds.is_empty());
    assert_eq!(sm.workspace, 0);
}

#[test]
fn unbound_non_trigger_key_is_ignored() {
    let mut sm = manager();
    let (handler, cmds) = sm.key_event(10, 0);
    assert!(handler.is_none());
    assert!(cmds.is_empty());
    assert_eq!(sm.workspace, 0);
}

#[test]
fn mapping_windows_tracks_focus_and_destroy_refocuses() {
    let mut sm = manager();
    let cmds = sm.map_event(1);
    assert_eq!(
        cmds,
        vec![Command::WatchWindow { window: 1 }, Command::FocusWindow { window: 1 }]
    );
    assert_eq!(sm.workspaces[0].floating, vec![1]);
    assert_eq!(sm.workspaces[0].focus, 0);
    sm.map_event(2);
    assert_eq!(sm.workspaces[0].floating, vec![1, 2]);
    assert_eq!(sm.workspaces[0].focus, 1);
    let cmds = sm.destroy_event(1);
    assert_eq!(sm.workspaces[0].floating, vec![2]);
    assert_eq!(sm.workspaces[0].focus, 0);
    assert_eq!(cmds, vec![Command::FocusWindow { window: 2 }]);
}

#[test]
fn destroying_the_last_window_issues_no_focus() {
    let mut sm = manager();
    sm.map_event(1);
    let cmds = sm.destroy_event(1);
    assert!(cmds.is_empty());
    assert!(sm.workspaces[0].floating.is_empty());
}

#[test]
fn mapping_a_known_window_again_changes_nothing() {
    let mut sm = manager();
    sm.map_event(1);
    let cmds = sm.map_event(1);
    assert!(cmds.is_empty());
    assert_eq!(sm.workspaces[0].floating, vec![1]);
}

#[test]
fn enter_raises_and_focuses_and_follows_pointer() {
    let mut sm = manager();
    sm.map_event(1);
    sm.map_event(2);
    assert_eq!(sm.workspaces[0].focus, 1);
    let cmds = sm.enter_event(1);
    assert_eq!(
        cmds,
        vec![Command::RaiseWindow { window: 1 }, Command::FocusWindow { window: 1 }]
    );
    assert_eq!(sm.workspaces[0].focus, 0);
    let unknown = sm.enter_event(77);
    assert_eq!(
        unknown,
        vec![Command::RaiseWindow { window: 77 }, Command::FocusWindow { window: 77 }]
    );
    assert_eq!(sm.workspaces[0].focus, 0);
}

#[test]
fn move_window_to_inactive_workspace_hides_it() {
    let mut sm = manager();
    sm.map_event(1);
    let cmds = sm.move_window_to(1, 3);
    assert_eq!(cmds, vec![Command::UnmapWindow { window: 1 }]);
    assert!(sm.workspaces[0].floating.is_empty());
    assert_eq!(sm.workspaces[3].floating, vec![1]);
}

#[test]
fn move_window_into_the_active_workspace_shows_it() {
    let mut sm = manager();
    sm.map_event(1);
    sm.move_window_to(1, 3);
    let cmds = sm.move_window_to(1, 0);
    assert_eq!(cmds, vec![Command::MapWindow { window: 1 }]);
    assert_eq!(sm.workspaces[0].floating, vec![1]);
    assert!(sm.workspaces[3].floating.is_empty());
}

#[test]
fn moving_an_untracked_window_does_nothing() {
    let mut sm = manager();
    let cmds = sm.move_window_to(9, 3);
    assert!(cmds.is_empty());
    for i in 0..10 {
        assert!(sm.workspaces[i].floating.is_empty());
    }
}

#[test]
fn manager_monocle_promotes_and_restores() {
    let mut sm = manager();
    sm.map_event(2);
    assert_eq!(sm.monocle_focus(), Some(2));
    assert_eq!(sm.workspaces[0].get_monocle(), Some(2));
    assert!(sm.workspaces[0].floating.is_empty());
    assert_eq!(sm.monocle_focus(), None);
    assert_eq!(sm.monocle_clear(), Some(2));
    assert_eq!(sm.workspaces[0].get_monocle(), None);
    assert_eq!(sm.workspaces[0].floating, vec![2]);
    assert_eq!(sm.monocle_clear(), None);
}

#[test]
fn destroy_focus_asks_the_focused_window_to_close() {
    let mut sm = manager();
    sm.map_event(5);
    let cmds = sm.destroy_focus();
    assert_eq!(cmds, vec![Command::CloseWindow { window: 5 }]);
    let mut empty = manager();
    assert!(empty.destroy_focus().is_empty());
}

#[test]
fn destroy_commands_a_graceful_close() {
    let mut sm = manager();
    let cmds = sm.destroy(9);
    assert_eq!(cmds, vec![Command::CloseWindow { window: 9 }]);
}

fn press(sm: &mut StarMan, detail: u8, geo: Option<Rect>) {
    sm.button_press(100, 200, 7, detail, geo);
}

fn geo() -> Rect {
    Rect { x: 10, y: 20, width: 30, height: 40 }
}

#[test]
fn zero_delta_motion_commands_nothing() {
    let mut sm = manager();
    press(&mut sm, 1, Some(geo()));
    assert_eq!(sm.motion_event(100, 200, 0), None);
}

#[test]
fn motion_moves_by_the_delta_from_the_snapshot() {
    let mut sm = manager();
    press(&mut sm, 1, Some(geo()));
    let cmd = sm.motion_event(105, 207, 0);
    assert_eq!(cmd, Some(Command::MoveWindow { window: 7, x: 15, y: 27 }));
    let further = sm.motion_event(90, 190, 0);
    assert_eq!(further, Some(Command::MoveWindow { window: 7, x: 0, y: 10 }));
}

#[test]
fn resize_chord_resizes_when_both_sides_stay_positive() {
    let mut sm = manager();
    press(&mut sm, 1, Some(geo()));
    let cmd = sm.motion_event(105, 207, RESIZE_CHORD);
    assert_eq!(cmd, Some(Command::ResizeWindow { window: 7, width: 35, height: 47 }));
}

#[test]
fn degenerate_resize_commands_nothing() {
    let mut sm = manager();
    press(&mut sm, 1, Some(geo()));
    assert_eq!(sm.motion_event(70, 207, RESIZE_CHORD), None);
    assert_eq!(sm.motion_event(105, 160, RESIZE_CHORD), None);
}

#[test]
fn non_left_button_drags_nothing() {
    let mut sm = manager();
    press(&mut sm, 3, Some(geo()));
    assert_eq!(sm.motion_event(105, 207, 0), None);
}

#[test]
fn failed_geometry_snapshot_makes_the_session_inert() {
    let mut sm = manager();
    press(&mut sm, 1, None);
    assert_eq!(sm.motion_event(105, 207, 0), None);
    assert_eq!(sm.motion_event(105, 207, RESIZE_CHORD), None);
}

#[test]
fn release_always_returns_the_drag_to_idle() {
    let mut sm = manager();
    press(&mut sm, 1, Some(geo()));
    sm.button_release();
    assert!(sm.mouse.is_none());
    assert_eq!(sm.motion_event(105, 207, 0), None);
    sm.button_release();
    assert!(sm.mouse.is_none());
}

#[test]
fn dispatch_routes_a_full_drag_interaction() {
    let mut sm = manager();
    let (h, cmds) = sm.handle_event(Event::ButtonPress {
        root_x: 100,
        root_y: 200,
        child: 7,
        detail: 1,
        geometry: Some(geo()),
    });
    assert!(h.is_none());
    assert!(cmds.is_empty());
    assert_eq!(
        sm.mouse,
        Some(MouseInfo { root_x: 100, root_y: 200, child: 7, detail: 1, geo: Some(geo()) })
    );
    let (_, cmds) = sm.handle_event(Event::MotionNotify {
        root_x: 101,
        root_y: 200,
        child: 7,
        state: 0,
    });
    assert_eq!(cmds, vec![Command::MoveWindow { window: 7, x: 11, y: 20 }]);
    let (_, cmds) = sm.handle_event(Event::ButtonRelease);
    assert!(cmds.is_empty());
    assert!(sm.mouse.is_none());
}

#[test]
fn dispatch_routes_window_lifecycle_and_keys() {
    let mut sm = manager();
    let (_, cmds) = sm.handle_event(Event::MapNotify { window: 1 });
    assert_eq!(
        cmds,
        vec![Command::WatchWindow { window: 1 }, Command::FocusWindow { window: 1 }]
    );
    let (handler, cmds) = sm.handle_event(Event::KeyPress { keycode: 11, state: META as u16 });
    assert!(handler.is_none());
    assert_eq!(cmds, vec![Command::UnmapWindow { window: 1 }]);
    assert_eq!(sm.workspace, 1);
    let (_, cmds) = sm.handle_event(Event::DestroyNotify { window: 99 });
    assert!(cmds.is_empty());
    let (h, cmds) = sm.handle_event(Event::Unknown);
    assert!(h.is_none() && cmds.is_empty());
    let (h, cmds) = sm.handle_event(Event::LeaveNotify { window: 1 });
    assert!(h.is_none() && cmds.is_empty());
}

#[test]
fn trigger_grabs_cover_every_workspace_trigger() {
    let sm = manager();
    let grabs = sm.trigger_grabs();
    assert_eq!(grabs.len(), 10);
    for i in 0..10 {
        assert_eq!(grabs[i], Command::GrabKeycode { mods: META, code: 10 + i as u8 });
    }
}

#[test]
fn mouse_info_captures_press_and_motion_fields() {
    let m = MouseInfo::new(1, 2, 3, 4, Some(geo()));
    assert_eq!(m.root_x, 1);
    assert_eq!(m.root_y, 2);
    assert_eq!(m.child, 3);
    assert_eq!(m.detail, 4);
    assert_eq!(m.geo, Some(geo()));
    let mo = MouseInfo::motion(5, 6, 7, 8);
    assert_eq!(mo.geo, None);
    assert_eq!(mo.root_x, 5);
}
