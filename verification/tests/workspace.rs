use starwm::command::Command;
use starwm::key::{Key, META};
use starwm::window::Workspace;

fn ws(sym: &str) -> Workspace {
    Workspace::new(Key::new(META, sym))
}

#[test]
fn add_focuses_last_window() {
    let mut w = ws("1");
    assert_eq!(w.get_focus(), None);
    w.add(7);
    assert_eq!(w.floating, vec![7]);
    assert_eq!(w.focus, 0);
    assert_eq!(w.get_focus(), Some(7));
    w.add(9);
    assert_eq!(w.floating, vec![7, 9]);
    assert_eq!(w.focus, 1);
    assert_eq!(w.get_focus(), Some(9));
}

#[test]
fn focus_stays_in_range_over_adds_and_removes() {
    let mut w = ws("1");
    let steps: Vec<(bool, u32)> = vec![
        (true, 1),
        (true, 2),
        (true, 3),
        (false, 1),
        (true, 4),
        (false, 4),
        (false, 3),
        (false, 2),
        (true, 5),
    ];
    for (adding, window) in steps {
        if adding {
            w.add(window);
        } else {
            w.remove(window);
        }
        if w.floating.is_empty() {
            assert_eq!(w.get_focus(), None);
        } else {
            assert!(w.focus < w.floating.len());
            assert_eq!(w.get_focus(), Some(w.floating[w.focus]));
        }
    }
}

#[test]
fn remove_clamps_focus_to_last_index() {
    let mut w = ws("1");
    w.add(1);
    w.add(2);
    w.add(3);
    assert_eq!(w.focus, 2);
    w.remove(3);
    assert_eq!(w.floating, vec![1, 2]);
    assert_eq!(w.focus, 1);
    w.remove(1);
    assert_eq!(w.floating, vec![2]);
    assert_eq!(w.focus, 0);
    w.remove(2);
    assert!(w.floating.is_empty());
    assert_eq!(w.focus, 0);
    assert_eq!(w.get_focus(), None);
}

#[test]
fn remove_absent_window_changes_nothing() {
    let mut w = ws("1");
    w.add(1);
    w.add(2);
    w.remove(99);
    assert_eq!(w.floating, vec![1, 2]);
    assert_eq!(w.focus, 1);
}

#[test]
fn remove_of_monocle_window_clears_monocle() {
    let mut w = ws("1");
    w.add(5);
    assert_eq!(w.set_monocle(), Some(5));
    assert_eq!(w.get_monocle(), Some(5));
    w.remove(5);
    assert_eq!(w.get_monocle(), None);
    assert!(!w.contains(5));
}

#[test]
fn set_focus_moves_focus_to_member() {
    let mut w = ws("1");
    w.add(1);
    w.add(2);
    w.add(3);
    w.set_focus(1);
    assert_eq!(w.focus, 0);
    assert_eq!(w.get_focus(), Some(1));
}

#[test]
fn monocle_round_trip_restores_promoted_window() {
    let mut w = ws("1");
    w.add(2);
    assert_eq!(w.focus, 0);
    assert_eq!(w.set_monocle(), Some(2));
    assert_eq!(w.get_monocle(), Some(2));
    assert!(w.floating.is_empty());
    assert_eq!(w.clear_monocle(), Some(2));
    assert_eq!(w.get_monocle(), None);
    assert_eq!(w.floating, vec![2]);
    assert_eq!(w.focus, 0);
}

#[test]
fn monocle_reinserts_at_recorded_focus() {
    let mut w = ws("1");
    w.add(1);
    w.add(2);
    w.add(3);
    assert_eq!(w.focus, 2);
    assert_eq!(w.set_monocle(), Some(3));
    assert_eq!(w.floating, vec![1, 2]);
    assert_eq!(w.focus, 1);
    assert_eq!(w.clear_monocle(), Some(3));
    assert_eq!(w.floating, vec![1, 3, 2]);
    assert_eq!(w.focus, 1);
}

#[test]
fn set_monocle_is_noop_when_empty_or_monocled() {
    let mut w = ws("1");
    assert_eq!(w.set_monocle(), None);
    w.add(4);
    assert_eq!(w.set_monocle(), Some(4));
    assert_eq!(w.set_monocle(), None);
    assert_eq!(w.get_monocle(), Some(4));
}

#[test]
fn clear_monocle_is_noop_when_not_monocled() {
    let mut w = ws("1");
    w.add(4);
    assert_eq!(w.clear_monocle(), None);
    assert_eq!(w.floating, vec![4]);
}

#[test]
fn contains_is_exclusive_between_floating_and_monocle() {
    let mut w = ws("1");
    w.add(1);
    w.add(2);
    assert!(w.contains(1));
    assert!(w.contains(2));
    assert!(!w.contains(3));
    assert_eq!(w.set_monocle(), Some(2));
    assert!(w.contains(2));
    assert!(w.contains(1));
    assert_eq!(w.find(2), None);
    assert_eq!(w.find(1), Some(0));
    assert!(!w.floating.contains(&2));
}

#[test]
fn show_and_conceal_command_every_member() {
    let mut w = ws("1");
    w.add(1);
    w.add(2);
    w.add(3);
    assert_eq!(w.set_monocle(), Some(3));
    let shown = w.show();
    assert_eq!(
        shown,
        vec![
            Command::MapWindow { window: 1 },
            Command::MapWindow { window: 2 },
            Command::MapWindow { window: 3 },
        ]
    );
    let hidden = w.conceal();
    assert_eq!(
        hidden,
        vec![
            Command::UnmapWindow { window: 1 },
            Command::UnmapWindow { window: 2 },
            Command::UnmapWindow { window: 3 },
        ]
    );
}

#[test]
fn show_of_empty_workspace_commands_nothing() {
    let w = ws("1");
    assert!(w.show().is_empty());
    assert!(w.conceal().is_empty());
}
