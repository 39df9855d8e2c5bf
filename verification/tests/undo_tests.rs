use web_games::undo_redo::{redo, undo, UndoHistory, MAX_UNDO_HISTORY};

#[test]
fn new_history_holds_the_sound_once() {
    let history = UndoHistory::new(String::from("a"));
    assert_eq!(history.sound(), "a");
    assert_eq!(history.len(), 1);
    assert_eq!(history.undo_position(), 0);
}

#[test]
fn undo_and_redo_at_the_ends_do_nothing() {
    let mut history = UndoHistory::new(1u32);
    assert!(!undo(&mut history));
    assert!(!redo(&mut history));
    assert_eq!(*history.sound(), 1);
    assert_eq!(history.undo_position(), 0);
}

#[test]
fn recording_changes_and_stepping_through_them() {
    let mut history = UndoHistory::new(1u32);
    assert!(!history.record_change());
    history.set_sound(2);
    assert!(history.record_change());
    history.set_sound(3);
    assert!(history.record_change());
    assert_eq!(history.len(), 3);
    assert_eq!(history.undo_position(), 2);

    assert!(undo(&mut history));
    assert_eq!(*history.sound(), 2);
    assert!(undo(&mut history));
    assert_eq!(*history.sound(), 1);
    assert!(!undo(&mut history));
    assert!(redo(&mut history));
    assert_eq!(*history.sound(), 2);
    assert_eq!(history.undo_position(), 1);
}

#[test]
fn redo_undoes_undo_and_undo_undoes_redo() {
    let mut history = UndoHistory::new(10u32);
    history.set_sound(20);
    history.record_change();
    assert!(undo(&mut history));
    assert!(redo(&mut history));
    assert_eq!(*history.sound(), 20);
    assert_eq!(history.undo_position(), 1);
    assert!(undo(&mut history));
    assert!(redo(&mut history));
    assert!(undo(&mut history));
    assert_eq!(*history.sound(), 10);
    assert_eq!(history.undo_position(), 0);
}

#[test]
fn recording_after_undo_drops_the_redo_versions() {
    let mut history = UndoHistory::new(1u32);
    history.set_sound(2);
    history.record_change();
    history.set_sound(3);
    history.record_change();
    undo(&mut history);
    undo(&mut history);
    history.set_sound(7);
    assert!(history.record_change());
    assert_eq!(history.len(), 2);
    assert_eq!(history.undo_position(), 1);
    assert!(!redo(&mut history));
    assert!(undo(&mut history));
    assert_eq!(*history.sound(), 1);
}

#[test]
fn full_history_drops_the_oldest_version() {
    let mut history = UndoHistory::new(0usize);
    for value in 1..MAX_UNDO_HISTORY {
        history.set_sound(value);
        assert!(history.record_change());
    }
    assert_eq!(history.len(), MAX_UNDO_HISTORY);
    assert_eq!(history.undo_position(), MAX_UNDO_HISTORY - 1);
    history.set_sound(MAX_UNDO_HISTORY);
    assert!(history.record_change());
    assert_eq!(history.len(), MAX_UNDO_HISTORY);
    assert_eq!(history.undo_position(), MAX_UNDO_HISTORY - 1);
    assert!(undo(&mut history));
    assert_eq!(*history.sound(), MAX_UNDO_HISTORY - 1);
    let mut steps = 1;
    while undo(&mut history) {
        steps += 1;
    }
    assert_eq!(steps, MAX_UNDO_HISTORY - 1);
    assert_eq!(*history.sound(), 1);
}
