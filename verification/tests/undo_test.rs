use gitpulsar::undo::{redo_action, undo_action, StagingAction, UndoStack, UndoableOp};

fn path_of(op: &UndoableOp) -> Option<String> {
    match op {
        UndoableOp::StageFile(p) | UndoableOp::UnstageFile(p) | UndoableOp::Discard(p, _) => {
            Some(p.clone())
        }
        _ => None,
    }
}

#[test]
fn undo_returns_last_pushed() {
    let mut s = UndoStack::default();
    s.push(UndoableOp::StageFile("a".into()));
    s.push(UndoableOp::StageFile("b".into()));
    let op = s.undo().unwrap();
    assert_eq!(path_of(&op), Some("b".to_string()));
    assert!(s.can_undo());
    assert!(s.can_redo());
}

#[test]
fn redo_after_undo_gives_same_op() {
    let mut s = UndoStack::new();
    s.push(UndoableOp::UnstageFile("f".into()));
    let u = s.undo().unwrap();
    let r = s.redo().unwrap();
    assert_eq!(path_of(&u), path_of(&r));
    assert!(matches!(r, UndoableOp::UnstageFile(_)));
    assert!(s.can_undo());
    assert!(!s.can_redo());
}

#[test]
fn push_clears_redo() {
    let mut s = UndoStack::new();
    s.push(UndoableOp::StageAll);
    s.undo();
    assert!(s.can_redo());
    s.push(UndoableOp::UnstageAll);
    assert!(!s.can_redo());
    assert!(s.redo().is_none());
}

#[test]
fn empty_stack_has_nothing() {
    let mut s = UndoStack::new();
    assert!(!s.can_undo());
    assert!(!s.can_redo());
    assert!(s.undo().is_none());
    assert!(s.redo().is_none());
}

#[test]
fn clear_forgets_everything() {
    let mut s = UndoStack::new();
    s.push(UndoableOp::StageAll);
    s.push(UndoableOp::StageAll);
    s.undo();
    s.clear();
    assert!(!s.can_undo());
    assert!(!s.can_redo());
}

#[test]
fn discard_keeps_its_content_through_undo() {
    let mut s = UndoStack::new();
    s.push(UndoableOp::Discard("x.txt".into(), vec![1, 2, 3]));
    match s.undo().unwrap() {
        UndoableOp::Discard(p, c) => {
            assert_eq!(p, "x.txt");
            assert_eq!(c, vec![1, 2, 3]);
        }
        _ => panic!("wrong op"),
    }
    match s.redo().unwrap() {
        UndoableOp::Discard(_, c) => assert_eq!(c, vec![1, 2, 3]),
        _ => panic!("wrong op"),
    }
}

#[test]
fn undo_and_redo_actions_are_opposites() {
    let op = UndoableOp::StageFile("p".into());
    assert!(matches!(undo_action(&op), StagingAction::UnstageFile(ref p) if p == "p"));
    assert!(matches!(redo_action(&op), StagingAction::StageFile(ref p) if p == "p"));
    assert!(matches!(undo_action(&UndoableOp::StageAll), StagingAction::UnstageAll));
    assert!(matches!(redo_action(&UndoableOp::UnstageAll), StagingAction::UnstageAll));
    let d = UndoableOp::Discard("q".into(), vec![9]);
    assert!(matches!(undo_action(&d), StagingAction::RestoreFile(ref p, ref c) if p == "q" && c == &vec![9]));
    assert!(matches!(redo_action(&d), StagingAction::DiscardFile(ref p) if p == "q"));
}
