use taxstud_core::ui_state::{PendingAction, SimpleConfirmationAction, UiState};

#[test]
fn new_state_waits_for_nothing() {
    let mut s = UiState::new();
    assert_eq!(s.pending_action, None);
    assert_eq!(s.simple_confirmation_action, None);
    assert_eq!(s.take_pending(), None);
    assert_eq!(s.take_simple_confirmation(), None);
}

#[test]
fn pending_action_is_taken_once() {
    let mut s = UiState::new();
    s.set_pending(PendingAction::Open);
    s.set_pending(PendingAction::Exit);
    s.set_simple_confirmation(SimpleConfirmationAction::Revert);
    assert_eq!(s.take_pending(), Some(PendingAction::Exit));
    assert_eq!(s.take_pending(), None);
    assert_eq!(s.simple_confirmation_action, Some(SimpleConfirmationAction::Revert));
    s.set_pending(PendingAction::New);
    assert_eq!(s.take_simple_confirmation(), Some(SimpleConfirmationAction::Revert));
    assert_eq!(s.take_simple_confirmation(), None);
    assert_eq!(s.pending_action, Some(PendingAction::New));
}
