//! What the user interface is waiting for: an action that needs the user's
//! confirmation before it may run.

use vstd::prelude::*;

verus! {

/// An action that waits until the user has decided about unsaved changes.
#[derive(Debug, Clone, Copy, PartialEq, Eq, Structural)]
pub enum PendingAction {
    Open,
    New,
    Exit,
}

/// An action that waits for a plain yes or no.
#[derive(Debug, Clone, Copy, PartialEq, Eq, Structural)]
pub enum SimpleConfirmationAction {
    Revert,
}

/// The actions that wait for confirmation, at most one of each kind.
#[derive(Debug, PartialEq, Eq)]
pub struct UiState {
    pub pending_action: Option<PendingAction>,
    pub simple_confirmation_action: Option<SimpleConfirmationAction>,
}

impl UiState {
    /// A state in which nothing waits.
    pub fn new() -> (r: Self)
        ensures
            r.pending_action is None,
            r.simple_confirmation_action is None,
    {
        UiState { pending_action: None, simple_confirmation_action: None }
    }

    /// Makes `action` the one that waits, in place of any other.
    pub fn set_pending(&mut self, action: PendingAction)
        ensures
            final(self).pending_action == Some(action),
            final(self).simple_confirmation_action == old(self).simple_confirmation_action,
    {
        self.pending_action = Some(action);
    }

    /// Hands out the action that waits; after this none waits.
    pub fn take_pending(&mut self) -> (r: Option<PendingAction>)
        ensures
            r == old(self).pending_action,
            final(self).pending_action is None,
            final(self).simple_confirmation_action == old(self).simple_confirmation_action,
    {
        let taken = self.pending_action;
        self.pending_action = None;
        taken
    }

    /// Makes `action` the confirmation that waits, in place of any other.
    pub fn set_simple_confirmation(&mut self, action: SimpleConfirmationAction)
        ensures
            final(self).simple_confirmation_action == Some(action),
            final(self).pending_action == old(self).pending_action,
    {
        self.simple_confirmation_action = Some(action);
    }

    /// Hands out the confirmation that waits; after this none waits.
    pub fn take_simple_confirmation(&mut self) -> (r: Option<SimpleConfirmationAction>)
        ensures
            r == old(self).simple_confirmation_action,
            final(self).simple_confirmation_action is None,
            final(self).pending_action == old(self).pending_action,
    {
        let taken = self.simple_confirmation_action;
        self.simple_confirmation_action = None;
        taken
    }
}

} // verus!
