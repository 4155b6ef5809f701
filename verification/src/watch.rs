//! The state machine of the loop that regenerates the pattern when the
//! watched file changes. The loop itself waits, reads and writes; this
//! module decides what it does next.

use vstd::prelude::*;

verus! {

/// Seconds to wait after the watched file was deleted before it is made anew.
pub const RECOVERY_DELAY_SECS: u64 = 5;

/// Where the loop stands between two notifications.
#[derive(Clone, Copy, Debug, PartialEq, Eq, Structural)]
pub enum WatchState {
    /// Nothing is pending.
    Idle,
    /// The first notification of a save was seen; the second one regenerates.
    Armed,
    /// The file is gone and not yet watched again.
    Deleted,
}

/// What the file system reported.
#[derive(Clone, Copy, Debug, PartialEq, Eq, Structural)]
pub enum Notification {
    /// The file's content changed.
    Modify,
    /// The file was removed.
    Delete,
    /// Anything else.
    Other,
}

/// What the loop does in answer to a notification.
#[derive(Clone, Copy, Debug, PartialEq, Eq, Structural)]
pub enum Action {
    /// Go on waiting.
    Nothing,
    /// Run one regeneration.
    Regenerate,
    /// Wait, make the file anew and watch it again.
    Recover,
}

impl WatchState {
    /// The state after notification `n`.
    pub open spec fn after(self, n: Notification) -> WatchState {
        match (self, n) {
            (_, Notification::Delete) => WatchState::Deleted,
            (WatchState::Idle, Notification::Modify) => WatchState::Armed,
            (WatchState::Armed, Notification::Modify) => WatchState::Idle,
            _ => self,
        }
    }

    /// The action that notification `n` calls for.
    pub open spec fn action_on(self, n: Notification) -> Action {
        match (self, n) {
            (_, Notification::Delete) => Action::Recover,
            (WatchState::Armed, Notification::Modify) => Action::Regenerate,
            _ => Action::Nothing,
        }
    }

    /// The state after an attempt to make the file anew and watch it
    /// again: armed when both succeeded, unchanged otherwise.
    pub open spec fn after_recovery(self, restored: bool) -> WatchState {
        if self == WatchState::Deleted && restored {
            WatchState::Armed
        } else {
            self
        }
    }

    /// Whether notifications about the file are being delivered.
    pub open spec fn subscribed(self) -> bool {
        self != WatchState::Deleted
    }

    /// The state after the notifications `events`, one after the other.
    pub open spec fn after_all(self, events: Seq<Notification>) -> WatchState
        decreases events.len(),
    {
        if events.len() == 0 {
            self
        } else {
            self.after_all(events.drop_last()).after(events.last())
        }
    }

    /// Number of regenerations that the notifications `events` set off.
    pub open spec fn regenerations(self, events: Seq<Notification>) -> nat
        decreases events.len(),
    {
        if events.len() == 0 {
            0
        } else {
            let earlier = self.regenerations(events.drop_last());
            if self.after_all(events.drop_last()).action_on(events.last()) == Action::Regenerate {
                earlier + 1
            } else {
                earlier
            }
        }
    }

    /// The state in which the loop starts.
    pub fn new() -> (state: WatchState)
        ensures
            state == WatchState::Idle,
    {
        WatchState::Idle
    }

    /// Takes a notification: moves to the next state and says what to do.
    pub fn handle(&mut self, n: Notification) -> (action: Action)
        ensures
            *final(self) == old(self).after(n),
            action == old(self).action_on(n),
    {
        match n {
            Notification::Delete => {
                *self = WatchState::Deleted;
                Action::Recover
            },
            Notification::Modify => {
                match *self {
                    WatchState::Idle => {
                        *self = WatchState::Armed;
                        Action::Nothing
                    },
                    WatchState::Armed => {
                        *self = WatchState::Idle;
                        Action::Regenerate
                    },
                    WatchState::Deleted => Action::Nothing,
                }
            },
            Notification::Other => Action::Nothing,
        }
    }

    /// Takes the outcome of a recovery: `restored` says whether the file
    /// exists again and is watched.
    pub fn recovered(&mut self, restored: bool)
        ensures
            *final(self) == old(self).after_recovery(restored),
    {
        if restored {
            match *self {
                WatchState::Deleted => {
                    *self = WatchState::Armed;
                },
                _ => {},
            }
        }
    }

    /// Whether notifications about the file are being delivered.
    pub fn is_subscribed(&self) -> (yes: bool)
        ensures
            yes == self.subscribed(),
    {
        match *self {
            WatchState::Deleted => false,
            _ => true,
        }
    }
}

/// `count` notifications of a change, one after the other.
pub open spec fn modifies(count: nat) -> Seq<Notification> {
    Seq::new(count, |i: int| Notification::Modify)
}

/// Two notifications of a change in a row set off exactly one
/// regeneration, in whichever state the watched file's loop stands.
pub proof fn lemma_modify_pair_regenerates_once(state: WatchState)
    requires
        state.subscribed(),
    ensures
        state.regenerations(seq![Notification::Modify, Notification::Modify]) == 1,
        state.after_all(seq![Notification::Modify, Notification::Modify]) == state,
{
    reveal_with_fuel(WatchState::after_all, 3);
    reveal_with_fuel(WatchState::regenerations, 3);
    let pair = seq![Notification::Modify, Notification::Modify];
    assert(pair.drop_last() =~= seq![Notification::Modify]);
}

/// From the start, `count` notifications of a change set off a
/// regeneration at every second one.
pub proof fn lemma_modifies_regenerate_every_second(count: nat)
    ensures
        WatchState::Idle.regenerations(modifies(count)) == count / 2,
        WatchState::Idle.after_all(modifies(count)) == if count % 2 == 0 {
            WatchState::Idle
        } else {
            WatchState::Armed
        },
    decreases count,
{
    if count > 0 {
        lemma_modifies_regenerate_every_second((count - 1) as nat);
        assert(modifies(count).drop_last() =~= modifies((count - 1) as nat));
    }
}

/// A deletion calls for a recovery in every state; once the file is made
/// anew and watched again, the loop is subscribed and the next
/// notification of a change regenerates. A failed recovery leaves the loop
/// unsubscribed.
pub proof fn lemma_delete_recovery(state: WatchState)
    ensures
        state.action_on(Notification::Delete) == Action::Recover,
        !state.after(Notification::Delete).subscribed(),
        state.after(Notification::Delete).after_recovery(true).subscribed(),
        state.after(Notification::Delete).after_recovery(true).action_on(Notification::Modify)
            == Action::Regenerate,
        !state.after(Notification::Delete).after_recovery(false).subscribed(),
{
}

} // verus!
