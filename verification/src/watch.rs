//! The watch trigger: the decision logic of the background watch session.
//!
//! The caller owns the actual notification source and timer and feeds every
//! observation in as a [`WatchInput`]; the trigger answers with the action to
//! perform.  Write notifications within the debounce window of each other are
//! coalesced: a snapshot is taken only once a full quiet window has passed
//! after the last notification.  A failed snapshot or a dead notification
//! channel ends the session; cancellation returns it to idle.  In neither
//! case is another snapshot ever requested until a fresh session is started.

use vstd::prelude::*;

verus! {

/// The phase of a watch session.
#[derive(Clone, Copy, Debug, PartialEq, Eq, Structural)]
pub enum WatchPhase {
    /// No session is running (never started, or cancelled).
    Idle,
    /// The session is observing notifications.
    Watching,
    /// The session ended on a failure and will not resume by itself.
    Faulted,
}

/// One observation fed to a watch session, with times in milliseconds.
#[derive(Clone, Copy, Debug, PartialEq, Eq, Structural)]
pub enum WatchInput {
    /// A filesystem notification for the tracked file arrived; `write` tells
    /// a write-type notification from any other kind.
    Notice { write: bool, at_ms: u64 },
    /// The timer says it is now `at_ms`; nothing arrived meanwhile.
    TimerElapsed { at_ms: u64 },
    /// The snapshot the trigger asked for has been attempted.
    SnapshotDone { ok: bool },
    /// The notification channel is gone.
    ChannelDown,
}

/// What the caller must do after feeding an input.
#[derive(Clone, Copy, Debug, PartialEq, Eq, Structural)]
pub enum WatchAction {
    /// Keep observing; nothing to do now.
    KeepWatching,
    /// Take a snapshot of the tracked file now (with an empty note).
    TakeSnapshot,
    /// The session is over; stop feeding it.
    Stop,
}

/// The state of one watch session.
#[derive(Clone, Copy, Debug, PartialEq, Eq, Structural)]
pub struct WatchTrigger {
    /// The session's phase.
    pub phase: WatchPhase,
    /// The debounce window, in milliseconds.
    pub window_ms: u64,
    /// Whether a write notification awaits its quiet period.
    pub pending: bool,
    /// When `pending`, the earliest time a snapshot may be taken.
    pub deadline_ms: u64,
}

/// The transition relation of a watch session: the state after feeding
/// `input` in state `t`, and the action the caller is told to perform.
pub open spec fn step_spec(t: WatchTrigger, input: WatchInput) -> (WatchTrigger, WatchAction) {
    if t.phase != WatchPhase::Watching {
        (t, WatchAction::Stop)
    } else {
        match input {
            WatchInput::Notice { write, at_ms } => (
                WatchTrigger {
                    pending: t.pending || write,
                    deadline_ms: (at_ms + t.window_ms) as u64,
                    ..t
                },
                WatchAction::KeepWatching,
            ),
            WatchInput::TimerElapsed { at_ms } => {
                if t.pending && at_ms >= t.deadline_ms {
                    (WatchTrigger { pending: false, ..t }, WatchAction::TakeSnapshot)
                } else {
                    (t, WatchAction::KeepWatching)
                }
            },
            WatchInput::SnapshotDone { ok } => {
                if ok {
                    (t, WatchAction::KeepWatching)
                } else {
                    (WatchTrigger { phase: WatchPhase::Faulted, ..t }, WatchAction::Stop)
                }
            },
            WatchInput::ChannelDown => (
                WatchTrigger { phase: WatchPhase::Faulted, ..t },
                WatchAction::Stop,
            ),
        }
    }
}

impl WatchTrigger {
    /// Begin a watch session with the given debounce window.  Establishing
    /// the real notification source is the caller's job; if that fails, the
    /// caller reports `WatchInitError` and never feeds this trigger.
    pub fn start(window_ms: u64) -> (t: WatchTrigger)
        ensures
            t == (WatchTrigger {
                phase: WatchPhase::Watching,
                window_ms,
                pending: false,
                deadline_ms: 0u64,
            }),
    {
        WatchTrigger { phase: WatchPhase::Watching, window_ms, pending: false, deadline_ms: 0 }
    }

    /// Feed one observation; returns the action the caller must perform.
    pub fn on_input(&mut self, input: WatchInput) -> (a: WatchAction)
        requires
            match input {
                WatchInput::Notice { at_ms, .. } => old(self).phase == WatchPhase::Watching
                    ==> at_ms + old(self).window_ms <= u64::MAX,
                _ => true,
            },
        ensures
            (*final(self), a) == step_spec(*old(self), input),
    {
        match self.phase {
            WatchPhase::Watching => {
                match input {
                    WatchInput::Notice { write, at_ms } => {
                        if write {
                            self.pending = true;
                        }
                        self.deadline_ms = at_ms + self.window_ms;
                        WatchAction::KeepWatching
                    },
                    WatchInput::TimerElapsed { at_ms } => {
                        if self.pending && at_ms >= self.deadline_ms {
                            self.pending = false;
                            WatchAction::TakeSnapshot
                        } else {
                            WatchAction::KeepWatching
                        }
                    },
                    WatchInput::SnapshotDone { ok } => {
                        if ok {
                            WatchAction::KeepWatching
                        } else {
                            self.phase = WatchPhase::Faulted;
                            WatchAction::Stop
                        }
                    },
                    WatchInput::ChannelDown => {
                        self.phase = WatchPhase::Faulted;
                        WatchAction::Stop
                    },
                }
            },
            _ => WatchAction::Stop,
        }
    }

    /// Stop observing: the session returns to idle, and no input fed
    /// afterwards ever asks for a snapshot again.
    pub fn cancel(&mut self)
        ensures
            *final(self) == (WatchTrigger { phase: WatchPhase::Idle, ..*old(self) }),
    {
        self.phase = WatchPhase::Idle;
    }
}

/// The actions a watch session answers over a whole run of observations.
pub open spec fn run_actions(t: WatchTrigger, inputs: Seq<WatchInput>) -> Seq<WatchAction>
    decreases inputs.len(),
{
    if inputs.len() == 0 {
        Seq::empty()
    } else {
        let (t1, a) = step_spec(t, inputs[0]);
        seq![a] + run_actions(t1, inputs.drop_first())
    }
}

/// Law: snapshots are owed to writes alone.  A session with no write
/// awaiting its quiet period never asks for a snapshot over a whole run of
/// observations, however long, as long as no write-type notification
/// arrives.  In particular, once a burst's single snapshot has been taken,
/// no further snapshot happens until the file is written again.
pub proof fn lemma_no_snapshot_without_write(t: WatchTrigger, inputs: Seq<WatchInput>)
    requires
        !t.pending,
        forall|k: int| 0 <= k < inputs.len()
            ==> !(#[trigger] inputs[k] matches WatchInput::Notice { write: true, .. }),
    ensures
        forall|k: int| 0 <= k < run_actions(t, inputs).len()
            ==> run_actions(t, inputs)[k] != WatchAction::TakeSnapshot,
    decreases inputs.len(),
{
    if inputs.len() > 0 {
        let (t1, a) = step_spec(t, inputs[0]);
        assert(!t1.pending);
        assert forall|k: int| 0 <= k < inputs.drop_first().len()
            implies !(#[trigger] inputs.drop_first()[k] matches WatchInput::Notice {
            write: true,
            ..
        }) by {
            assert(inputs.drop_first()[k] == inputs[k + 1]);
        }
        lemma_no_snapshot_without_write(t1, inputs.drop_first());
        assert forall|k: int| 0 <= k < run_actions(t, inputs).len()
            implies run_actions(t, inputs)[k] != WatchAction::TakeSnapshot by {
            if k > 0 {
                assert(run_actions(t, inputs)[k]
                    == run_actions(t1, inputs.drop_first())[k - 1]);
            }
        }
    }
}

/// Law: once a session is no longer watching — after `cancel`, or after a
/// failure — no run of further observations, writes included, ever asks for
/// another snapshot.
pub proof fn lemma_no_snapshot_after_stop(t: WatchTrigger, inputs: Seq<WatchInput>)
    requires
        t.phase != WatchPhase::Watching,
    ensures
        forall|k: int| 0 <= k < run_actions(t, inputs).len()
            ==> run_actions(t, inputs)[k] != WatchAction::TakeSnapshot,
    decreases inputs.len(),
{
    if inputs.len() > 0 {
        let (t1, a) = step_spec(t, inputs[0]);
        lemma_no_snapshot_after_stop(t1, inputs.drop_first());
        assert forall|k: int| 0 <= k < run_actions(t, inputs).len()
            implies run_actions(t, inputs)[k] != WatchAction::TakeSnapshot by {
            if k > 0 {
                assert(run_actions(t, inputs)[k]
                    == run_actions(t1, inputs.drop_first())[k - 1]);
            }
        }
    }
}

} // verus!
