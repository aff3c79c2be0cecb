use snapshot_engine::watch::WatchAction;
use snapshot_engine::watch::WatchInput;
use snapshot_engine::watch::WatchPhase;
use snapshot_engine::watch::WatchTrigger;

fn snapshots_taken(trigger: &mut WatchTrigger, inputs: &[WatchInput]) -> usize {
    let mut taken = 0;
    for input in inputs {
        if trigger.on_input(*input) == WatchAction::TakeSnapshot {
            taken += 1;
        }
    }
    taken
}

#[test]
fn burst_of_writes_yields_one_snapshot_after_quiet_window() {
    let mut trigger = WatchTrigger::start(10_000);
    // Six write notifications, one second apart.
    let mut inputs: Vec<WatchInput> = (0..6)
        .map(|i| WatchInput::Notice { write: true, at_ms: i * 1_000 })
        .collect();
    // The window after the last write has not elapsed yet: still quiet time.
    inputs.push(WatchInput::TimerElapsed { at_ms: 14_999 });
    // Ten seconds of silence after the burst.
    inputs.push(WatchInput::TimerElapsed { at_ms: 15_000 });
    // Nothing further is pending.
    inputs.push(WatchInput::SnapshotDone { ok: true });
    inputs.push(WatchInput::TimerElapsed { at_ms: 30_000 });
    assert_eq!(snapshots_taken(&mut trigger, &inputs), 1);
    assert_eq!(trigger.phase, WatchPhase::Watching);
}

#[test]
fn non_write_notifications_never_trigger() {
    let mut trigger = WatchTrigger::start(5_000);
    let inputs = [
        WatchInput::Notice { write: false, at_ms: 0 },
        WatchInput::Notice { write: false, at_ms: 100 },
        WatchInput::TimerElapsed { at_ms: 20_000 },
    ];
    assert_eq!(snapshots_taken(&mut trigger, &inputs), 0);
}

#[test]
fn writes_during_quiet_period_postpone_the_snapshot() {
    let mut trigger = WatchTrigger::start(10_000);
    let inputs = [
        WatchInput::Notice { write: true, at_ms: 0 },
        // 9 seconds of silence are not enough.
        WatchInput::TimerElapsed { at_ms: 9_000 },
        WatchInput::Notice { write: true, at_ms: 9_500 },
        WatchInput::TimerElapsed { at_ms: 19_000 },
    ];
    assert_eq!(snapshots_taken(&mut trigger, &inputs), 0);
    let late = [WatchInput::TimerElapsed { at_ms: 19_500 }];
    assert_eq!(snapshots_taken(&mut trigger, &late), 1);
}

#[test]
fn any_notification_postpones_the_deadline() {
    let mut trigger = WatchTrigger::start(10_000);
    let inputs = [
        WatchInput::Notice { write: true, at_ms: 0 },
        // A non-write notification keeps the file busy without adding work.
        WatchInput::Notice { write: false, at_ms: 9_000 },
        WatchInput::TimerElapsed { at_ms: 15_000 },
    ];
    assert_eq!(snapshots_taken(&mut trigger, &inputs), 0);
    let late = [WatchInput::TimerElapsed { at_ms: 19_000 }];
    assert_eq!(snapshots_taken(&mut trigger, &late), 1);
}

#[test]
fn cancel_stops_all_future_snapshots() {
    let mut trigger = WatchTrigger::start(1_000);
    let before = [WatchInput::Notice { write: true, at_ms: 0 }];
    assert_eq!(snapshots_taken(&mut trigger, &before), 0);
    trigger.cancel();
    assert_eq!(trigger.phase, WatchPhase::Idle);
    // Three more write notifications arrive for the same source.
    let after = [
        WatchInput::Notice { write: true, at_ms: 2_000 },
        WatchInput::Notice { write: true, at_ms: 4_000 },
        WatchInput::Notice { write: true, at_ms: 6_000 },
        WatchInput::TimerElapsed { at_ms: 60_000 },
    ];
    assert_eq!(snapshots_taken(&mut trigger, &after), 0);
    assert_eq!(trigger.phase, WatchPhase::Idle);
}

#[test]
fn failed_snapshot_faults_the_session() {
    let mut trigger = WatchTrigger::start(1_000);
    let inputs = [
        WatchInput::Notice { write: true, at_ms: 0 },
        WatchInput::TimerElapsed { at_ms: 1_000 },
    ];
    assert_eq!(snapshots_taken(&mut trigger, &inputs), 1);
    assert_eq!(trigger.on_input(WatchInput::SnapshotDone { ok: false }), WatchAction::Stop);
    assert_eq!(trigger.phase, WatchPhase::Faulted);
    // Faulted sessions never snapshot again without a fresh start.
    let after = [
        WatchInput::Notice { write: true, at_ms: 5_000 },
        WatchInput::TimerElapsed { at_ms: 60_000 },
    ];
    assert_eq!(snapshots_taken(&mut trigger, &after), 0);
}

#[test]
fn dead_channel_faults_the_session() {
    let mut trigger = WatchTrigger::start(1_000);
    assert_eq!(trigger.on_input(WatchInput::ChannelDown), WatchAction::Stop);
    assert_eq!(trigger.phase, WatchPhase::Faulted);
}
