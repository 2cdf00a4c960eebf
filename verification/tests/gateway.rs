//! What the gateway does after each sync.

use tor_js_gateway::gateway::{
    command_or_default, next_with, run, run_at, serves, Command, Next, SyncResult,
};
use tor_js_gateway::time::{is_printable, rfc3339, Duration, Timestamp};

fn synced() -> SyncResult {
    SyncResult::Synced {
        fresh_until: Timestamp { nanos: 0 },
        valid_until: Timestamp { nanos: 2_000_000_000 },
    }
}

#[test]
fn the_default_is_to_run_on() {
    assert_eq!(command_or_default(None), Command::Run { once: false });
    assert_eq!(command_or_default(Some(Command::Init)), Command::Init);
}

#[test]
fn port_0_disables_the_server() {
    assert!(!serves(0));
    assert!(serves(1));
}

#[test]
fn a_gateway_that_runs_once_exits_after_the_first_success() {
    let delay = Duration::from_secs(5);
    assert_eq!(next_with(true, synced(), delay), Next::Exit);
    assert_eq!(next_with(false, synced(), delay), Next::Sleep(delay));
    let retry = Next::Sleep(Duration::from_secs(60));
    for once in [true, false] {
        assert_eq!(next_with(once, SyncResult::Failed, delay), retry);
        assert_eq!(next_with(once, SyncResult::Incomplete, delay), retry);
    }
}

#[test]
fn a_sync_that_is_overdue_comes_at_once() {
    assert_eq!(run(false, synced()), Next::Sleep(Duration { nanos: 0 }));
    assert_eq!(run(true, synced()), Next::Exit);
    match run_at(false, synced(), Timestamp { nanos: -5_000_000_000 }) {
        Next::Sleep(d) => assert!(5_000_000_000 <= d.nanos && d.nanos <= 6_000_000_000),
        Next::Exit => panic!("ended"),
    }
    assert_eq!(run(false, SyncResult::Failed), Next::Sleep(Duration::from_secs(60)));
}

#[test]
fn times_are_written_as_rfc_3339() {
    assert_eq!(rfc3339(Timestamp { nanos: 0 }), "1970-01-01T00:00:00Z");
    assert_eq!(
        rfc3339(Timestamp { nanos: 1_784_109_600_500_000_000 }),
        "2026-07-15T10:00:00.500000000Z"
    );
    assert_eq!(
        rfc3339(Timestamp { nanos: 253_402_300_799_000_000_000 }),
        "9999-12-31T23:59:59Z"
    );
    assert!(!is_printable(Timestamp { nanos: 253_402_300_800_000_000_000 }));
    assert!(!is_printable(Timestamp { nanos: -1 }));
}
