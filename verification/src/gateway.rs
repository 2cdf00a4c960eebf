//! What the gateway does: its commands, and the loop that keeps its directory documents fresh.

use vstd::prelude::*;

use crate::sync::{in_first_half, relay_sync_delay_at};
use crate::time::{system_now, Duration, Timestamp, NANOS_PER_SEC};

verus! {

/// What the gateway is asked to do.
#[derive(Clone, Copy, Debug, PartialEq, Eq, Structural)]
pub enum Command {
    /// Run the gateway server (default when no subcommand given).
    Run {
        /// Exit after the first successful sync instead of looping.
        once: bool,
    },
    /// Create a default config file.
    Init,
    /// Print the current config from disk.
    ShowConfig,
    /// Print the hardcoded default config.
    ShowDefaultConfig,
    /// Install and start a systemd user service.
    Install,
    /// Stop and remove the systemd user service.
    Uninstall,
}

/// The command where none is given: run, and go on running.
pub fn command_or_default(given: Option<Command>) -> (r: Command)
    ensures
        r == (match given {
            Some(c) => c,
            None => Command::Run { once: false },
        }),
{
    match given {
        Some(c) => c,
        None => Command::Run { once: false },
    }
}

/// Tests whether the HTTP server is to be started: port 0 disables it.
pub fn serves(port: u16) -> (r: bool)
    ensures
        r == (port != 0),
{
    port != 0
}

/// What came of a sync.
#[derive(Clone, Copy, Debug, PartialEq, Eq, Structural)]
pub enum SyncResult {
    /// The documents are in place, and fresh and valid for this long.
    Synced { fresh_until: Timestamp, valid_until: Timestamp },
    /// There is no complete set of documents yet.
    Incomplete,
    /// The sync failed.
    Failed,
}

/// What the loop does after a sync.
#[derive(Clone, Copy, Debug, PartialEq, Eq, Structural)]
pub enum Next {
    /// End the program.
    Exit,
    /// Wait, and sync again.
    Sleep(Duration),
}

/// The seconds after which a sync that did not succeed is tried again.
pub const RETRY_SECS: u64 = 60;

/// What the loop does after a sync, where `delay` is the time until the next one is due: a gateway
/// that is to run once exits after the first sync that succeeds, and never before.
pub open spec fn after_sync(once: bool, result: SyncResult, delay: Duration) -> Next {
    match result {
        SyncResult::Synced { .. } => if once {
            Next::Exit
        } else {
            Next::Sleep(delay)
        },
        _ => Next::Sleep(Duration { nanos: (RETRY_SECS * NANOS_PER_SEC) as u128 }),
    }
}

/// What the loop does after a sync.
pub fn next_with(once: bool, result: SyncResult, delay: Duration) -> (r: Next)
    ensures
        r == after_sync(once, result, delay),
{
    match result {
        SyncResult::Synced { .. } => {
            if once {
                Next::Exit
            } else {
                Next::Sleep(delay)
            }
        },
        _ => Next::Sleep(Duration::from_secs(RETRY_SECS)),
    }
}

/// What the loop may do after a sync at `now`: the next one comes at some time in the first
/// half-interval after the documents stop being fresh.
pub open spec fn may_follow(once: bool, result: SyncResult, now: Timestamp, next: Next) -> bool {
    exists|delay: Duration|
        next == #[trigger] after_sync(once, result, delay) && match result {
            SyncResult::Synced { fresh_until, valid_until } => once || in_first_half(
                fresh_until,
                valid_until,
                now,
                delay.nanos as int,
            ),
            _ => true,
        }
}

/// What the loop does after a sync at `now`.
pub fn run_at(once: bool, result: SyncResult, now: Timestamp) -> (r: Next)
    requires
        result matches SyncResult::Synced { fresh_until, valid_until } ==> fresh_until.wf()
            && valid_until.wf(),
        now.wf(),
    ensures
        may_follow(once, result, now, r),
{
    let delay = match result {
        SyncResult::Synced { fresh_until, valid_until } => if once {
            Duration { nanos: 0 }
        } else {
            relay_sync_delay_at(fresh_until, valid_until, now)
        },
        _ => Duration { nanos: 0 },
    };
    let r = next_with(once, result, delay);
    assert(r == after_sync(once, result, delay));
    r
}

/// What the loop does after a sync, with the next one at a random time in the first half-interval
/// after the documents stop being fresh. That `now` is what the clock shows is not stated.
pub fn run(once: bool, result: SyncResult) -> (r: Next)
    requires
        result matches SyncResult::Synced { fresh_until, valid_until } ==> fresh_until.wf()
            && valid_until.wf(),
    ensures
        exists|now: Timestamp| now.wf() && #[trigger] may_follow(once, result, now, r),
{
    let now = system_now();
    let r = run_at(once, result, now);
    assert(may_follow(once, result, now, r));
    r
}

/// A gateway ends by itself only where it is to run once, and then only after a sync that
/// succeeded.
pub proof fn law_exits_only_after_success(once: bool, result: SyncResult, delay: Duration)
    ensures
        after_sync(once, result, delay) is Exit <==> once && result is Synced,
{
}

/// After a sync that succeeded, a gateway that goes on waits for as long as it was told; after any
/// other it waits a minute, and tries again.
pub proof fn law_waits(once: bool, result: SyncResult, delay: Duration)
    ensures
        result is Synced && !once ==> after_sync(once, result, delay) == Next::Sleep(delay),
        !(result is Synced) ==> after_sync(once, result, delay) == Next::Sleep(
            Duration { nanos: 60_000_000_000 },
        ),
{
}

/// What follows a sync is an exit exactly where the gateway is to run once and the sync succeeded.
/// The next sync, where the documents are still fresh, comes after they stop being so, and within
/// half of the time that they are valid after that; where that time is past it comes at once, or
/// in what is left of it. It comes after a minute where there are no documents.
pub proof fn law_next_sync(once: bool, result: SyncResult, now: Timestamp, next: Next)
    requires
        may_follow(once, result, now, next),
    ensures
        next is Exit <==> once && result is Synced,
        next matches Next::Sleep(wait) ==> match result {
            SyncResult::Synced { fresh_until, valid_until } => {
                let at = now.nanos + wait.nanos - fresh_until.nanos;
                let most = valid_until.nanos - fresh_until.nanos;
                &&& now.nanos <= fresh_until.nanos ==> 0 <= at
                &&& fresh_until.nanos <= valid_until.nanos ==> wait.nanos == 0 || 2 * at <= most
                &&& fresh_until.nanos > valid_until.nanos ==> wait.nanos == 0 || at
                    <= 900_000_000_000
            },
            _ => wait.nanos == 60_000_000_000,
        },
{
}

} // verus!
