//! Noticing that the catalog of apps changed on disk.
use vstd::prelude::*;

use crate::time::Nanos;

verus! {

/// How long a package manager is left to finish, so that hundreds of changed
/// files cost one scan.
pub const DEBOUNCE: Nanos = 750_000_000;

/// True once per detected change.
pub fn take(dirty: &mut bool) -> (r: bool)
    ensures
        r == *old(dirty),
        !*final(dirty),
{
    let r: bool = *dirty;
    *dirty = false;
    r
}

/// What the watching thread does next.
#[derive(Clone, Copy, Debug, PartialEq, Eq, Structural)]
pub enum WatchStep {
    /// Wait again.
    Wait,
    /// Swallow what is queued, let the transaction finish, swallow the rest of
    /// it, and mark the catalog as changed.
    Settle,
    /// Give up watching.
    Stop,
}

/// How a wait for changes ended.
#[derive(Clone, Copy, Debug, PartialEq, Eq, Structural)]
pub enum WaitEnd {
    Changed,
    Interrupted,
    Failed,
}

/// What the watching thread does after a wait.
pub fn after_wait(end: WaitEnd) -> (r: WatchStep)
    ensures
        r == match end {
            WaitEnd::Changed => WatchStep::Settle,
            WaitEnd::Interrupted => WatchStep::Wait,
            WaitEnd::Failed => WatchStep::Stop,
        },
{
    match end {
        WaitEnd::Changed => WatchStep::Settle,
        WaitEnd::Interrupted => WatchStep::Wait,
        WaitEnd::Failed => WatchStep::Stop,
    }
}

/// A change is told once.
pub proof fn law_change_is_told_once(a: &mut bool, b: &mut bool, first: bool, second: bool)
    requires
        call_ensures(take, (a,), first),
        *final(a) == *old(b),
        call_ensures(take, (b,), second),
    ensures
        first == *old(a),
        !second,
{
}

/// Only a change is waited out, and only a failure ends the watch: a signal in
/// between does neither.
pub proof fn law_watch_ends_with_a_failure(end: WaitEnd, r: WatchStep)
    requires
        call_ensures(after_wait, (end,), r),
    ensures
        r == WatchStep::Settle <==> end == WaitEnd::Changed,
        r == WatchStep::Stop <==> end == WaitEnd::Failed,
        r == WatchStep::Wait <==> end == WaitEnd::Interrupted,
{
}

} // verus!
