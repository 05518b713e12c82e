//! Laws of a measurement's steps.

use vstd::prelude::*;

use crate::inject::CounterSnapshot;
use crate::session::{stat_start, stat_step, StatEvent, StatState};

verus! {

/// Law: a system-wide measurement begins with the caller, any other with the
/// pipe.
pub proof fn law_stat_start()
    ensures
        stat_start(true) == StatState::ReadCaller,
        stat_start(false) == StatState::OpenPipe,
{
}

/// Law: a measurement goes on only with what it waits for, and once it has come
/// to its end it stays there.
pub proof fn law_stat_waits(
    region: bool,
    n_fixed: usize,
    before: StatState,
    event: StatEvent,
    after: StatState,
)
    requires
        stat_step(region, n_fixed, before, event, after),
    ensures
        before is Finished ==> after == before,
        before is ReadCaller && !(event is Caller) ==> after == before,
        before is SnapshotBefore && !(event is Snapshot) ==> after == before,
        before is OpenPipe && !(event is Pipe) ==> after == before,
        before is Run && !(event is Exited) ==> after == before,
        before is SnapshotAfter && !(event is Snapshot) ==> after == before,
        before is ReadResults && !(event is Results) ==> after == before,
        before is ReadResults && event is Results ==> after is Finished,
{
}

/// Law: the snapshot before the command is kept while the command runs, and the
/// measurement is that snapshot and the one after it.
pub proof fn law_snapshots_are_kept(
    region: bool,
    n_fixed: usize,
    ids: Option<(u32, u32)>,
    before: CounterSnapshot,
    after: CounterSnapshot,
    ready: StatState,
    ended: StatState,
    measured: StatState,
)
    requires
        stat_step(
            region,
            n_fixed,
            StatState::SnapshotBefore { ids },
            StatEvent::Snapshot(before),
            ready,
        ),
        stat_step(region, n_fixed, ready, StatEvent::Exited, ended),
        stat_step(region, n_fixed, ended, StatEvent::Snapshot(after), measured),
    ensures
        ready matches StatState::Run(launch) && launch.ids == ids && launch.before == Some(before)
            && launch.environment@.len() == 0,
        measured == StatState::Finished(Ok((before, after))),
{
}

} // verus!
