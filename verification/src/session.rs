//! A measurement, one step at a time.
//!
//! A system-wide measurement reads the counters of all CPUs before and after
//! the command, which runs as the caller of `sudo`. A per-process measurement
//! lets the command's processes count for themselves and send their results
//! through a pipe.

use vstd::prelude::*;

use crate::aliases::pair_texts;
use crate::inject::{
    is_native_order, messages, read_all_inject_results, received, total, ByteOrder, CounterSnapshot,
};
use crate::stat::{
    caller_ids, child_environment, child_variables, drop_privileges, is_per_process_interval,
    optional_text, per_process_interval,
};

verus! {

/// How the command is run.
#[derive(Debug)]
pub struct Launch {
    /// The user and group to run it as, where they are to be changed.
    pub ids: Option<(u32, u32)>,
    /// What is added to its environment.
    pub environment: Vec<(String, String)>,
    /// The counters before it, where they are read from outside.
    pub before: Option<CounterSnapshot>,
}

/// How far a measurement has come, and what it waits for.
#[derive(Debug)]
pub enum StatState {
    /// It waits for the caller's user and group, out of the environment.
    ReadCaller,
    /// It waits for the counters before the command.
    SnapshotBefore { ids: Option<(u32, u32)> },
    /// It waits for the library that counts inside measured processes, and for
    /// the pipe through which it sends results.
    OpenPipe,
    /// It waits for the command to have run.
    Run(Launch),
    /// It waits for the counters after the command.
    SnapshotAfter { before: CounterSnapshot },
    /// It waits for all that came through the pipe.
    ReadResults,
    /// It has come to its end: the snapshots whose difference the command made.
    Finished(Result<(CounterSnapshot, CounterSnapshot), String>),
}

/// What a measurement is told.
#[derive(Debug)]
pub enum StatEvent {
    /// The values of `SUDO_UID` and `SUDO_GID`, where they are set.
    Caller { uid: Option<String>, gid: Option<String> },
    /// The counters of all CPUs.
    Snapshot(CounterSnapshot),
    /// The path of the library to load into measured processes, and the file
    /// descriptor of the pipe's write end.
    Pipe { dylib: String, result_fd: i32 },
    /// The command has ended.
    Exited,
    /// All bytes that came through the pipe.
    Results(Vec<u8>),
}

/// How a measurement begins.
pub open spec fn stat_start(system_wide: bool) -> StatState {
    if system_wide {
        StatState::ReadCaller
    } else {
        StatState::OpenPipe
    }
}

/// Begins a measurement.
pub fn begin_stat(system_wide: bool) -> (state: StatState)
    ensures
        state == stat_start(system_wide),
{
    if system_wide {
        StatState::ReadCaller
    } else {
        StatState::OpenPipe
    }
}

/// Whether `after` is the state in which `event` leaves the state `before`. An
/// event that the state does not wait for changes nothing.
pub open spec fn stat_step(
    region: bool,
    n_fixed: usize,
    before: StatState,
    event: StatEvent,
    after: StatState,
) -> bool {
    match (before, event) {
        (StatState::ReadCaller, StatEvent::Caller { uid, gid }) => after
            == (StatState::SnapshotBefore { ids: caller_ids(optional_text(uid), optional_text(gid)) }),
        (StatState::SnapshotBefore { ids }, StatEvent::Snapshot(snapshot)) => after matches
            StatState::Run(launch) && launch.ids == ids && launch.environment@.len() == 0
            && launch.before == Some(snapshot),
        (StatState::OpenPipe, StatEvent::Pipe { dylib, result_fd }) => after matches StatState::Run(
            launch,
        ) && launch.ids is None && pair_texts(launch.environment@) == child_variables(
            dylib@,
            result_fd as int,
            region,
        ) && launch.before is None,
        (StatState::Run(launch), StatEvent::Exited) => match launch.before {
            Some(before) => after == StatState::SnapshotAfter { before },
            None => after == StatState::ReadResults,
        },
        (StatState::SnapshotAfter { before }, StatEvent::Snapshot(snapshot)) => after
            == StatState::Finished(Ok((before, snapshot))),
        (StatState::ReadResults, StatEvent::Results(bytes)) => after matches StatState::Finished(
            interval,
        ) && exists|results: Option<CounterSnapshot>| #[trigger]
            received(bytes@, n_fixed, results) && is_per_process_interval(results, interval),
        (before, _) => after == before,
    }
}

/// Measures hardware performance counters while a command runs, one step at a
/// time.
///
/// `region` says whether measured processes count marked regions only, and
/// `n_fixed` is the number of fixed counters.
pub fn cmd_stat(region: bool, n_fixed: usize, state: StatState, event: StatEvent) -> (next: StatState)
    ensures
        stat_step(region, n_fixed, state, event, next),
{
    match (state, event) {
        (StatState::ReadCaller, StatEvent::Caller { uid, gid }) => StatState::SnapshotBefore {
            ids: drop_privileges(uid, gid),
        },
        (StatState::SnapshotBefore { ids }, StatEvent::Snapshot(snapshot)) => StatState::Run(
            Launch { ids, environment: Vec::new(), before: Some(snapshot) },
        ),
        (StatState::OpenPipe, StatEvent::Pipe { dylib, result_fd }) => StatState::Run(
            Launch {
                ids: None,
                environment: child_environment(dylib, result_fd, region),
                before: None,
            },
        ),
        (StatState::Run(launch), StatEvent::Exited) => match launch.before {
            Some(before) => StatState::SnapshotAfter { before },
            None => StatState::ReadResults,
        },
        (StatState::SnapshotAfter { before }, StatEvent::Snapshot(snapshot)) => StatState::Finished(
            Ok((before, snapshot)),
        ),
        (StatState::ReadResults, StatEvent::Results(bytes)) => {
            let results = read_all_inject_results(bytes.as_slice(), n_fixed);
            assert(received(bytes@, n_fixed, results));
            StatState::Finished(per_process_interval(results))
        },
        (state, _) => state,
    }
}

/// How many steps a measurement has behind it at least.
pub open spec fn stat_progress(state: StatState) -> nat {
    match state {
        StatState::ReadCaller => 0,
        StatState::SnapshotBefore { .. } => 1,
        StatState::OpenPipe => 1,
        StatState::Run(_) => 2,
        StatState::SnapshotAfter { .. } => 3,
        StatState::ReadResults => 3,
        StatState::Finished(_) => 4,
    }
}

/// Whether `event` is what the state waits for.
pub open spec fn stat_awaits(state: StatState, event: StatEvent) -> bool {
    match (state, event) {
        (StatState::ReadCaller, StatEvent::Caller { .. }) => true,
        (StatState::SnapshotBefore { .. }, StatEvent::Snapshot(_)) => true,
        (StatState::OpenPipe, StatEvent::Pipe { .. }) => true,
        (StatState::Run(_), StatEvent::Exited) => true,
        (StatState::SnapshotAfter { .. }, StatEvent::Snapshot(_)) => true,
        (StatState::ReadResults, StatEvent::Results(_)) => true,
        _ => false,
    }
}

/// Law: an awaited event takes a measurement exactly one step further, and
/// after four of them it is at its end; any other event leaves it as it is.
pub proof fn law_stat_progresses(
    region: bool,
    n_fixed: usize,
    before: StatState,
    event: StatEvent,
    after: StatState,
)
    requires
        stat_step(region, n_fixed, before, event, after),
    ensures
        stat_awaits(before, event) ==> stat_progress(after) == stat_progress(before) + 1,
        !stat_awaits(before, event) ==> after == before,
        stat_progress(after) >= 4 <==> after is Finished,
{
}

/// Law: a system-wide measurement takes one snapshot before the command and one
/// after it, and is the difference of the two. The command runs as the caller
/// of `sudo`, where the environment says who that is, and nothing is added to
/// its environment.
pub proof fn law_system_wide_measurement(
    region: bool,
    n_fixed: usize,
    uid: Option<String>,
    gid: Option<String>,
    before: CounterSnapshot,
    after: CounterSnapshot,
    called: StatState,
    ready: StatState,
    ended: StatState,
    measured: StatState,
)
    requires
        stat_step(region, n_fixed, stat_start(true), StatEvent::Caller { uid, gid }, called),
        stat_step(region, n_fixed, called, StatEvent::Snapshot(before), ready),
        stat_step(region, n_fixed, ready, StatEvent::Exited, ended),
        stat_step(region, n_fixed, ended, StatEvent::Snapshot(after), measured),
    ensures
        ready matches StatState::Run(launch) && launch.ids == caller_ids(
            optional_text(uid),
            optional_text(gid),
        ) && launch.environment@.len() == 0,
        measured == StatState::Finished(Ok((before, after))),
{
}

/// Law: a per-process measurement loads the library into the command and tells
/// it where to send its results, leaves user and group alone, and is what the
/// results come to; where there are none, it fails.
pub proof fn law_per_process_measurement(
    region: bool,
    n_fixed: usize,
    dylib: String,
    result_fd: i32,
    bytes: Vec<u8>,
    ready: StatState,
    ended: StatState,
    measured: StatState,
)
    requires
        stat_step(region, n_fixed, stat_start(false), StatEvent::Pipe { dylib, result_fd }, ready),
        stat_step(region, n_fixed, ready, StatEvent::Exited, ended),
        stat_step(region, n_fixed, ended, StatEvent::Results(bytes), measured),
    ensures
        ready matches StatState::Run(launch) && launch.ids is None && pair_texts(
            launch.environment@,
        ) == child_variables(dylib@, result_fd as int, region),
        exists|order: ByteOrder|
            is_native_order(order) && match total(#[trigger] messages(order, bytes@)) {
                Some(values) => measured matches StatState::Finished(Ok((start, end)))
                    && end.values@ == values && end.n_fixed == n_fixed && start.n_fixed == n_fixed
                    && start.values@ == Seq::new(values.len(), |i: int| 0u64),
                None => measured matches StatState::Finished(Err(_)),
            },
{
    let interval = measured->Finished_0;
    let results = choose|results: Option<CounterSnapshot>| #[trigger]
        received(bytes@, n_fixed, results) && is_per_process_interval(results, interval);
}

} // verus!
