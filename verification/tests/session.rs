//! Measurements, step by step.

use apmc::inject::CounterSnapshot;
use apmc::session::{begin_stat, cmd_stat, StatEvent, StatState};

fn snapshot(values: &[u64]) -> CounterSnapshot {
    CounterSnapshot { values: values.to_vec(), n_fixed: 2 }
}

fn pipe(result_fd: i32) -> StatEvent {
    StatEvent::Pipe { dylib: "/tmp/libapmc_inject.dylib".to_string(), result_fd }
}

fn message(values: &[u64]) -> Vec<u8> {
    let mut bytes = (values.len() as u32).to_ne_bytes().to_vec();
    for value in values {
        bytes.extend_from_slice(&value.to_ne_bytes());
    }
    bytes
}

#[test]
fn system_wide_measurement_reads_before_and_after() {
    let state = begin_stat(true);
    assert!(matches!(state, StatState::ReadCaller));
    let caller =
        StatEvent::Caller { uid: Some("501".to_string()), gid: Some("20".to_string()) };
    let state = cmd_stat(false, 2, state, caller);
    let state = cmd_stat(false, 2, state, StatEvent::Snapshot(snapshot(&[1, 2, 3])));
    match &state {
        StatState::Run(launch) => {
            assert_eq!(launch.ids, Some((501, 20)));
            assert!(launch.environment.is_empty());
            assert_eq!(launch.before.as_ref().unwrap().values, vec![1, 2, 3]);
        }
        other => panic!("{other:?}"),
    }
    let state = cmd_stat(false, 2, state, StatEvent::Exited);
    assert!(matches!(state, StatState::SnapshotAfter { .. }));
    let state = cmd_stat(false, 2, state, StatEvent::Snapshot(snapshot(&[4, 6, 8])));
    match state {
        StatState::Finished(Ok((start, end))) => {
            assert_eq!(start.values, vec![1, 2, 3]);
            assert_eq!(end.values, vec![4, 6, 8]);
        }
        other => panic!("{other:?}"),
    }
}

#[test]
fn system_wide_measurement_without_sudo_changes_no_user() {
    let state = cmd_stat(false, 2, begin_stat(true), StatEvent::Caller { uid: None, gid: None });
    assert!(matches!(state, StatState::SnapshotBefore { ids: None }));
}

#[test]
fn per_process_measurement_sums_results() {
    let state = cmd_stat(true, 2, begin_stat(false), pipe(5));
    match &state {
        StatState::Run(launch) => {
            assert_eq!(launch.ids, None);
            assert_eq!(
                launch.environment,
                vec![
                    (
                        "DYLD_INSERT_LIBRARIES".to_string(),
                        "/tmp/libapmc_inject.dylib".to_string()
                    ),
                    ("KPC_RESULT_FD".to_string(), "5".to_string()),
                    ("APMC_REGION_MODE".to_string(), "1".to_string()),
                ]
            );
            assert!(launch.before.is_none());
        }
        other => panic!("{other:?}"),
    }
    let state = cmd_stat(true, 2, state, StatEvent::Exited);
    assert!(matches!(state, StatState::ReadResults));
    let mut bytes = message(&[10, 20]);
    bytes.extend(message(&[1, 2]));
    match cmd_stat(true, 2, state, StatEvent::Results(bytes)) {
        StatState::Finished(Ok((start, end))) => {
            assert_eq!(start.values, vec![0, 0]);
            assert_eq!(end.values, vec![11, 22]);
            assert_eq!(end.n_fixed, 2);
        }
        other => panic!("{other:?}"),
    }
}

#[test]
fn per_process_measurement_without_results_fails() {
    match cmd_stat(false, 2, StatState::ReadResults, StatEvent::Results(vec![])) {
        StatState::Finished(Err(text)) => {
            assert_eq!(text, "per-process counting failed: no results from inject dylib")
        }
        other => panic!("{other:?}"),
    }
}

#[test]
fn unawaited_events_change_nothing() {
    let state = cmd_stat(false, 2, begin_stat(false), StatEvent::Exited);
    assert!(matches!(state, StatState::OpenPipe));
    let state = cmd_stat(false, 2, StatState::ReadCaller, pipe(3));
    assert!(matches!(state, StatState::ReadCaller));
}

#[test]
fn order_of_messages_does_not_matter() {
    let (a, b) = (message(&[1, u64::MAX]), message(&[7, 9]));
    let forth: Vec<u8> = a.iter().chain(b.iter()).copied().collect();
    let back: Vec<u8> = b.iter().chain(a.iter()).copied().collect();
    for bytes in [forth, back] {
        let total = apmc::inject::read_all_inject_results(&bytes, 1).unwrap();
        assert_eq!(total.values, vec![8, 8]);
    }
}
