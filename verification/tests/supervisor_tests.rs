//! The process supervisor observed on concrete job histories.

use colony_core::ids::JobId;
use colony_core::supervisor::{JobState, PollOutcome, ProcessStore};
use colony_core::time::UnixTime;

fn job(n: u128) -> JobId {
    JobId { order_time: UnixTime::from(n as u64), uuidv4: n }
}

#[test]
fn poll_reports_running_then_completed() {
    let mut store = ProcessStore::new();
    store.insert(job(1), 10);
    assert_eq!(store.poll_state(&job(1), PollOutcome::StillRunning), JobState::Running);
    assert_eq!(
        store.poll_state(&job(1), PollOutcome::Exited(Some(0))),
        JobState::Completed(Some(0))
    );
}

#[test]
fn observed_exit_is_remembered_whatever_later_polls_say() {
    let mut store = ProcessStore::new();
    store.insert(job(1), 10);
    assert_eq!(
        store.poll_state(&job(1), PollOutcome::Exited(Some(7))),
        JobState::Completed(Some(7))
    );
    assert_eq!(
        store.poll_state(&job(1), PollOutcome::StillRunning),
        JobState::Completed(Some(7))
    );
    assert_eq!(store.poll_state(&job(1), PollOutcome::Failed), JobState::Completed(Some(7)));
}

#[test]
fn unknown_and_not_listed_states() {
    let mut store = ProcessStore::new();
    store.insert(job(1), 10);
    assert_eq!(store.poll_state(&job(1), PollOutcome::Failed), JobState::Unknown);
    assert_eq!(store.poll_state(&job(2), PollOutcome::StillRunning), JobState::JobNotListed);
}

#[test]
fn removed_job_answers_not_listed() {
    let mut store = ProcessStore::new();
    store.insert(job(1), 10);
    let rec = store.remove(&job(1)).expect("the job was present");
    assert_eq!(rec.handle, 10);
    assert_eq!(store.poll_state(&job(1), PollOutcome::StillRunning), JobState::JobNotListed);
}

#[test]
fn kill_hands_the_child_out_once_only() {
    let mut store = ProcessStore::new();
    store.insert(job(1), 10);
    assert_eq!(store.kill(&job(1)), Some(10));
    assert_eq!(store.kill(&job(1)), None);
    // The job stays readable after the kill.
    assert_eq!(
        store.poll_state(&job(1), PollOutcome::Exited(None)),
        JobState::Completed(None)
    );
}

#[test]
fn kill_of_unknown_job_is_silent() {
    let mut store = ProcessStore::new();
    assert_eq!(store.kill(&job(9)), None);
}

#[test]
fn teardown_kills_every_child_exactly_once() {
    let mut store = ProcessStore::new();
    store.insert(job(1), 10);
    store.insert(job(2), 20);
    store.insert(job(3), 30);
    // One child was already killed by an explicit stop.
    assert_eq!(store.kill(&job(2)), Some(20));
    let handles = store.shutdown();
    assert_eq!(handles, vec![10, 30]);
    // A second teardown has nothing left to kill.
    let again = store.shutdown();
    assert_eq!(again, Vec::<u64>::new());
}
