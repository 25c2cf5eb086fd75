//! The broker's dispatch observed on the end-to-end scenarios.

use colony_core::broker::{BackendResponse, BrokerState};
use colony_core::ids::JobId;
use colony_core::catalog::{PersistentState, PersistentStateUpdate};
use colony_core::singularity::{SingularityQuery, SingularityResponse};
use colony_core::supervisor::{JobState, PollOutcome};
use colony_core::wsl::grace_wait_over;

fn fresh_broker() -> BrokerState {
    BrokerState::new(PersistentState::empty())
}

/// A successful launch of the container under a freshly drawn
/// identity.
fn launch(broker: &mut BrokerState, container: &str) -> (JobId, u64, BackendResponse) {
    let job = JobId::new();
    let (handle, resp) = broker
        .handle_run_singularity(job, &container.to_string(), true)
        .expect("a successful spawn under a fresh identity is registered");
    (job, handle, resp)
}

#[test]
fn run_and_observe() {
    let mut broker = fresh_broker();
    let (job, _handle, resp) = launch(&mut broker, "/c.img");
    match resp {
        BackendResponse::JobInfo(id, state) => {
            assert_eq!(id, job);
            assert_eq!(state, JobState::Running);
        },
        _ => panic!("a job launch answers with its state"),
    }

    broker.feed_job_output(&job, b"hello\nworld\n");
    match broker.handle_send_job_output(&job, 0) {
        BackendResponse::JobOutput(id, lines) => {
            assert_eq!(id, job);
            assert_eq!(lines, vec!["hello".to_string(), "world".to_string()]);
        },
        _ => panic!("a job-output query answers with lines"),
    }

    match broker.handle_send_job_info(&job, PollOutcome::Exited(Some(0))) {
        BackendResponse::JobInfo(id, state) => {
            assert_eq!(id, job);
            assert_eq!(state, JobState::Completed(Some(0)));
        },
        _ => panic!("a job-state query answers with the state"),
    }
}

#[test]
fn progress_bar_output_collapses() {
    let mut broker = fresh_broker();
    let (job, _, _) = launch(&mut broker, "/c.img");
    broker.feed_job_output(&job, b"step 1\rstep 2\rstep 3\n");
    match broker.handle_send_job_output(&job, 0) {
        BackendResponse::JobOutput(_, lines) => {
            assert_eq!(lines, vec!["step 3".to_string()]);
        },
        _ => panic!("a job-output query answers with lines"),
    }
}

#[test]
fn incremental_polling_resends_nothing() {
    let mut broker = fresh_broker();
    let (job, _, _) = launch(&mut broker, "/c.img");
    broker.feed_job_output(&job, b"a\nb\n");
    match broker.handle_send_job_output(&job, 2) {
        BackendResponse::JobOutput(_, lines) => assert_eq!(lines, Vec::<String>::new()),
        _ => panic!("a job-output query answers with lines"),
    }
    broker.feed_job_output(&job, b"c\n");
    match broker.handle_send_job_output(&job, 2) {
        BackendResponse::JobOutput(_, lines) => assert_eq!(lines, vec!["c".to_string()]),
        _ => panic!("a job-output query answers with lines"),
    }
}

#[test]
fn unknown_job_output_is_the_placeholder() {
    let broker = fresh_broker();
    let ghost_job = JobId::new();
    match broker.handle_send_job_output(&ghost_job, 0) {
        BackendResponse::JobOutput(_, lines) => {
            assert_eq!(lines, vec!["No Output".to_string()]);
        },
        _ => panic!("a job-output query answers with lines"),
    }
}

#[test]
fn failed_spawn_changes_nothing() {
    let mut broker = fresh_broker();
    assert!(broker
        .handle_run_singularity(JobId::new(), &"/c.img".to_string(), false)
        .is_none());
}

#[test]
fn a_successful_spawn_under_a_fresh_identity_is_always_registered() {
    let mut broker = fresh_broker();
    let job = JobId::new();
    assert!(broker.handle_run_singularity(job, &"/c.img".to_string(), true).is_some());
    // The same identity again is no longer fresh and is refused.
    assert!(broker.handle_run_singularity(job, &"/c.img".to_string(), true).is_none());
}

#[test]
fn stop_all_kills_three_jobs_and_they_report_completed() {
    let mut broker = fresh_broker();
    let mut jobs = Vec::new();
    for _ in 0..3 {
        let (job, _, _) = launch(&mut broker, "/c.img");
        jobs.push(job);
    }
    let (kills, resp) = broker.handle_stop_all_processes();
    assert_eq!(kills.len(), 3);
    assert!(matches!(resp, BackendResponse::StoppedAllProcesses));

    // The caller kills the three children; each later state query
    // observes an exit and reports completion.
    for job in &jobs {
        match broker.handle_send_job_info(job, PollOutcome::Exited(None)) {
            BackendResponse::JobInfo(_, state) => {
                assert!(matches!(state, JobState::Completed(_)));
            },
            _ => panic!("a job-state query answers with the state"),
        }
    }
}

#[test]
fn stop_process_answers_and_hands_the_handle_out_once() {
    let mut broker = fresh_broker();
    let (job, handle, _) = launch(&mut broker, "/c.img");
    let (kill, resp) = broker.handle_stop_process(&job);
    assert_eq!(kill, Some(handle));
    match resp {
        BackendResponse::StoppedProcess(id) => assert_eq!(id, job),
        _ => panic!("a stop request answers that the process stopped"),
    }
    let (again, _) = broker.handle_stop_process(&job);
    assert_eq!(again, None);
}

#[test]
fn shutdown_grace_is_bounded_by_one_second() {
    assert!(!grace_wait_over(false, 0));
    assert!(!grace_wait_over(false, 1000));
    assert!(grace_wait_over(false, 1001));
    assert!(grace_wait_over(true, 0));
}

#[test]
fn catalog_updates_flow_through_the_broker() {
    let mut broker = fresh_broker();
    let announced = broker.handle_update_persistent_state(PersistentStateUpdate::AddContainer(
        "/a.img".to_string(),
    ));
    match announced {
        Some(BackendResponse::AddedNewContainer(d)) => assert_eq!(d.path, "/a.img"),
        _ => panic!("a fresh container is announced"),
    }
    match broker.handle_read_persistent_state() {
        BackendResponse::PersistentState(p) => {
            assert_eq!(p.containers.len(), 1);
            assert_eq!(p.containers[0].path, "/a.img");
        },
        _ => panic!("a read answers with the catalog"),
    }
}

#[test]
fn singularity_queries_are_answered_from_the_command_output() {
    let broker = fresh_broker();
    let resp = broker.handle_query_singularity(
        "/c.img".to_string(),
        &SingularityQuery::AppList,
        Some("alpha\nbeta\n".to_string()),
    );
    match resp {
        BackendResponse::SingularityInfo(path, Some(SingularityResponse::AppList(apps))) => {
            assert_eq!(path, "/c.img");
            assert_eq!(apps, vec!["alpha".to_string(), "beta".to_string()]);
        },
        _ => panic!("an app-list query answers with the app list"),
    }

    let failed = broker.handle_query_singularity(
        "/c.img".to_string(),
        &SingularityQuery::Inspection,
        None,
    );
    match failed {
        BackendResponse::SingularityInfo(_, answer) => assert!(answer.is_none()),
        _ => panic!("a failed query answers with nothing"),
    }
}

#[test]
fn unparseable_inspection_output_yields_an_absent_value() {
    let broker = fresh_broker();
    let bad = broker.handle_query_singularity(
        "/c.img".to_string(),
        &SingularityQuery::Inspection,
        Some("{".to_string()),
    );
    match bad {
        BackendResponse::SingularityInfo(_, answer) => assert!(answer.is_none()),
        _ => panic!("an unparseable inspection answers with nothing"),
    }

    let good = broker.handle_query_singularity(
        "/c.img".to_string(),
        &SingularityQuery::Inspection,
        Some("{\"labels\":{\"app\":\"demo\"}}".to_string()),
    );
    match good {
        BackendResponse::SingularityInfo(_, Some(SingularityResponse::Inspection(text))) => {
            assert_eq!(text, "{\"labels\":{\"app\":\"demo\"}}");
        },
        _ => panic!("a well-formed inspection answers with its document"),
    }
}

#[test]
fn helper_handshake_reports_the_bound_port() {
    let broker = fresh_broker();
    let port = colony_core::helper::helper_server_port();
    match broker.handle_inform_local_webserver_started(Ok(port)) {
        BackendResponse::LocalWebServerStarted(Some(p)) => assert_eq!(p, 20311),
        _ => panic!("a successful bind reports its port"),
    }
    match broker.handle_inform_local_webserver_started(Err(())) {
        BackendResponse::LocalWebServerStarted(None) => {},
        _ => panic!("a failed bind reports nothing"),
    }
}

#[test]
fn accepted_configuration_reaches_the_front_end() {
    let broker = fresh_broker();
    match broker.handle_accept_configuration("/c.img".to_string(), "/saved.json".to_string()) {
        BackendResponse::Configuration(container, config) => {
            assert_eq!(container, "/c.img");
            assert_eq!(config, "/saved.json");
        },
        _ => panic!("a configuration is passed on"),
    }
}

#[test]
fn jobs_are_linked_under_their_container() {
    let mut broker = fresh_broker();
    let (job1, _, _) = launch(&mut broker, "/c.img");
    let (job2, _, _) = launch(&mut broker, "/c.img");
    let linked = broker
        .container_infos
        .jobs_for(&"/c.img".to_string())
        .expect("the container is indexed");
    assert_eq!(linked.len(), 2);
    assert_eq!(linked[0], job1);
    assert_eq!(linked[1], job2);
}
