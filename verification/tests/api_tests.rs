//! The versioned API endpoint observed on concrete envelopes.

use colony_core::api::{
    api_endpoint, api_endpoint_localmachine_logic_v1, target_label, AddServerAccess, ApiRejection,
    FsElement, FsOutcome, ListDirectory, MoveFile, PluginTaskRequest, PluginTaskResponse,
    RemoteOperationError, RequestId, TargetSystem, TaskRequest, VersionedRequest,
    VersionedResponse,
};
use colony_core::journal::{HardTypedDBAccess, RowKind};
use colony_core::time::UnixTime;

#[test]
fn responses_carry_the_request_identifier() {
    let req = VersionedRequest::ApiV1(
        TargetSystem::LocalMachine,
        RequestId { inner: 42 },
        TaskRequest::PluginTaskRequest(PluginTaskRequest::AddServerAccess(AddServerAccess {})),
    );
    let resp = api_endpoint(req, FsOutcome::NoneNeeded).expect("a local request is answered");
    let VersionedResponse::ApiV1(target, rid, _) = resp;
    assert_eq!(target, TargetSystem::LocalMachine);
    assert_eq!(rid, RequestId { inner: 42 });
}

#[test]
fn remote_targets_are_unprocessable() {
    let req = VersionedRequest::ApiV1(
        TargetSystem::RemoteMachine("elsewhere".to_string()),
        RequestId { inner: 1 },
        TaskRequest::PluginTaskRequest(PluginTaskRequest::AddServerAccess(AddServerAccess {})),
    );
    assert_eq!(
        api_endpoint(req, FsOutcome::NoneNeeded),
        Err(ApiRejection::UnprocessableEntity)
    );
}

#[test]
fn frontend_targets_are_unprocessable() {
    let req = VersionedRequest::ApiV1(
        TargetSystem::Frontend,
        RequestId { inner: 1 },
        TaskRequest::PluginTaskRequest(PluginTaskRequest::AddServerAccess(AddServerAccess {})),
    );
    assert_eq!(
        api_endpoint(req, FsOutcome::NoneNeeded),
        Err(ApiRejection::UnprocessableEntity)
    );
}

#[test]
fn unimplemented_operations_answer_not_supported() {
    let resp = api_endpoint_localmachine_logic_v1(
        &PluginTaskRequest::AddServerAccess(AddServerAccess {}),
        FsOutcome::NoneNeeded,
    );
    match resp {
        PluginTaskResponse::AddServerAccess(r) => {
            assert_eq!(r.localhost_port, Err(RemoteOperationError::NotSupported));
        },
        _ => panic!("the response answers its dual request"),
    }
}

#[test]
fn a_listing_request_returns_the_filesystem_outcome() {
    let listing = vec![
        FsElement::File("/x/a.txt".to_string()),
        FsElement::Directory("/x/sub".to_string()),
    ];
    let resp = api_endpoint_localmachine_logic_v1(
        &PluginTaskRequest::ListDirectory(ListDirectory { directory: "/x".to_string() }),
        FsOutcome::Listing(Ok(listing.clone())),
    );
    match resp {
        PluginTaskResponse::ListDirectory(r) => assert_eq!(r.content, Ok(listing)),
        _ => panic!("the response answers its dual request"),
    }
}

#[test]
fn a_move_request_returns_the_rename_outcome() {
    let resp = api_endpoint_localmachine_logic_v1(
        &PluginTaskRequest::MoveFile(MoveFile {
            source: "/x/a".to_string(),
            target: "/x/b".to_string(),
        }),
        FsOutcome::Moved(Ok("/x/b".to_string())),
    );
    match resp {
        PluginTaskResponse::MoveFile(r) => assert_eq!(r.destination, Ok("/x/b".to_string())),
        _ => panic!("the response answers its dual request"),
    }
}

#[test]
fn a_mismatched_outcome_is_an_inconsistency() {
    let resp = api_endpoint_localmachine_logic_v1(
        &PluginTaskRequest::ListDirectory(ListDirectory { directory: "/x".to_string() }),
        FsOutcome::NoneNeeded,
    );
    match resp {
        PluginTaskResponse::ListDirectory(r) => match r.content {
            Err(RemoteOperationError::ClientServerInconsistency(_)) => {},
            _ => panic!("a missing outcome is a client-server inconsistency"),
        },
        _ => panic!("the response answers its dual request"),
    }
}

#[test]
fn target_labels() {
    assert_eq!(target_label(&TargetSystem::Frontend), "Frontend");
    assert_eq!(target_label(&TargetSystem::LocalMachine), "LocalMachine");
    assert_eq!(
        target_label(&TargetSystem::RemoteMachine("cluster".to_string())),
        "cluster"
    );
}

#[test]
fn envelopes_are_journalled_and_resolved() {
    let mut db = HardTypedDBAccess::new();
    let req = VersionedRequest::ApiV1(
        TargetSystem::LocalMachine,
        RequestId { inner: 5 },
        TaskRequest::PluginTaskRequest(PluginTaskRequest::ListDirectory(ListDirectory {
            directory: "/x".to_string(),
        })),
    );
    db.register_plugintask_request(&req, "{\"dir\":\"/x\"}".to_string(), UnixTime::from(50))
        .expect("a fresh request is journalled");
    let row = &db.requests()[0];
    assert_eq!(row.request_id, 5);
    assert_eq!(row.origin, "Frontend");
    assert_eq!(row.destination, "LocalMachine");
    assert_eq!(row.end_time, None);

    let resp = VersionedResponse::ApiV1(
        TargetSystem::LocalMachine,
        RequestId { inner: 5 },
        PluginTaskResponse::ListDirectory(colony_core::api::ListDirectoryResponse {
            content: Ok(Vec::new()),
        }),
    );
    db.register_plugintask_response(&resp, "{}".to_string(), UnixTime::from(60))
        .expect("a fresh response is journalled");
    let rows = db.requests();
    assert_eq!(rows.len(), 2);
    assert_eq!(rows[0].end_time, Some(60));
    assert!(matches!(rows[1].kind, RowKind::Response));
    assert!(rows[0].end_time.unwrap() >= rows[0].start_time);

    // Pruning at the resolution moment removes both rows.
    db.prune_archived(60);
    assert_eq!(db.requests().len(), 0);
}

#[test]
fn resolving_through_the_typed_identifier() {
    let mut db = HardTypedDBAccess::new();
    let req = VersionedRequest::ApiV1(
        TargetSystem::LocalMachine,
        RequestId { inner: 9 },
        TaskRequest::PluginTaskRequest(PluginTaskRequest::Terminate(
            colony_core::api::Terminate {},
        )),
    );
    db.register_plugintask_request(&req, "{}".to_string(), UnixTime::from(10))
        .expect("a fresh request is journalled");
    db.mark_request_resolved_v1(&RequestId { inner: 9 }, UnixTime::from(12));
    assert_eq!(db.requests()[0].end_time, Some(12));
}
