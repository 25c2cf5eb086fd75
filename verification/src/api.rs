//! The versioned task API: the envelope that addresses a target system,
//! the request and response element types of its first version, and the
//! dispatch that answers a request addressed to the local machine.

use vstd::prelude::*;

use crate::journal::{HardTypedDBAccess, JournalError, RowKind};
use crate::journal;
use crate::textutil::clone_string;
use crate::time::UnixTime;

verus! {

// ---------------------------------------------------------------------
// Identifiers and common elements
// ---------------------------------------------------------------------

#[derive(Clone, Debug, PartialEq, Eq)]
pub struct StandardMetadata {}

/// The failure kinds a remote operation can report.
#[derive(Clone, Debug, PartialEq, Eq)]
pub enum RemoteOperationError {
    NotSupported,
    ParsingError(String),
    IncorrectParameters(String),
    ClientServerInconsistency(String),
    InternalFailure(String),
}

#[derive(Clone, Debug, PartialEq, Eq)]
pub struct PluginId {
    pub clear_name: String,
}

#[derive(Clone, Copy, Debug, PartialEq, Eq)]
pub struct RequestId {
    pub inner: u128,
}

#[derive(Clone, Copy, Debug, PartialEq, Eq)]
pub struct ChannelId {
    pub inner: u128,
}

/// Identity of a remotely submitted job: a 128-bit value and the
/// moment of its creation.
#[derive(Clone, Copy, Debug, PartialEq, Eq)]
pub struct JobId {
    pub id: u128,
    pub generation_time: UnixTime,
}

#[derive(Clone, Copy, Debug, PartialEq, Eq)]
pub struct DownloadId {
    pub inner: u128,
}

#[derive(Clone, Copy, Debug, PartialEq, Eq)]
pub struct MessageId {
    pub inner: u128,
}

// ---------------------------------------------------------------------
// Requests
// ---------------------------------------------------------------------

#[derive(Clone, Debug, PartialEq, Eq)]
pub struct AddServerAccess {}

#[derive(Clone, Debug, PartialEq, Eq)]
pub struct EditServerAccess {}

#[derive(Clone, Debug, PartialEq, Eq)]
pub struct EditServerConfiguration {}

#[derive(Clone, Debug, PartialEq, Eq)]
pub struct ConnectToServer {
    pub server_name: String,
}

#[derive(Clone, Debug, PartialEq, Eq)]
pub struct DisconnectFromServer {
    pub server_name: String,
}

#[derive(Clone, Debug, PartialEq, Eq)]
pub struct DisconnectFromAllServers {}

#[derive(Clone, Debug, PartialEq, Eq)]
pub struct ListDirectory {
    pub directory: String,
}

#[derive(Clone, Debug, PartialEq, Eq)]
pub struct MoveFile {
    pub source: String,
    pub target: String,
}

#[derive(Clone, Debug, PartialEq, Eq)]
pub struct CopyFile {
    pub source: String,
    pub target: String,
}

#[derive(Clone, Debug, PartialEq, Eq)]
pub struct DeleteFile {
    pub file_path: String,
}

#[derive(Clone, Debug, PartialEq, Eq)]
pub struct ShowFileMetadata {
    pub file_path: String,
}

#[derive(Clone, Debug, PartialEq, Eq)]
pub struct DownloadData {
    pub url: String,
    pub auth: Option<DownloadAuth>,
}

#[derive(Clone, Debug, PartialEq, Eq)]
pub struct DownloadAuth {
    pub username: String,
    pub password: String,
}

#[derive(Clone, Debug, PartialEq, Eq)]
pub struct RunSingularityJob {
    pub specification: RemoteSingularityJob,
}

#[derive(Clone, Debug, PartialEq, Eq)]
pub struct RemoteSingularityJob {
    pub singularity_container: String,
    pub configuration: String,
    pub working_directory: String,
}

#[derive(Clone, Copy, Debug, PartialEq, Eq)]
pub struct ShowSingularityJobLogs {
    pub job: JobId,
}

#[derive(Clone, Debug, PartialEq, Eq)]
pub struct ShowSingularityJobsRunning {}

#[derive(Clone, Debug, PartialEq, Eq)]
pub struct EnqueueMultipleJobs {}

#[derive(Clone, Debug, PartialEq, Eq)]
pub struct StopRunningJobs {}

#[derive(Clone, Debug, PartialEq, Eq)]
pub struct SendMessages {}

#[derive(Clone, Debug, PartialEq, Eq)]
pub struct Terminate {}

#[derive(Clone, Debug, PartialEq, Eq)]
pub struct RequestConfiguration {}

#[derive(Clone, Debug, PartialEq, Eq)]
pub struct HaveConfigurationStored {}

#[derive(Clone, Debug, PartialEq, Eq)]
pub struct OpenChatChannel {}

#[derive(Clone, Debug, PartialEq, Eq)]
pub struct CloseChatChannel {}

/// The operations the back-end accepts from a plugin's point of view.
#[derive(Clone, Debug, PartialEq, Eq)]
pub enum PluginTaskRequest {
    AddServerAccess(AddServerAccess),
    EditServerAccess(EditServerAccess),
    EditServerConfiguration(EditServerConfiguration),
    ConnectToServer(ConnectToServer),
    DisconnectFromServer(DisconnectFromServer),
    DisconnectFromAllServers(DisconnectFromAllServers),
    ListDirectory(ListDirectory),
    MoveFile(MoveFile),
    CopyFile(CopyFile),
    DeleteFile(DeleteFile),
    ShowFileMetadata(ShowFileMetadata),
    DownloadData(DownloadData),
    RunSingularityJob(RunSingularityJob),
    ShowSingularityJobLogs(ShowSingularityJobLogs),
    ShowSingularityJobsRunning(ShowSingularityJobsRunning),
    EnqueueMultipleJobs(EnqueueMultipleJobs),
    StopRunningJobs(StopRunningJobs),
    SendMessages(SendMessages),
    Terminate(Terminate),
}

/// The operations addressed to the front-end.
#[derive(Clone, Debug, PartialEq, Eq)]
pub enum FrontendTaskRequest {
    RequestConfiguration(RequestConfiguration),
    HaveConfigurationStored(HaveConfigurationStored),
    OpenChatChannel(OpenChatChannel),
    CloseChatChannel(CloseChatChannel),
}

/// Either kind of request, as the envelope carries it.
#[derive(Clone, Debug, PartialEq, Eq)]
pub enum TaskRequest {
    PluginTaskRequest(PluginTaskRequest),
    FrontendTaskRequest(FrontendTaskRequest),
}

#[derive(Clone, Debug, PartialEq, Eq)]
pub struct CentralServerRequest {
    pub target_plugin: PluginId,
    pub request_id: RequestId,
    pub plugin_request: PluginTaskRequest,
}

// ---------------------------------------------------------------------
// Responses
// ---------------------------------------------------------------------

#[derive(Debug, PartialEq, Eq)]
pub struct AddServerAccessResponse {
    pub localhost_port: Result<u16, RemoteOperationError>,
}

#[derive(Debug, PartialEq, Eq)]
pub struct EditServerAccessResponse {
    pub localhost_port: Result<u16, RemoteOperationError>,
}

#[derive(Debug, PartialEq, Eq)]
pub struct EditServerConfigurationResponse {
    pub localhost_port: Result<u16, RemoteOperationError>,
}

#[derive(Debug, PartialEq, Eq)]
pub struct ConnectToServerResponse {
    pub success: Result<(), RemoteOperationError>,
}

#[derive(Debug, PartialEq, Eq)]
pub struct DisconnectFromServerResponse {
    pub success: Result<(), RemoteOperationError>,
}

#[derive(Debug, PartialEq, Eq)]
pub struct DisconnectFromAllServersResponse {
    pub success: Result<(), RemoteOperationError>,
}

/// One entry of a directory listing, classified as file or directory.
#[derive(Clone, Debug, PartialEq, Eq)]
pub enum FsElement {
    File(String),
    Directory(String),
}

#[derive(Debug, PartialEq, Eq)]
pub struct ListDirectoryResponse {
    pub content: Result<Vec<FsElement>, RemoteOperationError>,
}

#[derive(Debug, PartialEq, Eq)]
pub struct MoveFileResponse {
    pub destination: Result<String, RemoteOperationError>,
}

#[derive(Debug, PartialEq, Eq)]
pub struct CopyFileResponse {
    pub destination: Result<String, RemoteOperationError>,
}

#[derive(Debug, PartialEq, Eq)]
pub struct DeleteFileResponse {
    pub success: Result<(), RemoteOperationError>,
}

#[derive(Debug, PartialEq, Eq)]
pub struct ShowFileMetadataResponse {
    pub meta: Result<StandardMetadata, RemoteOperationError>,
}

#[derive(Debug, PartialEq, Eq)]
pub struct DownloadDataResponse {
    pub id: Result<DownloadId, RemoteOperationError>,
}

#[derive(Debug, PartialEq, Eq)]
pub struct RunSingularityJobResponse {
    pub success: Result<JobId, RemoteOperationError>,
}

#[derive(Debug, PartialEq, Eq)]
pub struct ShowSingularityJobLogsResponse {
    pub logs: Result<Vec<String>, RemoteOperationError>,
}

#[derive(Debug, PartialEq, Eq)]
pub struct ShowSingularityJobsRunningResponse {
    pub running_jobs: Result<Vec<JobId>, RemoteOperationError>,
}

#[derive(Debug, PartialEq, Eq)]
pub struct EnqueueMultipleJobsResponse {
    pub success: Result<(), RemoteOperationError>,
}

#[derive(Debug, PartialEq, Eq)]
pub struct StopRunningJobsResponse {
    pub success: Result<(), RemoteOperationError>,
}

#[derive(Debug, PartialEq, Eq)]
pub struct SendMessagesResponse {
    pub requests: Vec<FrontendTaskRequest>,
    pub messages: Vec<PluginMessage>,
}

#[derive(Clone, Debug, PartialEq, Eq)]
pub struct TerminateResponse {}

#[derive(Clone, Debug, PartialEq, Eq)]
pub struct PluginMessage {
    pub id: MessageId,
    pub creation_time: UnixTime,
    pub short_summary_title: String,
    pub text: String,
}

#[derive(Clone, Debug, PartialEq, Eq)]
pub struct RequestConfigurationResponse {
    pub configuration: Option<String>,
}

#[derive(Debug, PartialEq, Eq)]
pub struct HaveConfigurationStoredResponse {
    pub success: Result<(), RemoteOperationError>,
}

#[derive(Debug, PartialEq, Eq)]
pub struct OpenChatChannelResponse {
    pub channel_id: Result<ChannelId, RemoteOperationError>,
}

#[derive(Debug, PartialEq, Eq)]
pub struct CloseChatChannelResponse {
    pub channel_id: Result<ChannelId, RemoteOperationError>,
}

/// The responses dual to `PluginTaskRequest`.
#[derive(Debug, PartialEq, Eq)]
pub enum PluginTaskResponse {
    AddServerAccess(AddServerAccessResponse),
    EditServerAccess(EditServerAccessResponse),
    EditServerConfiguration(EditServerConfigurationResponse),
    ConnectToServer(ConnectToServerResponse),
    DisconnectFromServer(DisconnectFromServerResponse),
    DisconnectFromAllServers(DisconnectFromAllServersResponse),
    ListDirectory(ListDirectoryResponse),
    MoveFile(MoveFileResponse),
    CopyFile(CopyFileResponse),
    DeleteFile(DeleteFileResponse),
    ShowFileMetadata(ShowFileMetadataResponse),
    DownloadData(DownloadDataResponse),
    RunSingularityJob(RunSingularityJobResponse),
    ShowSingularityJobLogs(ShowSingularityJobLogsResponse),
    ShowSingularityJobsRunning(ShowSingularityJobsRunningResponse),
    EnqueueMultipleJobs(EnqueueMultipleJobsResponse),
    StopRunningJobs(StopRunningJobsResponse),
    SendMessages(SendMessagesResponse),
    Terminate(TerminateResponse),
}

/// The responses dual to `FrontendTaskRequest`.
#[derive(Debug, PartialEq, Eq)]
pub enum FrontendTaskResponse {
    RequestConfiguration(RequestConfigurationResponse),
    HaveConfigurationStored(HaveConfigurationStoredResponse),
    OpenChatChannel(OpenChatChannelResponse),
    CloseChatChannel(CloseChatChannelResponse),
}

// ---------------------------------------------------------------------
// The envelope
// ---------------------------------------------------------------------

/// Whom an envelope addresses.
#[derive(Clone, Debug, PartialEq, Eq)]
pub enum TargetSystem {
    Frontend,
    LocalMachine,
    RemoteMachine(String),
}

/// A request on the wire: the version tag, the target, the request
/// identifier and the body.
#[derive(Clone, Debug, PartialEq, Eq)]
pub enum VersionedRequest {
    ApiV1(TargetSystem, RequestId, TaskRequest),
}

/// A response on the wire, under the same version tag, carrying the
/// identifier of the request that produced it.
#[derive(Debug, PartialEq, Eq)]
pub enum VersionedResponse {
    ApiV1(TargetSystem, RequestId, PluginTaskResponse),
}

impl VersionedRequest {
    /// The system the request addresses.
    pub fn target_plugin(&self) -> (t: TargetSystem)
        ensures
            *self matches VersionedRequest::ApiV1(target, _, _) && t == target,
    {
        match self {
            VersionedRequest::ApiV1(target, _, _) => match target {
                TargetSystem::Frontend => TargetSystem::Frontend,
                TargetSystem::LocalMachine => TargetSystem::LocalMachine,
                TargetSystem::RemoteMachine(name) => TargetSystem::RemoteMachine(
                    clone_string(name),
                ),
            },
        }
    }

    /// The identifier the response must carry back.
    pub fn request_id(&self) -> (id: RequestId)
        ensures
            *self matches VersionedRequest::ApiV1(_, rid, _) && id == rid,
    {
        match self {
            VersionedRequest::ApiV1(_, id, _) => *id,
        }
    }
}

impl VersionedResponse {
    /// The system the response answers for.
    pub fn target_plugin(&self) -> (t: TargetSystem)
        ensures
            *self matches VersionedResponse::ApiV1(target, _, _) && t == target,
    {
        match self {
            VersionedResponse::ApiV1(target, _, _) => match target {
                TargetSystem::Frontend => TargetSystem::Frontend,
                TargetSystem::LocalMachine => TargetSystem::LocalMachine,
                TargetSystem::RemoteMachine(name) => TargetSystem::RemoteMachine(
                    clone_string(name),
                ),
            },
        }
    }

    /// The identifier of the request this response answers.
    pub fn request_id(&self) -> (id: RequestId)
        ensures
            *self matches VersionedResponse::ApiV1(_, rid, _) && id == rid,
    {
        match self {
            VersionedResponse::ApiV1(_, id, _) => *id,
        }
    }
}

/// The label a target system is journalled under.
pub open spec fn spec_target_label(t: TargetSystem) -> Seq<char> {
    match t {
        TargetSystem::Frontend => "Frontend"@,
        TargetSystem::LocalMachine => "LocalMachine"@,
        TargetSystem::RemoteMachine(name) => name@,
    }
}

/// The label a target system is journalled under.
pub fn target_label(t: &TargetSystem) -> (out: String)
    ensures
        match t {
            TargetSystem::Frontend => out@ == "Frontend"@,
            TargetSystem::LocalMachine => out@ == "LocalMachine"@,
            TargetSystem::RemoteMachine(name) => out@ == name@,
        },
{
    match t {
        TargetSystem::Frontend => "Frontend".to_owned(),
        TargetSystem::LocalMachine => "LocalMachine".to_owned(),
        TargetSystem::RemoteMachine(name) => clone_string(name),
    }
}


// ---------------------------------------------------------------------
// The local-machine dispatch
// ---------------------------------------------------------------------

/// What the host filesystem reported for the request in hand, where
/// the request needs it: a directory listing, or the outcome of a
/// move. Requests that touch no file take `NoneNeeded`.
#[derive(Debug)]
pub enum FsOutcome {
    NoneNeeded,
    Listing(Result<Vec<FsElement>, RemoteOperationError>),
    Moved(Result<String, RemoteOperationError>),
}

/// The answer the local machine owes each request: operations without
/// an implementation answer their dual variant with `NotSupported`; a
/// directory listing or a file move answers with the filesystem's
/// outcome; an outcome of the wrong shape is answered as a
/// client-server inconsistency.
pub open spec fn local_response_ok(
    req: PluginTaskRequest,
    fs: FsOutcome,
    resp: PluginTaskResponse,
) -> bool {
    match req {
        PluginTaskRequest::AddServerAccess(_) => resp == PluginTaskResponse::AddServerAccess(
            AddServerAccessResponse { localhost_port: Err(RemoteOperationError::NotSupported) },
        ),
        PluginTaskRequest::EditServerAccess(_) => resp == PluginTaskResponse::EditServerAccess(
            EditServerAccessResponse { localhost_port: Err(RemoteOperationError::NotSupported) },
        ),
        PluginTaskRequest::EditServerConfiguration(_) => resp
            == PluginTaskResponse::EditServerConfiguration(
            EditServerConfigurationResponse {
                localhost_port: Err(RemoteOperationError::NotSupported),
            },
        ),
        PluginTaskRequest::ConnectToServer(_) => resp == PluginTaskResponse::ConnectToServer(
            ConnectToServerResponse { success: Err(RemoteOperationError::NotSupported) },
        ),
        PluginTaskRequest::DisconnectFromServer(_) => resp
            == PluginTaskResponse::DisconnectFromServer(
            DisconnectFromServerResponse { success: Err(RemoteOperationError::NotSupported) },
        ),
        PluginTaskRequest::DisconnectFromAllServers(_) => resp
            == PluginTaskResponse::DisconnectFromAllServers(
            DisconnectFromAllServersResponse { success: Err(RemoteOperationError::NotSupported) },
        ),
        PluginTaskRequest::ListDirectory(_) => match fs {
            FsOutcome::Listing(res) => resp == PluginTaskResponse::ListDirectory(
                ListDirectoryResponse { content: res },
            ),
            _ => resp matches PluginTaskResponse::ListDirectory(r) && r.content matches Err(e)
                && e is ClientServerInconsistency,
        },
        PluginTaskRequest::MoveFile(_) => match fs {
            FsOutcome::Moved(res) => resp == PluginTaskResponse::MoveFile(
                MoveFileResponse { destination: res },
            ),
            _ => resp matches PluginTaskResponse::MoveFile(r) && r.destination matches Err(e)
                && e is ClientServerInconsistency,
        },
        PluginTaskRequest::CopyFile(_) => resp == PluginTaskResponse::CopyFile(
            CopyFileResponse { destination: Err(RemoteOperationError::NotSupported) },
        ),
        PluginTaskRequest::DeleteFile(_) => resp == PluginTaskResponse::DeleteFile(
            DeleteFileResponse { success: Err(RemoteOperationError::NotSupported) },
        ),
        PluginTaskRequest::ShowFileMetadata(_) => resp == PluginTaskResponse::ShowFileMetadata(
            ShowFileMetadataResponse { meta: Err(RemoteOperationError::NotSupported) },
        ),
        PluginTaskRequest::DownloadData(_) => resp == PluginTaskResponse::DownloadData(
            DownloadDataResponse { id: Err(RemoteOperationError::NotSupported) },
        ),
        PluginTaskRequest::RunSingularityJob(_) => resp == PluginTaskResponse::RunSingularityJob(
            RunSingularityJobResponse { success: Err(RemoteOperationError::NotSupported) },
        ),
        PluginTaskRequest::ShowSingularityJobLogs(_) => resp
            == PluginTaskResponse::ShowSingularityJobLogs(
            ShowSingularityJobLogsResponse { logs: Err(RemoteOperationError::NotSupported) },
        ),
        PluginTaskRequest::ShowSingularityJobsRunning(_) => resp
            == PluginTaskResponse::ShowSingularityJobsRunning(
            ShowSingularityJobsRunningResponse {
                running_jobs: Err(RemoteOperationError::NotSupported),
            },
        ),
        PluginTaskRequest::EnqueueMultipleJobs(_) => resp
            == PluginTaskResponse::EnqueueMultipleJobs(
            EnqueueMultipleJobsResponse { success: Err(RemoteOperationError::NotSupported) },
        ),
        PluginTaskRequest::StopRunningJobs(_) => resp == PluginTaskResponse::StopRunningJobs(
            StopRunningJobsResponse { success: Err(RemoteOperationError::NotSupported) },
        ),
        PluginTaskRequest::SendMessages(_) => resp matches PluginTaskResponse::SendMessages(r)
            && r.requests@ == Seq::<FrontendTaskRequest>::empty() && r.messages@ == Seq::<
            PluginMessage,
        >::empty(),
        PluginTaskRequest::Terminate(_) => resp == PluginTaskResponse::Terminate(
            TerminateResponse {},
        ),
    }
}

/// Answer one request addressed to the local machine, given what the
/// filesystem reported where the request needed it.
pub fn api_endpoint_localmachine_logic_v1(
    bodydata: &PluginTaskRequest,
    fs: FsOutcome,
) -> (resp: PluginTaskResponse)
    ensures
        local_response_ok(*bodydata, fs, resp),
{
    match bodydata {
        PluginTaskRequest::AddServerAccess(_) => PluginTaskResponse::AddServerAccess(
            AddServerAccessResponse { localhost_port: Err(RemoteOperationError::NotSupported) },
        ),
        PluginTaskRequest::EditServerAccess(_) => PluginTaskResponse::EditServerAccess(
            EditServerAccessResponse { localhost_port: Err(RemoteOperationError::NotSupported) },
        ),
        PluginTaskRequest::EditServerConfiguration(_) => PluginTaskResponse::EditServerConfiguration(
            EditServerConfigurationResponse {
                localhost_port: Err(RemoteOperationError::NotSupported),
            },
        ),
        PluginTaskRequest::ConnectToServer(_) => PluginTaskResponse::ConnectToServer(
            ConnectToServerResponse { success: Err(RemoteOperationError::NotSupported) },
        ),
        PluginTaskRequest::DisconnectFromServer(_) => PluginTaskResponse::DisconnectFromServer(
            DisconnectFromServerResponse { success: Err(RemoteOperationError::NotSupported) },
        ),
        PluginTaskRequest::DisconnectFromAllServers(_) => PluginTaskResponse::DisconnectFromAllServers(
            DisconnectFromAllServersResponse { success: Err(RemoteOperationError::NotSupported) },
        ),
        PluginTaskRequest::ListDirectory(_) => match fs {
            FsOutcome::Listing(res) => PluginTaskResponse::ListDirectory(
                ListDirectoryResponse { content: res },
            ),
            _ => PluginTaskResponse::ListDirectory(
                ListDirectoryResponse {
                    content: Err(
                        RemoteOperationError::ClientServerInconsistency(
                            "listing outcome missing".to_owned(),
                        ),
                    ),
                },
            ),
        },
        PluginTaskRequest::MoveFile(_) => match fs {
            FsOutcome::Moved(res) => PluginTaskResponse::MoveFile(
                MoveFileResponse { destination: res },
            ),
            _ => PluginTaskResponse::MoveFile(
                MoveFileResponse {
                    destination: Err(
                        RemoteOperationError::ClientServerInconsistency(
                            "move outcome missing".to_owned(),
                        ),
                    ),
                },
            ),
        },
        PluginTaskRequest::CopyFile(_) => PluginTaskResponse::CopyFile(
            CopyFileResponse { destination: Err(RemoteOperationError::NotSupported) },
        ),
        PluginTaskRequest::DeleteFile(_) => PluginTaskResponse::DeleteFile(
            DeleteFileResponse { success: Err(RemoteOperationError::NotSupported) },
        ),
        PluginTaskRequest::ShowFileMetadata(_) => PluginTaskResponse::ShowFileMetadata(
            ShowFileMetadataResponse { meta: Err(RemoteOperationError::NotSupported) },
        ),
        PluginTaskRequest::DownloadData(_) => PluginTaskResponse::DownloadData(
            DownloadDataResponse { id: Err(RemoteOperationError::NotSupported) },
        ),
        PluginTaskRequest::RunSingularityJob(_) => PluginTaskResponse::RunSingularityJob(
            RunSingularityJobResponse { success: Err(RemoteOperationError::NotSupported) },
        ),
        PluginTaskRequest::ShowSingularityJobLogs(_) => PluginTaskResponse::ShowSingularityJobLogs(
            ShowSingularityJobLogsResponse { logs: Err(RemoteOperationError::NotSupported) },
        ),
        PluginTaskRequest::ShowSingularityJobsRunning(_) => PluginTaskResponse::ShowSingularityJobsRunning(
            ShowSingularityJobsRunningResponse {
                running_jobs: Err(RemoteOperationError::NotSupported),
            },
        ),
        PluginTaskRequest::EnqueueMultipleJobs(_) => PluginTaskResponse::EnqueueMultipleJobs(
            EnqueueMultipleJobsResponse { success: Err(RemoteOperationError::NotSupported) },
        ),
        PluginTaskRequest::StopRunningJobs(_) => PluginTaskResponse::StopRunningJobs(
            StopRunningJobsResponse { success: Err(RemoteOperationError::NotSupported) },
        ),
        PluginTaskRequest::SendMessages(_) => PluginTaskResponse::SendMessages(
            SendMessagesResponse { requests: Vec::new(), messages: Vec::new() },
        ),
        PluginTaskRequest::Terminate(_) => PluginTaskResponse::Terminate(TerminateResponse {}),
    }
}

/// Why an envelope is rejected rather than answered.
#[derive(Clone, Copy, Debug, PartialEq, Eq)]
pub enum ApiRejection {
    UnprocessableEntity,
}

/// Answer one envelope. Only an envelope that addresses the local
/// machine with a plugin task is answered; the response keeps the
/// version tag, answers for the local machine, and carries the
/// identifier of the request that produced it. Everything else is
/// rejected as unprocessable.
pub fn api_endpoint(bodydata: VersionedRequest, fs: FsOutcome) -> (out: Result<
    VersionedResponse,
    ApiRejection,
>)
    ensures
        out is Ok <==> (bodydata matches VersionedRequest::ApiV1(t, _, b) && t is LocalMachine
            && b is PluginTaskRequest),
        out matches Ok(resp) ==> {
            &&& bodydata matches VersionedRequest::ApiV1(_, rid, TaskRequest::PluginTaskRequest(
                req,
            )) && resp matches VersionedResponse::ApiV1(rt, rrid, body) && rt
                is LocalMachine && rrid == rid && local_response_ok(req, fs, body)
        },
        out matches Err(e) ==> e == ApiRejection::UnprocessableEntity,
{
    match bodydata {
        VersionedRequest::ApiV1(TargetSystem::LocalMachine, request_id, body) => match body {
            TaskRequest::PluginTaskRequest(request) => {
                let response_body = api_endpoint_localmachine_logic_v1(&request, fs);
                Ok(
                    VersionedResponse::ApiV1(
                        TargetSystem::LocalMachine,
                        request_id,
                        response_body,
                    ),
                )
            },
            TaskRequest::FrontendTaskRequest(_) => Err(ApiRejection::UnprocessableEntity),
        },
        VersionedRequest::ApiV1(_, _, _) => Err(ApiRejection::UnprocessableEntity),
    }
}

// ---------------------------------------------------------------------
// Journalling envelopes
// ---------------------------------------------------------------------

impl HardTypedDBAccess {
    /// Journal a plugin task request: one request row under its
    /// identifier and version, from the front-end to the addressed
    /// target, with the serialized payload text. Refused exactly when
    /// that request is already journalled.
    pub fn register_plugintask_request(
        &mut self,
        request: &VersionedRequest,
        payload: String,
        now: UnixTime,
    ) -> (r: Result<(), JournalError>)
        requires
            journal::journal_wf(old(self)@),
        ensures
            journal::journal_wf(final(self)@),
            *request matches VersionedRequest::ApiV1(target, rid, _) ==> {
                &&& (r is Ok <==> !journal::has_row(
                    old(self)@.requests,
                    rid.inner,
                    1,
                    RowKind::Request,
                ))
                &&& (r is Err ==> *final(self) == *old(self) && r == Err::<(), JournalError>(
                    JournalError::UniqueViolation,
                ))
                &&& (r is Ok ==> {
                    &&& final(self)@.requests == old(self)@.requests.push(
                        (journal::ReqModel {
                            request_id: rid.inner,
                            api_version: 1,
                            kind: RowKind::Request,
                            origin: "Frontend"@,
                            destination: spec_target_label(target),
                            payload: payload@,
                            start_time: now.seconds,
                            end_time: None,
                        }),
                    )
                    &&& final(self)@.logs == old(self)@.logs
                    &&& final(self)@.next_log_id == old(self)@.next_log_id
                })
            },
    {
        match request {
            VersionedRequest::ApiV1(target, rid, _) => {
                let origin = target_label(&TargetSystem::Frontend);
                let destination = target_label(target);
                self.register_request_row(rid.inner, 1, origin, destination, payload, now)
            },
        }
    }

    /// Journal a plugin task response: one response row under the
    /// request's identifier and version, and the matching request
    /// row's end-time set to the response row's timestamp. Refused
    /// exactly when that response is already journalled.
    pub fn register_plugintask_response(
        &mut self,
        response: &VersionedResponse,
        payload: String,
        now: UnixTime,
    ) -> (r: Result<(), JournalError>)
        requires
            journal::journal_wf(old(self)@),
        ensures
            journal::journal_wf(final(self)@),
            *response matches VersionedResponse::ApiV1(_, rid, _) ==> {
                &&& (r is Ok <==> !journal::has_row(
                    old(self)@.requests,
                    rid.inner,
                    1,
                    RowKind::Response,
                ))
                &&& (r is Err ==> *final(self) == *old(self) && r == Err::<(), JournalError>(
                    JournalError::UniqueViolation,
                ))
                &&& (r is Ok ==> {
                    let resp = final(self)@.requests.last();
                    &&& final(self)@.requests.len() == old(self)@.requests.len() + 1
                    &&& resp.request_id == rid.inner
                    &&& resp.api_version == 1
                    &&& resp.kind == RowKind::Response
                    &&& resp.payload == payload@
                    &&& resp.end_time == Some(resp.start_time)
                    &&& resp.start_time >= now.seconds
                    &&& (forall|i: int|
                        0 <= i < old(self)@.requests.len() ==> {
                            let r0 = old(self)@.requests[i];
                            let r1 = #[trigger] final(self)@.requests[i];
                            if journal::row_matches(r0, rid.inner, 1, RowKind::Request) {
                                r1 == (journal::ReqModel {
                                    end_time: Some(resp.start_time),
                                    ..r0
                                }) && resp.start_time >= r0.start_time
                            } else {
                                r1 == r0
                            }
                        })
                })
            },
    {
        match response {
            VersionedResponse::ApiV1(target, rid, _) => {
                let origin = target_label(target);
                let destination = target_label(&TargetSystem::Frontend);
                self.register_response_row(rid.inner, 1, origin, destination, payload, now)
            },
        }
    }

    /// Journal a front-end task request: one request row under its
    /// identifier and version, from the addressed target to the
    /// front-end, with the serialized payload text. Refused exactly
    /// when that request is already journalled.
    pub fn register_frontendtask_request_v1(
        &mut self,
        target_plugin: &TargetSystem,
        request_id: &RequestId,
        payload: String,
        now: UnixTime,
    ) -> (r: Result<(), JournalError>)
        requires
            journal::journal_wf(old(self)@),
        ensures
            journal::journal_wf(final(self)@),
            r is Ok <==> !journal::has_row(
                old(self)@.requests,
                request_id.inner,
                1,
                RowKind::Request,
            ),
            r is Err ==> *final(self) == *old(self) && r == Err::<(), JournalError>(
                JournalError::UniqueViolation,
            ),
            r is Ok ==> {
                &&& final(self)@.requests == old(self)@.requests.push(
                    (journal::ReqModel {
                        request_id: request_id.inner,
                        api_version: 1,
                        kind: RowKind::Request,
                        origin: spec_target_label(*target_plugin),
                        destination: "Frontend"@,
                        payload: payload@,
                        start_time: now.seconds,
                        end_time: None,
                    }),
                )
                &&& final(self)@.logs == old(self)@.logs
                &&& final(self)@.next_log_id == old(self)@.next_log_id
            },
    {
        let origin = target_label(target_plugin);
        let destination = target_label(&TargetSystem::Frontend);
        self.register_request_row(request_id.inner, 1, origin, destination, payload, now)
    }

    /// Journal a front-end task response: one response row under the
    /// request's identifier and version, and the matching request
    /// row's end-time set to the response row's timestamp. Refused
    /// exactly when that response is already journalled.
    pub fn register_frontendtask_response_v1(
        &mut self,
        target_plugin: &TargetSystem,
        request_id: &RequestId,
        payload: String,
        now: UnixTime,
    ) -> (r: Result<(), JournalError>)
        requires
            journal::journal_wf(old(self)@),
        ensures
            journal::journal_wf(final(self)@),
            r is Ok <==> !journal::has_row(
                old(self)@.requests,
                request_id.inner,
                1,
                RowKind::Response,
            ),
            r is Err ==> *final(self) == *old(self) && r == Err::<(), JournalError>(
                JournalError::UniqueViolation,
            ),
            r is Ok ==> {
                let resp = final(self)@.requests.last();
                &&& final(self)@.requests.len() == old(self)@.requests.len() + 1
                &&& resp.request_id == request_id.inner
                &&& resp.api_version == 1
                &&& resp.kind == RowKind::Response
                &&& resp.origin == "Frontend"@
                &&& resp.destination == spec_target_label(*target_plugin)
                &&& resp.payload == payload@
                &&& resp.end_time == Some(resp.start_time)
                &&& resp.start_time >= now.seconds
                &&& (forall|i: int|
                    0 <= i < old(self)@.requests.len() ==> {
                        let r0 = old(self)@.requests[i];
                        let r1 = #[trigger] final(self)@.requests[i];
                        if journal::row_matches(r0, request_id.inner, 1, RowKind::Request) {
                            r1 == (journal::ReqModel {
                                end_time: Some(resp.start_time),
                                ..r0
                            }) && resp.start_time >= r0.start_time
                        } else {
                            r1 == r0
                        }
                    })
            },
    {
        let origin = target_label(&TargetSystem::Frontend);
        let destination = target_label(target_plugin);
        self.register_response_row(request_id.inner, 1, origin, destination, payload, now)
    }

    /// Resolve a request without a stored response: its rows' end-time
    /// is set now, never below each row's start-time.
    pub fn mark_request_resolved_v1(&mut self, request_id: &RequestId, now: UnixTime)
        requires
            journal::journal_wf(old(self)@),
        ensures
            journal::journal_wf(final(self)@),
            final(self)@.requests.len() == old(self)@.requests.len(),
            forall|j: int|
                0 <= j < old(self)@.requests.len() ==> {
                    let r0 = old(self)@.requests[j];
                    let r1 = #[trigger] final(self)@.requests[j];
                    if r0.request_id == request_id.inner {
                        r1 == (journal::ReqModel {
                            end_time: Some(
                                if now.seconds > r0.start_time {
                                    now.seconds
                                } else {
                                    r0.start_time
                                },
                            ),
                            ..r0
                        })
                    } else {
                        r1 == r0
                    }
                },
            final(self)@.logs == old(self)@.logs,
            final(self)@.next_log_id == old(self)@.next_log_id,
    {
        self.mark_request_resolved(request_id.inner, now)
    }
}

} // verus!
