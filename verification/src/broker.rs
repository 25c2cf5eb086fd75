//! The task broker's decisions: the typed requests the front-end may
//! send, the typed responses it receives, and what each request does
//! to the stores.
//!
//! The broker is a single consumer: it owns the process store, the
//! output store, the container index and the catalog. All outside
//! work — spawning, polling and killing children, reading and writing
//! files, the helper server — happens beyond this crate; each handler
//! here takes what that work reported and decides the new state and
//! the response.

use vstd::prelude::*;

use crate::catalog::{
    catalog_wf, insert_desc, remove_desc_by_id, remove_desc_by_path, has_path,
    BackendContainerDescription, PersistentState, PersistentStateUpdate,
};
use crate::ids::JobId;
use crate::listing::DirectoryContents;
use crate::singularity::{SingularityQuery, SingularityResponse};
use crate::supervisor::{
    spec_kill_handle, spec_poll, unkilled_handles, ContainerJobStore, JobOutputStore, JobState,
    PollOutcome, ProcessStore,
};
use crate::textutil::spec_lines;
use crate::wsl::InstallationState;

verus! {

/// The page the front-end shows; carried through state-change
/// requests and handed back unchanged.
#[derive(Clone, Debug, PartialEq, Eq)]
pub enum AppState {
    InstallationPage,
    EntryPage,
    LocalStartPage(String),
    ColonyStartPage(String),
    ContainerSelfConfiguratorPage(String, String),
    GenericObserverPage(JobId),
    ProjectOverviewPage,
    LabBookPage,
    IFrame(String),
    TestPage,
}

/// Which filesystem a listing request addresses.
#[derive(Clone, Debug, PartialEq, Eq)]
pub enum FilesystemData {
    Local,
    LocalWSL,
    Remote(String),
}

/// A request from the front-end to the broker.
#[derive(Debug)]
pub enum BackendRequest {
    CheckWSL,
    SetAppState(AppState),
    ReadPersistentState,
    UpdatePersistentState(PersistentStateUpdate),
    QuerySingularity(String, SingularityQuery),
    RunSingularity(String, String, Vec<String>),
    RunSingularityApp(String, String, String, Vec<String>),
    StartLocalWebServer(AppState, String),
    InformLocalWebserverStarted(Result<u16, ()>),
    InformContainerWebserverStarted(Result<u16, ()>),
    AcceptConfiguration(String, String),
    SendConfiguration,
    ExportAnalysisIntoRepository(JobId, String, String, String),
    StartJob(String, String),
    SendJobInfo(JobId),
    SendJobOutput(JobId, usize),
    StopProcess(JobId),
    StopAllProcesses,
    StopProgram,
    InspectFilesystem(FilesystemData, String),
    ListDirectory(FilesystemData, String),
    MoveContent(String, String),
    DownloadContent(String, String),
}

/// A response from the broker to the front-end.
#[derive(Debug)]
pub enum BackendResponse {
    InstallStepCompleted(InstallationState),
    SetAppState(AppState),
    PersistentState(PersistentState),
    AddedNewContainer(BackendContainerDescription),
    SingularityInfo(String, Option<SingularityResponse>),
    LocalWebServerStarted(Option<u16>),
    ContainerWebServerStarted(Option<u16>),
    Configuration(String, String),
    ExportedAnalysisIntoRepository(Option<String>),
    JobInfo(JobId, JobState),
    JobOutput(JobId, Vec<String>),
    StoppedProcess(JobId),
    StoppedAllProcesses,
    FileCreated(Option<String>),
    FileList(Vec<String>),
    ListDirectory(Result<DirectoryContents, ()>),
}

/// Everything the broker owns.
pub struct BrokerState {
    pub process_store: ProcessStore,
    pub process_outputs: JobOutputStore,
    pub container_infos: ContainerJobStore,
    pub persistent_state: PersistentState,
    /// The next handle token to bind a spawned child under.
    pub next_handle: u64,
}

impl BrokerState {
    pub open spec fn wf(self) -> bool {
        &&& self.process_store.wf()
        &&& self.process_outputs.wf()
        &&& self.container_infos.wf()
        &&& catalog_wf(self.persistent_state@)
        &&& forall|i: int|
            0 <= i < self.process_store.view().len() ==> (#[trigger] self.process_store.view()[
                i
            ]).handle < self.next_handle
    }

    pub fn new(persistent_state: PersistentState) -> (out: BrokerState)
        requires
            catalog_wf(persistent_state@),
        ensures
            out.wf(),
            out.persistent_state@ == persistent_state@,
            out.process_store.view() == Seq::<crate::supervisor::JobRecord>::empty(),
    {
        BrokerState {
            process_store: ProcessStore::new(),
            process_outputs: JobOutputStore::new(),
            container_infos: ContainerJobStore::new(),
            persistent_state,
            next_handle: 0,
        }
    }

    /// A snapshot of the catalog, as the read request answers it.
    pub fn handle_read_persistent_state(&self) -> (resp: BackendResponse)
        ensures
            resp matches BackendResponse::PersistentState(p) && p@ == self.persistent_state@,
    {
        BackendResponse::PersistentState(self.persistent_state.duplicate())
    }

    /// One catalog update applied; a newly registered container is
    /// announced. The caller rewrites the catalog file afterwards.
    pub fn handle_update_persistent_state(&mut self, update: PersistentStateUpdate) -> (resp:
        Option<BackendResponse>)
        requires
            old(self).wf(),
        ensures
            final(self).wf(),
            final(self).process_store == old(self).process_store,
            final(self).process_outputs == old(self).process_outputs,
            final(self).container_infos == old(self).container_infos,
            final(self).next_handle == old(self).next_handle,
            match update {
                PersistentStateUpdate::AddContainer(p) => {
                    &&& (resp is Some <==> !has_path(old(self).persistent_state@.containers, p@))
                    &&& match resp {
                        Some(r) => r matches BackendResponse::AddedNewContainer(d) && d@.path
                            == p@ && final(self).persistent_state@.containers == insert_desc(
                            d@,
                            old(self).persistent_state@.containers,
                        ),
                        None => final(self).persistent_state@ == old(self).persistent_state@,
                    }
                },
                PersistentStateUpdate::RemoveContainerByPath(p) => resp is None && final(self).persistent_state@.containers == remove_desc_by_path(
                    old(self).persistent_state@.containers,
                    p@,
                ),
                PersistentStateUpdate::RemoveContainer(id) => resp is None && final(self).persistent_state@.containers == remove_desc_by_id(
                    old(self).persistent_state@.containers,
                    id,
                ),
                PersistentStateUpdate::SetlastSelectedContainerDir(p) => resp is None && final(self).persistent_state@.last_selected_container_dir == (match p {
                    Some(q) => Some(q@),
                    None => None,
                }),
            },
    {
        let announced = self.persistent_state.apply_update(update);
        match announced {
            Some(d) => Some(BackendResponse::AddedNewContainer(d)),
            None => None,
        }
    }

    /// A launched job registered under a fresh identity: it enters the
    /// process store under the next handle token with an empty output
    /// buffer, is linked under its container path, and the front-end's
    /// answer says the job runs.
    pub fn register_launch(&mut self, job: JobId, container_path: &String) -> (out: (
        u64,
        BackendResponse,
    ))
        requires
            old(self).wf(),
            old(self).next_handle < u64::MAX,
            !old(self).process_store.contains(job),
            !old(self).process_outputs.contains(job),
        ensures
            final(self).wf(),
            final(self).persistent_state@ == old(self).persistent_state@,
            out.0 == old(self).next_handle,
            final(self).next_handle == old(self).next_handle + 1,
            final(self).process_store.view() == old(self).process_store.view().push(
                crate::supervisor::JobRecord { id: job, handle: out.0, killed: false, exit: None },
            ),
            final(self).process_outputs.contains(job),
            final(self).process_outputs.bytes_of(job) == Seq::<u8>::empty(),
            final(self).container_infos.contains(container_path@),
            final(self).container_infos.jobs_of(container_path@) == if old(self).container_infos.contains(container_path@) {
                old(self).container_infos.jobs_of(container_path@).push(job)
            } else {
                seq![job]
            },
            out.1 == BackendResponse::JobInfo(job, JobState::Running),
    {
        let handle = self.next_handle;
        self.process_store.insert(job, handle);
        self.next_handle = self.next_handle + 1;
        self.process_outputs.create(job);
        proof {
            let ov = self.process_outputs.view();
            assert(ov[ov.len() - 1].0.uuidv4 == job.uuidv4);
            crate::supervisor::lemma_output_unique_idx(ov, job, ov.len() - 1);
            assert(self.process_outputs.bytes_of(job) == Seq::<u8>::empty());
        }
        self.container_infos.link(container_path, job);
        (handle, BackendResponse::JobInfo(job, JobState::Running))
    }

    /// A container launch decided for the identity drawn for it: a
    /// successful spawn under a fresh identity is registered as
    /// `register_launch` says and answered with the running job — and
    /// is owed exactly then. A failed spawn, or an identity already
    /// listed, changes nothing and answers nothing, as the event loop
    /// stays silent on a failed launch.
    pub fn handle_run_singularity(&mut self, job: JobId, container_path: &String, spawn_ok: bool)
        -> (out: Option<(u64, BackendResponse)>)
        requires
            old(self).wf(),
            old(self).next_handle < u64::MAX,
        ensures
            final(self).wf(),
            final(self).persistent_state@ == old(self).persistent_state@,
            out is Some <==> spawn_ok && !old(self).process_store.contains(job) && !old(self).process_outputs.contains(job),
            out is None ==> *final(self) == *old(self),
            out matches Some((handle, resp)) ==> {
                &&& handle == old(self).next_handle
                &&& final(self).next_handle == old(self).next_handle + 1
                &&& final(self).process_store.view() == old(self).process_store.view().push(
                    crate::supervisor::JobRecord { id: job, handle, killed: false, exit: None },
                )
                &&& final(self).process_outputs.contains(job)
                &&& final(self).process_outputs.bytes_of(job) == Seq::<u8>::empty()
                &&& final(self).container_infos.contains(container_path@)
                &&& final(self).container_infos.jobs_of(container_path@) == if old(self).container_infos.contains(container_path@) {
                    old(self).container_infos.jobs_of(container_path@).push(job)
                } else {
                    seq![job]
                }
                &&& resp == BackendResponse::JobInfo(job, JobState::Running)
            },
    {
        if !spawn_ok {
            return None;
        }
        if self.process_store.get(&job).is_some() {
            return None;
        }
        if self.process_outputs.read_lines(&job, 0).is_some() {
            return None;
        }
        let (handle, resp) = self.register_launch(job, container_path);
        Some((handle, resp))
    }

    /// One chunk of a child's output fed into its job's buffer.
    pub fn feed_job_output(&mut self, id: &JobId, chunk: &[u8]) -> (found: bool)
        requires
            old(self).wf(),
        ensures
            final(self).wf(),
            found == old(self).process_outputs.contains(*id),
            found ==> final(self).process_outputs.bytes_of(*id) == old(self).process_outputs.bytes_of(*id).add(chunk@),
            final(self).process_store == old(self).process_store,
            final(self).persistent_state@ == old(self).persistent_state@,
    {
        self.process_outputs.feed(id, chunk)
    }

    /// A job-state query answered from one observation of the child,
    /// as the supervisor's query rules say; an observed exit is
    /// remembered.
    pub fn handle_send_job_info(&mut self, id: &JobId, seen: PollOutcome) -> (resp:
        BackendResponse)
        requires
            old(self).wf(),
        ensures
            final(self).wf(),
            resp == BackendResponse::JobInfo(*id, spec_poll(old(self).process_store, *id, seen)),
            final(self).process_outputs == old(self).process_outputs,
            final(self).persistent_state@ == old(self).persistent_state@,
            final(self).next_handle == old(self).next_handle,
            old(self).process_store.exit_recorded(*id) ==> final(self).process_store == old(self).process_store,
    {
        let ghost pre = self.process_store;
        let st = self.process_store.poll_state(id, seen);
        proof {
            assert(self.wf()) by {
                assert forall|i: int|
                    0 <= i < self.process_store.view().len() implies (
                #[trigger] self.process_store.view()[i]).handle < self.next_handle by {
                    assert(self.process_store.view()[i].handle == pre.view()[i].handle);
                }
            }
        }
        BackendResponse::JobInfo(*id, st)
    }

    /// A job-output query answered: the lines of the job's buffer from
    /// the given offset on, exactly the slice at this moment; a job
    /// without a buffer answers with the placeholder line.
    pub fn handle_send_job_output(&self, id: &JobId, offset: usize) -> (resp: BackendResponse)
        requires
            self.wf(),
        ensures
            resp matches BackendResponse::JobOutput(rid, lines) && rid == *id && {
                if self.process_outputs.contains(*id) {
                    let all = self.process_outputs.lines_of(*id);
                    (offset <= all.len() ==> lines.deep_view() == all.skip(offset as int)) && (
                    offset > all.len() ==> lines.deep_view() == Seq::<Seq<char>>::empty())
                } else {
                    lines.deep_view() == seq!["No Output"@]
                }
            },
    {
        match self.process_outputs.read_lines(id, offset) {
            Some(lines) => BackendResponse::JobOutput(*id, lines),
            None => {
                let mut lines: Vec<String> = Vec::new();
                lines.push("No Output".to_owned());
                proof {
                    assert(lines.deep_view() =~= seq!["No Output"@]);
                }
                BackendResponse::JobOutput(*id, lines)
            },
        }
    }

    /// A stop request decided: the child's handle is given out for
    /// killing the first time only, the job's record stays in the
    /// store, marked killed, so its output and exit code remain
    /// readable, and the front-end hears the process was stopped. The
    /// caller also sends the helper server its termination request.
    pub fn handle_stop_process(&mut self, id: &JobId) -> (out: (Option<u64>, BackendResponse))
        requires
            old(self).wf(),
        ensures
            final(self).wf(),
            out.0 == spec_kill_handle(old(self).process_store, *id),
            out.1 == BackendResponse::StoppedProcess(*id),
            old(self).process_store.contains(*id) ==> final(self).process_store.view() == old(self).process_store.view().update(
                old(self).process_store.idx_of(*id),
                (crate::supervisor::JobRecord {
                    killed: true,
                    ..old(self).process_store.record_of(*id)
                }),
            ),
            !old(self).process_store.contains(*id) ==> final(self).process_store == old(self).process_store,
            final(self).process_outputs == old(self).process_outputs,
            final(self).container_infos == old(self).container_infos,
            final(self).next_handle == old(self).next_handle,
            final(self).persistent_state@ == old(self).persistent_state@,
    {
        let ghost pre = self.process_store;
        let kill = self.process_store.kill(id);
        proof {
            assert(self.wf()) by {
                assert forall|i: int|
                    0 <= i < self.process_store.view().len() implies (
                #[trigger] self.process_store.view()[i]).handle < self.next_handle by {
                    if old(self).process_store.contains(*id) {
                        assert(self.process_store.view()[i].handle == pre.view()[i].handle);
                    }
                }
            }
        }
        (kill, BackendResponse::StoppedProcess(*id))
    }

    /// A stop-everything request decided: every not-yet-killed child's
    /// handle is given out exactly once, every job's record stays in
    /// the store, marked killed, so output and exit codes remain
    /// readable, and the front-end hears that all processes were
    /// stopped. The caller also sends the helper server its
    /// termination request.
    pub fn handle_stop_all_processes(&mut self) -> (out: (Vec<u64>, BackendResponse))
        requires
            old(self).wf(),
        ensures
            final(self).wf(),
            out.0@ == unkilled_handles(old(self).process_store.view()),
            out.1 == BackendResponse::StoppedAllProcesses,
            final(self).process_store.view().len() == old(self).process_store.view().len(),
            forall|i: int|
                0 <= i < old(self).process_store.view().len() ==> #[trigger] final(self).process_store.view()[i] == (crate::supervisor::JobRecord {
                    killed: true,
                    ..old(self).process_store.view()[i]
                }),
            final(self).process_outputs == old(self).process_outputs,
            final(self).container_infos == old(self).container_infos,
            final(self).next_handle == old(self).next_handle,
            final(self).persistent_state@ == old(self).persistent_state@,
    {
        let ghost pre = self.process_store;
        let kills = self.process_store.shutdown();
        proof {
            assert(self.wf()) by {
                assert forall|i: int|
                    0 <= i < self.process_store.view().len() implies (
                #[trigger] self.process_store.view()[i]).handle < self.next_handle by {
                    assert(self.process_store.view()[i].handle == pre.view()[i].handle);
                }
            }
        }
        (kills, BackendResponse::StoppedAllProcesses)
    }

    /// A received configuration passed on to the front-end for the
    /// container it belongs to.
    pub fn handle_accept_configuration(&self, container: String, config: String) -> (resp:
        BackendResponse)
        ensures
            resp == BackendResponse::Configuration(container, config),
    {
        BackendResponse::Configuration(container, config)
    }

    /// The helper server's bind report passed on: the port on success,
    /// nothing on failure.
    pub fn handle_inform_local_webserver_started(&self, report: Result<u16, ()>) -> (resp:
        BackendResponse)
        ensures
            report matches Ok(p) ==> resp == BackendResponse::LocalWebServerStarted(Some(p)),
            report is Err ==> resp == BackendResponse::LocalWebServerStarted(None::<u16>),
    {
        match report {
            Ok(port) => BackendResponse::LocalWebServerStarted(Some(port)),
            Err(()) => BackendResponse::LocalWebServerStarted(None),
        }
    }

    /// The container-side server's bind report passed on likewise.
    pub fn handle_inform_container_webserver_started(&self, report: Result<u16, ()>) -> (resp:
        BackendResponse)
        ensures
            report matches Ok(p) ==> resp == BackendResponse::ContainerWebServerStarted(Some(p)),
            report is Err ==> resp == BackendResponse::ContainerWebServerStarted(None::<u16>),
    {
        match report {
            Ok(port) => BackendResponse::ContainerWebServerStarted(Some(port)),
            Err(()) => BackendResponse::ContainerWebServerStarted(None),
        }
    }

    /// A page-change request echoed back to the front-end.
    pub fn handle_set_app_state(&self, app_state: AppState) -> (resp: BackendResponse)
        ensures
            resp == BackendResponse::SetAppState(app_state),
    {
        BackendResponse::SetAppState(app_state)
    }

    /// A container query answered from what the query command handed
    /// back.
    pub fn handle_query_singularity(
        &self,
        container_path: String,
        query: &SingularityQuery,
        raw: Option<String>,
    ) -> (resp: BackendResponse)
        ensures
            resp matches BackendResponse::SingularityInfo(p, o) && p == container_path && {
                &&& (raw is None ==> o is None)
                &&& (raw matches Some(text) ==> match query {
                    SingularityQuery::AppList => o matches Some(
                        SingularityResponse::AppList(lines),
                    ) && lines.deep_view() == spec_lines(text@),
                    SingularityQuery::AppRequirements => o == Some(
                        SingularityResponse::AppRequirements(text),
                    ),
                    SingularityQuery::AppConfigurationOptions => o == Some(
                        SingularityResponse::AppConfigurationOptions(text),
                    ),
                    SingularityQuery::Inspection => o == if crate::singularity::json_wellformed(
                        text@,
                    ) {
                        Some(SingularityResponse::Inspection(text))
                    } else {
                        None
                    },
                    SingularityQuery::RunHelp => o == Some(SingularityResponse::RunHelp(text)),
                    SingularityQuery::AppHelp(_) => o == Some(
                        SingularityResponse::AppHelp(text),
                    ),
                    SingularityQuery::RunLabels => o == Some(
                        SingularityResponse::RunLabels(text),
                    ),
                    SingularityQuery::AppLabels(_) => o == Some(
                        SingularityResponse::AppLabels(text),
                    ),
                })
            },
    {
        let out = crate::singularity::singularity_query_response(query, raw);
        BackendResponse::SingularityInfo(container_path, out)
    }
}

} // verus!
