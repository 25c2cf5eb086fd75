//! The request journal: a durable, append-only record of every request
//! and response with their lifecycle timestamps, and the log lines
//! attached to them.
//!
//! Rows are unique by request identifier, API version and direction.
//! A request row's end-time is null until the matching response is
//! journalled; from then on it equals the response row's timestamp and
//! never falls below the request's own start-time — a clock reading
//! behind the matching request's start is raised to that start so the
//! order invariant holds.

use vstd::prelude::*;

use crate::time::UnixTime;

verus! {

/// Which stream a log line came from.
#[derive(Clone, Copy, Debug, PartialEq, Eq)]
pub enum StreamTag {
    Stdout,
    Stderr,
    Event,
}

/// Whether a journal row records a request or its response.
#[derive(Clone, Copy, Debug, PartialEq, Eq)]
pub enum RowKind {
    Request,
    Response,
}

/// One row of the requests table.
#[derive(Debug)]
pub struct RequestRecord {
    pub request_id: u128,
    pub api_version: u32,
    pub kind: RowKind,
    pub origin: String,
    pub destination: String,
    pub payload: String,
    pub start_time: u64,
    pub end_time: Option<u64>,
}

/// The mathematical content of a requests row.
#[verifier::ext_equal]
pub struct ReqModel {
    pub request_id: u128,
    pub api_version: u32,
    pub kind: RowKind,
    pub origin: Seq<char>,
    pub destination: Seq<char>,
    pub payload: Seq<char>,
    pub start_time: u64,
    pub end_time: Option<u64>,
}

impl View for RequestRecord {
    type V = ReqModel;

    open spec fn view(&self) -> ReqModel {
        ReqModel {
            request_id: self.request_id,
            api_version: self.api_version,
            kind: self.kind,
            origin: self.origin@,
            destination: self.destination@,
            payload: self.payload@,
            start_time: self.start_time,
            end_time: self.end_time,
        }
    }
}

impl DeepView for RequestRecord {
    type V = ReqModel;

    open spec fn deep_view(&self) -> ReqModel {
        self.view()
    }
}

/// One row of the logs table.
#[derive(Debug)]
pub struct LogRecord {
    pub id: u64,
    pub request_id: u128,
    pub stream_type: StreamTag,
    pub time_stamp: u64,
    pub raw_line: String,
    pub json_payload: Option<String>,
}

/// The mathematical content of a logs row.
#[verifier::ext_equal]
pub struct LogModel {
    pub id: u64,
    pub request_id: u128,
    pub stream_type: StreamTag,
    pub time_stamp: u64,
    pub raw_line: Seq<char>,
    pub json_payload: Option<Seq<char>>,
}

impl View for LogRecord {
    type V = LogModel;

    open spec fn view(&self) -> LogModel {
        LogModel {
            id: self.id,
            request_id: self.request_id,
            stream_type: self.stream_type,
            time_stamp: self.time_stamp,
            raw_line: self.raw_line@,
            json_payload: match self.json_payload {
                Some(ref s) => Some(s@),
                None => None,
            },
        }
    }
}

impl DeepView for LogRecord {
    type V = LogModel;

    open spec fn deep_view(&self) -> LogModel {
        self.view()
    }
}

/// Why a journal write was refused.
#[derive(Clone, Copy, Debug, PartialEq, Eq)]
pub enum JournalError {
    UniqueViolation,
}

/// The journal's tables.
#[derive(Debug)]
pub struct HardTypedDBAccess {
    requests: Vec<RequestRecord>,
    logs: Vec<LogRecord>,
    next_log_id: u64,
}

/// The mathematical content of the journal.
#[verifier::ext_equal]
pub struct JournalModel {
    pub requests: Seq<ReqModel>,
    pub logs: Seq<LogModel>,
    pub next_log_id: u64,
}

/// A row answers to the key (request identifier, API version,
/// direction).
pub open spec fn row_matches(r: ReqModel, id: u128, ver: u32, kind: RowKind) -> bool {
    r.request_id == id && r.api_version == ver && r.kind == kind
}

pub open spec fn has_row(s: Seq<ReqModel>, id: u128, ver: u32, kind: RowKind) -> bool {
    exists|i: int| 0 <= i < s.len() && row_matches(s[i], id, ver, kind)
}

/// Journal validity: unique keys, end never before start, log
/// identifiers unique and below the next to be assigned.
pub open spec fn journal_wf(j: JournalModel) -> bool {
    &&& (forall|i: int, k: int|
        0 <= i < k < j.requests.len() ==> !(j.requests[i].request_id == j.requests[k].request_id
            && j.requests[i].api_version == j.requests[k].api_version && j.requests[i].kind
            == j.requests[k].kind))
    &&& (forall|i: int|
        0 <= i < j.requests.len() ==> match (#[trigger] j.requests[i]).end_time {
            Some(t) => t >= j.requests[i].start_time,
            None => true,
        })
    &&& (forall|i: int| 0 <= i < j.logs.len() ==> (#[trigger] j.logs[i]).id < j.next_log_id)
    &&& (forall|i: int, k: int| 0 <= i < k < j.logs.len() ==> j.logs[i].id != j.logs[k].id)
}

impl HardTypedDBAccess {
    pub closed spec fn view(self) -> JournalModel {
        JournalModel {
            requests: self.requests.deep_view(),
            logs: self.logs.deep_view(),
            next_log_id: self.next_log_id,
        }
    }

    /// A journal with empty tables, as a first open creates it.
    pub fn new() -> (out: HardTypedDBAccess)
        ensures
            out@.requests == Seq::<ReqModel>::empty(),
            out@.logs == Seq::<LogModel>::empty(),
            out@.next_log_id == 0,
            journal_wf(out@),
    {
        let out = HardTypedDBAccess { requests: Vec::new(), logs: Vec::new(), next_log_id: 0 };
        proof {
            assert(out@.requests =~= Seq::<ReqModel>::empty());
            assert(out@.logs =~= Seq::<LogModel>::empty());
        }
        out
    }

    /// The journalled request and response rows, in insertion order.
    pub fn requests(&self) -> (r: &Vec<RequestRecord>)
        ensures
            r.deep_view() == self@.requests,
    {
        &self.requests
    }

    /// The journalled log rows, in insertion order.
    pub fn logs(&self) -> (r: &Vec<LogRecord>)
        ensures
            r.deep_view() == self@.logs,
    {
        &self.logs
    }

    /// The position of the row under the key, if present.
    fn find_row(&self, id: u128, ver: u32, kind: RowKind) -> (r: Option<usize>)
        ensures
            match r {
                Some(i) => i < self@.requests.len() && row_matches(
                    self@.requests[i as int],
                    id,
                    ver,
                    kind,
                ),
                None => !has_row(self@.requests, id, ver, kind),
            },
    {
        let n = self.requests.len();
        let mut i: usize = 0;
        while i < n
            invariant
                i <= n,
                n == self@.requests.len(),
                forall|j: int| 0 <= j < i ==> !row_matches(self@.requests[j], id, ver, kind),
            decreases n - i,
    {
            let same_kind = match (self.requests[i].kind, kind) {
                (RowKind::Request, RowKind::Request) => true,
                (RowKind::Response, RowKind::Response) => true,
                _ => false,
            };
            if self.requests[i].request_id == id && self.requests[i].api_version == ver
                && same_kind {
                return Some(i);
            }
            i += 1;
        }
        None
    }

    /// Journal one request: a new row under (request-id, api-version)
    /// with the given origin, destination and payload text, started
    /// now, not yet ended. Refused with `UniqueViolation`, and the
    /// journal left unchanged, exactly when a request row with that
    /// key is already present.
    pub fn register_request_row(
        &mut self,
        request_id: u128,
        api_version: u32,
        origin: String,
        destination: String,
        payload: String,
        now: UnixTime,
    ) -> (r: Result<(), JournalError>)
        requires
            journal_wf(old(self)@),
        ensures
            journal_wf(final(self)@),
            r is Ok <==> !has_row(old(self)@.requests, request_id, api_version, RowKind::Request),
            r is Err ==> *final(self) == *old(self) && r == Err::<(), JournalError>(
                JournalError::UniqueViolation,
            ),
            r is Ok ==> final(self)@ == (JournalModel {
                requests: old(self)@.requests.push(
                    ReqModel {
                        request_id,
                        api_version,
                        kind: RowKind::Request,
                        origin: origin@,
                        destination: destination@,
                        payload: payload@,
                        start_time: now.seconds,
                        end_time: None,
                    },
                ),
                ..old(self)@
            }),
    {
        match self.find_row(request_id, api_version, RowKind::Request) {
            Some(_) => Err(JournalError::UniqueViolation),
            None => {
                self.requests.push(
                    RequestRecord {
                        request_id,
                        api_version,
                        kind: RowKind::Request,
                        origin,
                        destination,
                        payload,
                        start_time: now.seconds,
                        end_time: None,
                    },
                );
                proof {
                    assert(final(self)@ =~= (JournalModel {
                        requests: old(self)@.requests.push(
                            ReqModel {
                                request_id,
                                api_version,
                                kind: RowKind::Request,
                                origin: origin@,
                                destination: destination@,
                                payload: payload@,
                                start_time: now.seconds,
                                end_time: None,
                            },
                        ),
                        ..old(self)@
                    }));
                }
                Ok(())
            },
        }
    }

    /// Journal one response: a new response row under the key, and the
    /// matching request row's end-time set to the response row's
    /// timestamp. That timestamp is the clock reading, raised to the
    /// matching request's start-time where the clock stands behind it,
    /// so end-time is never below start-time. Refused with
    /// `UniqueViolation`, and the journal left unchanged, exactly when
    /// a response row with that key is already present.
    pub fn register_response_row(
        &mut self,
        request_id: u128,
        api_version: u32,
        origin: String,
        destination: String,
        payload: String,
        now: UnixTime,
    ) -> (r: Result<(), JournalError>)
        requires
            journal_wf(old(self)@),
        ensures
            journal_wf(final(self)@),
            r is Ok <==> !has_row(old(self)@.requests, request_id, api_version, RowKind::Response),
            r is Err ==> *final(self) == *old(self) && r == Err::<(), JournalError>(
                JournalError::UniqueViolation,
            ),
            r is Ok ==> {
                let resp = final(self)@.requests.last();
                &&& final(self)@.requests.len() == old(self)@.requests.len() + 1
                &&& resp.request_id == request_id
                &&& resp.api_version == api_version
                &&& resp.kind == RowKind::Response
                &&& resp.origin == origin@
                &&& resp.destination == destination@
                &&& resp.payload == payload@
                &&& resp.end_time == Some(resp.start_time)
                &&& resp.start_time >= now.seconds
                &&& (!has_row(old(self)@.requests, request_id, api_version, RowKind::Request)
                    ==> resp.start_time == now.seconds)
                &&& (forall|i: int|
                    0 <= i < old(self)@.requests.len() ==> {
                        let r0 = old(self)@.requests[i];
                        let r1 = #[trigger] final(self)@.requests[i];
                        if row_matches(r0, request_id, api_version, RowKind::Request) {
                            r1 == (ReqModel { end_time: Some(resp.start_time), ..r0 })
                                && resp.start_time >= r0.start_time
                        } else {
                            r1 == r0
                        }
                    })
                &&& final(self)@.logs == old(self)@.logs
                &&& final(self)@.next_log_id == old(self)@.next_log_id
            },
    {
        match self.find_row(request_id, api_version, RowKind::Response) {
            Some(_) => Err(JournalError::UniqueViolation),
            None => {
                let ghost pre = self@.requests;
                let found = self.find_row(request_id, api_version, RowKind::Request);
                let effective: u64 = match found {
                    Some(f) => {
                        if self.requests[f].start_time > now.seconds {
                            self.requests[f].start_time
                        } else {
                            now.seconds
                        }
                    },
                    None => now.seconds,
                };
                proof {
                    assert forall|j: int|
                        0 <= j < pre.len() && row_matches(
                            pre[j],
                            request_id,
                            api_version,
                            RowKind::Request,
                        ) implies effective >= pre[j].start_time by {
                        match found {
                            Some(f) => {
                                if j != f {
                                    if j < f {
                                        assert(!(pre[j].request_id == pre[f as int].request_id
                                            && pre[j].api_version == pre[f as int].api_version
                                            && pre[j].kind == pre[f as int].kind));
                                    } else {
                                        assert(!(pre[f as int].request_id == pre[j].request_id
                                            && pre[f as int].api_version == pre[j].api_version
                                            && pre[f as int].kind == pre[j].kind));
                                    }
                                }
                            },
                            None => {
                                assert(has_row(pre, request_id, api_version, RowKind::Request));
                            },
                        }
                    }
                }
                let n = self.requests.len();
                let mut i: usize = 0;
                while i < n
                    invariant
                        i <= n,
                        n == old(self)@.requests.len(),
                        effective >= now.seconds,
                        !has_row(old(self)@.requests, request_id, api_version, RowKind::Request)
                            ==> effective == now.seconds,
                        forall|j: int|
                            0 <= j < n && row_matches(
                                #[trigger] old(self)@.requests[j],
                                request_id,
                                api_version,
                                RowKind::Request,
                            ) ==> effective >= old(self)@.requests[j].start_time,
                        self@.requests.len() == n,
                        self@.logs == old(self)@.logs,
                        self@.next_log_id == old(self)@.next_log_id,
                        forall|j: int|
                            0 <= j < n ==> {
                                let r0 = old(self)@.requests[j];
                                let r1 = #[trigger] self@.requests[j];
                                if j < i && row_matches(
                                    r0,
                                    request_id,
                                    api_version,
                                    RowKind::Request,
                                ) {
                                    r1 == (ReqModel { end_time: Some(effective), ..r0 })
                                        && effective >= r0.start_time
                                } else {
                                    r1 == r0
                                }
                            },
                    decreases n - i,
                {
                    let is_req = match self.requests[i].kind {
                        RowKind::Request => true,
                        RowKind::Response => false,
                    };
                    if self.requests[i].request_id == request_id
                        && self.requests[i].api_version == api_version && is_req {
                        set_end_time(&mut self.requests, i, effective);
                    }
                    i += 1;
                }
                let ghost looped = self@.requests;
                self.requests.push(
                    RequestRecord {
                        request_id,
                        api_version,
                        kind: RowKind::Response,
                        origin,
                        destination,
                        payload,
                        start_time: effective,
                        end_time: Some(effective),
                    },
                );
                proof {
                    assert(self@.requests =~= looped.push(
                        ReqModel {
                            request_id,
                            api_version,
                            kind: RowKind::Response,
                            origin: origin@,
                            destination: destination@,
                            payload: payload@,
                            start_time: effective,
                            end_time: Some(effective),
                        },
                    ));
                    let cur = self@.requests;
                    let pre = old(self)@.requests;
                    assert(journal_wf(self@)) by {
                        assert forall|a: int, b: int|
                            0 <= a < b < cur.len() implies !(cur[a].request_id
                            == cur[b].request_id && cur[a].api_version == cur[b].api_version
                            && cur[a].kind == cur[b].kind) by {
                            if b < pre.len() {
                                assert(cur[a].request_id == pre[a].request_id && cur[a].api_version
                                    == pre[a].api_version && cur[a].kind == pre[a].kind);
                                assert(cur[b].request_id == pre[b].request_id && cur[b].api_version
                                    == pre[b].api_version && cur[b].kind == pre[b].kind);
                            } else {
                                assert(cur[b].kind == RowKind::Response);
                                if a < pre.len() {
                                    assert(cur[a].kind == pre[a].kind);
                                    assert(!row_matches(
                                        pre[a],
                                        request_id,
                                        api_version,
                                        RowKind::Response,
                                    ));
                                }
                            }
                        }
                    }
                }
                Ok(())
            },
        }
    }

    /// Set the end-time of every row with the request identifier,
    /// raised to each row's own start-time where the clock stands
    /// behind it. Used when a request is resolved without a stored
    /// response.
    pub fn mark_request_resolved(&mut self, request_id: u128, now: UnixTime)
        requires
            journal_wf(old(self)@),
        ensures
            journal_wf(final(self)@),
            final(self)@.requests.len() == old(self)@.requests.len(),
            forall|j: int|
                0 <= j < old(self)@.requests.len() ==> {
                    let r0 = old(self)@.requests[j];
                    let r1 = #[trigger] final(self)@.requests[j];
                    if r0.request_id == request_id {
                        r1 == (ReqModel {
                            end_time: Some(
                                if now.seconds > r0.start_time {
                                    now.seconds
                                } else {
                                    r0.start_time
                                },
                            ),
                            ..r0
                        })
                    } else {
                        r1 == r0
                    }
                },
            final(self)@.logs == old(self)@.logs,
            final(self)@.next_log_id == old(self)@.next_log_id,
    {
        let n = self.requests.len();
        let mut i: usize = 0;
        while i < n
            invariant
                i <= n,
                n == old(self)@.requests.len(),
                self@.requests.len() == n,
                self@.logs == old(self)@.logs,
                self@.next_log_id == old(self)@.next_log_id,
                forall|j: int|
                    0 <= j < n ==> {
                        let r0 = old(self)@.requests[j];
                        let r1 = #[trigger] self@.requests[j];
                        if j < i && r0.request_id == request_id {
                            r1 == (ReqModel {
                                end_time: Some(
                                    if now.seconds > r0.start_time {
                                        now.seconds
                                    } else {
                                        r0.start_time
                                    },
                                ),
                                ..r0
                            })
                        } else {
                            r1 == r0
                        }
                    },
            decreases n - i,
        {
            if self.requests[i].request_id == request_id {
                let eff: u64 = if now.seconds > self.requests[i].start_time {
                    now.seconds
                } else {
                    self.requests[i].start_time
                };
                set_end_time(&mut self.requests, i, eff);
            }
            i += 1;
        }
    }

    /// Append one log line for a request: the next log identifier, the
    /// stream tag, the timestamp, the raw line and the optional
    /// structured payload.
    pub fn append_log(
        &mut self,
        request_id: u128,
        stream_type: StreamTag,
        raw_line: String,
        json_payload: Option<String>,
        now: UnixTime,
    )
        requires
            journal_wf(old(self)@),
            old(self)@.next_log_id < u64::MAX,
        ensures
            journal_wf(final(self)@),
            final(self)@.requests == old(self)@.requests,
            final(self)@.next_log_id == old(self)@.next_log_id + 1,
            final(self)@.logs == old(self)@.logs.push(
                LogModel {
                    id: old(self)@.next_log_id,
                    request_id,
                    stream_type,
                    time_stamp: now.seconds,
                    raw_line: raw_line@,
                    json_payload: match json_payload {
                        Some(s) => Some(s@),
                        None => None,
                    },
                },
            ),
    {
        let id = self.next_log_id;
        self.next_log_id = self.next_log_id + 1;
        let ghost jp = match json_payload {
            Some(ref s) => Some(s@),
            None => None,
        };
        self.logs.push(
            LogRecord { id, request_id, stream_type, time_stamp: now.seconds, raw_line, json_payload },
        );
        proof {
            assert(final(self)@.logs =~= old(self)@.logs.push(
                LogModel {
                    id: old(self)@.next_log_id,
                    request_id,
                    stream_type,
                    time_stamp: now.seconds,
                    raw_line: raw_line@,
                    json_payload: jp,
                },
            ));
        }
    }
}

/// Set one row's end-time.
fn set_end_time(v: &mut Vec<RequestRecord>, i: usize, t: u64)
    requires
        i < old(v)@.len(),
    ensures
        final(v).deep_view() == old(v).deep_view().update(
            i as int,
            ReqModel { end_time: Some(t), ..old(v).deep_view()[i as int] },
        ),
{
    let row = v.remove(i);
    let RequestRecord {
        request_id,
        api_version,
        kind,
        origin,
        destination,
        payload,
        start_time,
        end_time: _,
    } = row;
    v.insert(
        i,
        RequestRecord {
            request_id,
            api_version,
            kind,
            origin,
            destination,
            payload,
            start_time,
            end_time: Some(t),
        },
    );
    proof {
        assert(final(v).deep_view() =~= old(v).deep_view().update(
            i as int,
            ReqModel { end_time: Some(t), ..old(v).deep_view()[i as int] },
        ));
    }
}


// ---------------------------------------------------------------------
// Pruning
// ---------------------------------------------------------------------

/// The request rows that survive pruning at `before`: those not yet
/// ended, and those ended after `before`.
pub open spec fn keep_requests(s: Seq<ReqModel>, before: u64) -> Seq<ReqModel>
    decreases s.len(),
{
    if s.len() == 0 {
        seq![]
    } else if pruned_row(s[0], before) {
        keep_requests(s.drop_first(), before)
    } else {
        seq![s[0]].add(keep_requests(s.drop_first(), before))
    }
}

/// A row removed by pruning at `before`: ended, at or before that
/// moment.
pub open spec fn pruned_row(r: ReqModel, before: u64) -> bool {
    match r.end_time {
        Some(t) => t <= before,
        None => false,
    }
}

/// Some surviving row bears the request identifier.
pub open spec fn req_id_present(s: Seq<ReqModel>, id: u128) -> bool {
    exists|i: int| 0 <= i < s.len() && s[i].request_id == id
}

/// The log rows that survive pruning: those whose request still has a
/// row.
pub open spec fn keep_logs(ls: Seq<LogModel>, reqs: Seq<ReqModel>) -> Seq<LogModel>
    decreases ls.len(),
{
    if ls.len() == 0 {
        seq![]
    } else if req_id_present(reqs, ls[0].request_id) {
        seq![ls[0]].add(keep_logs(ls.drop_first(), reqs))
    } else {
        keep_logs(ls.drop_first(), reqs)
    }
}

proof fn lemma_keep_requests(s: Seq<ReqModel>, before: u64)
    ensures
        forall|e: ReqModel|
            #[trigger] keep_requests(s, before).contains(e) <==> s.contains(e) && !pruned_row(
                e,
                before,
            ),
    decreases s.len(),
{
    let r = keep_requests(s, before);
    if s.len() == 0 {
        assert forall|e: ReqModel| !r.contains(e) && !s.contains(e) by {}
    } else {
        let tail = s.drop_first();
        lemma_keep_requests(tail, before);
        let rt = keep_requests(tail, before);
        assert forall|e: ReqModel| tail.contains(e) implies s.contains(e) by {
            let i = choose|i: int| 0 <= i < tail.len() && tail[i] == e;
            assert(s[i + 1] == e);
        }
        assert forall|e: ReqModel| #[trigger] r.contains(e) <==> s.contains(e) && !pruned_row(
            e,
            before,
        ) by {
            if r.contains(e) {
                if pruned_row(s[0], before) {
                } else {
                    let i = choose|i: int| 0 <= i < r.len() && r[i] == e;
                    if i == 0 {
                        assert(s[0] == e);
                    } else {
                        assert(rt[i - 1] == e);
                        assert(rt.contains(e));
                    }
                }
            }
            if s.contains(e) && !pruned_row(e, before) {
                let i = choose|i: int| 0 <= i < s.len() && s[i] == e;
                if i == 0 {
                    if !pruned_row(s[0], before) {
                        assert(r[0] == e);
                    }
                } else {
                    assert(tail[i - 1] == e);
                    assert(tail.contains(e));
                    assert(rt.contains(e));
                    if !pruned_row(s[0], before) {
                        let k = choose|k: int| 0 <= k < rt.len() && rt[k] == e;
                        assert(r[k + 1] == e);
                    }
                }
            }
        }
    }
}

proof fn lemma_keep_logs(ls: Seq<LogModel>, reqs: Seq<ReqModel>)
    ensures
        forall|e: LogModel|
            #[trigger] keep_logs(ls, reqs).contains(e) <==> ls.contains(e) && req_id_present(
                reqs,
                e.request_id,
            ),
    decreases ls.len(),
{
    let r = keep_logs(ls, reqs);
    if ls.len() == 0 {
        assert forall|e: LogModel| !r.contains(e) && !ls.contains(e) by {}
    } else {
        let tail = ls.drop_first();
        lemma_keep_logs(tail, reqs);
        let rt = keep_logs(tail, reqs);
        assert forall|e: LogModel| tail.contains(e) implies ls.contains(e) by {
            let i = choose|i: int| 0 <= i < tail.len() && tail[i] == e;
            assert(ls[i + 1] == e);
        }
        assert forall|e: LogModel| #[trigger] r.contains(e) <==> ls.contains(e) && req_id_present(
            reqs,
            e.request_id,
        ) by {
            if r.contains(e) {
                if req_id_present(reqs, ls[0].request_id) {
                    let i = choose|i: int| 0 <= i < r.len() && r[i] == e;
                    if i == 0 {
                        assert(ls[0] == e);
                    } else {
                        assert(rt[i - 1] == e);
                        assert(rt.contains(e));
                    }
                } else {
                }
            }
            if ls.contains(e) && req_id_present(reqs, e.request_id) {
                let i = choose|i: int| 0 <= i < ls.len() && ls[i] == e;
                if i == 0 {
                    if req_id_present(reqs, ls[0].request_id) {
                        assert(r[0] == e);
                    }
                } else {
                    assert(tail[i - 1] == e);
                    assert(tail.contains(e));
                    assert(rt.contains(e));
                    if req_id_present(reqs, ls[0].request_id) {
                        let k = choose|k: int| 0 <= k < rt.len() && rt[k] == e;
                        assert(r[k + 1] == e);
                    }
                }
            }
        }
    }
}

/// Pruning keeps the requests table's keys pairwise distinct.
proof fn lemma_keep_requests_wf(s: Seq<ReqModel>, before: u64)
    requires
        forall|i: int, k: int|
            0 <= i < k < s.len() ==> !(s[i].request_id == s[k].request_id && s[i].api_version
                == s[k].api_version && s[i].kind == s[k].kind),
    ensures
        forall|i: int, k: int|
            #![trigger keep_requests(s, before)[i], keep_requests(s, before)[k]]
            0 <= i < k < keep_requests(s, before).len() ==> !(keep_requests(s, before)[i].request_id
                == keep_requests(s, before)[k].request_id && keep_requests(
                s,
                before,
            )[i].api_version == keep_requests(s, before)[k].api_version && keep_requests(
                s,
                before,
            )[i].kind == keep_requests(s, before)[k].kind),
    decreases s.len(),
{
    let r = keep_requests(s, before);
    if s.len() == 0 {
    } else {
        let tail = s.drop_first();
        assert(forall|i: int| 0 <= i < tail.len() ==> (#[trigger] tail[i]) == s[i + 1]);
        lemma_keep_requests_wf(tail, before);
        lemma_keep_requests(tail, before);
        let rt = keep_requests(tail, before);
        if pruned_row(s[0], before) {
        } else {
            assert(r == seq![s[0]].add(rt));
            assert forall|i: int, k: int|
                #![trigger r[i], r[k]]
                0 <= i < k < r.len() implies !(r[i].request_id == r[k].request_id
                && r[i].api_version == r[k].api_version && r[i].kind == r[k].kind) by {
                if i == 0 {
                    assert(r[k] == rt[k - 1]);
                    assert(rt.contains(rt[k - 1]));
                    assert(tail.contains(rt[k - 1]));
                    let c = choose|c: int| 0 <= c < tail.len() && tail[c] == rt[k - 1];
                    assert(s[c + 1] == rt[k - 1]);
                } else {
                    assert(r[i] == rt[i - 1]);
                    assert(r[k] == rt[k - 1]);
                }
            }
        }
    }
}

/// Pruning keeps the log identifiers pairwise distinct.
proof fn lemma_keep_logs_wf(ls: Seq<LogModel>, reqs: Seq<ReqModel>)
    requires
        forall|i: int, k: int| 0 <= i < k < ls.len() ==> ls[i].id != ls[k].id,
    ensures
        forall|i: int, k: int|
            #![trigger keep_logs(ls, reqs)[i], keep_logs(ls, reqs)[k]]
            0 <= i < k < keep_logs(ls, reqs).len() ==> keep_logs(ls, reqs)[i].id != keep_logs(
                ls,
                reqs,
            )[k].id,
    decreases ls.len(),
{
    let r = keep_logs(ls, reqs);
    if ls.len() == 0 {
    } else {
        let tail = ls.drop_first();
        assert(forall|i: int| 0 <= i < tail.len() ==> (#[trigger] tail[i]) == ls[i + 1]);
        lemma_keep_logs_wf(tail, reqs);
        lemma_keep_logs(tail, reqs);
        let rt = keep_logs(tail, reqs);
        if req_id_present(reqs, ls[0].request_id) {
            assert(r == seq![ls[0]].add(rt));
            assert forall|i: int, k: int|
                #![trigger r[i], r[k]]
                0 <= i < k < r.len() implies r[i].id != r[k].id by {
                if i == 0 {
                    assert(r[k] == rt[k - 1]);
                    assert(rt.contains(rt[k - 1]));
                    assert(tail.contains(rt[k - 1]));
                    let c = choose|c: int| 0 <= c < tail.len() && tail[c] == rt[k - 1];
                    assert(ls[c + 1] == rt[k - 1]);
                } else {
                    assert(r[i] == rt[i - 1]);
                    assert(r[k] == rt[k - 1]);
                }
            }
        } else {
        }
    }
}

impl HardTypedDBAccess {
    /// Prune the archive: remove every request row whose end-time is
    /// at or before `before`, and every log row whose request no
    /// longer has a row. Unresolved requests, and everything ended
    /// later, stay untouched.
    pub fn prune_archived(&mut self, before: u64)
        requires
            journal_wf(old(self)@),
        ensures
            journal_wf(final(self)@),
            final(self)@.requests == keep_requests(old(self)@.requests, before),
            final(self)@.logs == keep_logs(
                old(self)@.logs,
                keep_requests(old(self)@.requests, before),
            ),
            final(self)@.next_log_id == old(self)@.next_log_id,
    {
        let n = self.requests.len();
        let mut kept: Vec<RequestRecord> = Vec::new();
        let mut i: usize = 0;
        proof {
            assert(old(self)@.requests.skip(0) =~= old(self)@.requests);
            assert(kept.deep_view().add(keep_requests(old(self)@.requests, before))
                =~= keep_requests(old(self)@.requests, before));
        }
        while i < n
            invariant
                i <= n,
                n == old(self)@.requests.len(),
                self@ == old(self)@,
                keep_requests(old(self)@.requests, before) =~= kept.deep_view().add(
                    keep_requests(old(self)@.requests.skip(i as int), before),
                ),
            decreases n - i,
        {
            proof {
                let rem = old(self)@.requests.skip(i as int);
                assert(rem[0] == old(self)@.requests[i as int]);
                assert(rem.drop_first() =~= old(self)@.requests.skip(i as int + 1));
            }
            let ended: Option<u64> = self.requests[i].end_time;
            let drop_it: bool = match ended {
                Some(t) => t <= before,
                None => false,
            };
            if !drop_it {
                let ghost dv0 = kept.deep_view();
                let row = duplicate_request_row(&self.requests[i]);
                kept.push(row);
                proof {
                    assert(kept.deep_view() =~= dv0.push(old(self)@.requests[i as int]));
                    assert(dv0.push(old(self)@.requests[i as int]).add(
                        keep_requests(old(self)@.requests.skip(i as int + 1), before),
                    ) =~= dv0.add(seq![old(self)@.requests[i as int]].add(
                        keep_requests(old(self)@.requests.skip(i as int + 1), before),
                    )));
                }
            }
            i += 1;
        }
        proof {
            assert(old(self)@.requests.skip(n as int).len() == 0);
            assert(kept.deep_view().add(
                keep_requests(old(self)@.requests.skip(n as int), before),
            ) =~= kept.deep_view());
        }
        let m = self.logs.len();
        let mut kept_logs: Vec<LogRecord> = Vec::new();
        let mut k: usize = 0;
        proof {
            assert(old(self)@.logs.skip(0) =~= old(self)@.logs);
            assert(kept_logs.deep_view().add(keep_logs(old(self)@.logs, kept.deep_view()))
                =~= keep_logs(old(self)@.logs, kept.deep_view()));
        }
        while k < m
            invariant
                k <= m,
                m == old(self)@.logs.len(),
                self@ == old(self)@,
                kept.deep_view() == keep_requests(old(self)@.requests, before),
                keep_logs(old(self)@.logs, kept.deep_view()) =~= kept_logs.deep_view().add(
                    keep_logs(old(self)@.logs.skip(k as int), kept.deep_view()),
                ),
            decreases m - k,
        {
            proof {
                let rem = old(self)@.logs.skip(k as int);
                assert(rem[0] == old(self)@.logs[k as int]);
                assert(rem.drop_first() =~= old(self)@.logs.skip(k as int + 1));
            }
            if req_row_present(&kept, self.logs[k].request_id) {
                let ghost dv0 = kept_logs.deep_view();
                let row = duplicate_log_row(&self.logs[k]);
                kept_logs.push(row);
                proof {
                    assert(kept_logs.deep_view() =~= dv0.push(old(self)@.logs[k as int]));
                    assert(dv0.push(old(self)@.logs[k as int]).add(
                        keep_logs(old(self)@.logs.skip(k as int + 1), kept.deep_view()),
                    ) =~= dv0.add(seq![old(self)@.logs[k as int]].add(
                        keep_logs(old(self)@.logs.skip(k as int + 1), kept.deep_view()),
                    )));
                }
            }
            k += 1;
        }
        proof {
            assert(old(self)@.logs.skip(m as int).len() == 0);
            assert(kept_logs.deep_view().add(
                keep_logs(old(self)@.logs.skip(m as int), kept.deep_view()),
            ) =~= kept_logs.deep_view());
        }
        self.requests = kept;
        self.logs = kept_logs;
        proof {
            let jr = keep_requests(old(self)@.requests, before);
            let jl = keep_logs(old(self)@.logs, jr);
            lemma_keep_requests(old(self)@.requests, before);
            lemma_keep_requests_wf(old(self)@.requests, before);
            lemma_keep_logs(old(self)@.logs, jr);
            lemma_keep_logs_wf(old(self)@.logs, jr);
            assert(journal_wf(self@)) by {
                assert forall|a: int|
                    0 <= a < jr.len() implies match (#[trigger] jr[a]).end_time {
                    Some(t) => t >= jr[a].start_time,
                    None => true,
                } by {
                    assert(jr.contains(jr[a]));
                    assert(old(self)@.requests.contains(jr[a]));
                    let x = choose|x: int|
                        0 <= x < old(self)@.requests.len() && old(self)@.requests[x] == jr[a];
                }
                assert forall|a: int| 0 <= a < jl.len() implies (#[trigger] jl[a]).id
                    < self@.next_log_id by {
                    assert(jl.contains(jl[a]));
                    assert(old(self)@.logs.contains(jl[a]));
                    let x = choose|x: int|
                        0 <= x < old(self)@.logs.len() && old(self)@.logs[x] == jl[a];
                }
            }
        }
    }
}

/// Whether some kept row bears the request identifier.
fn req_row_present(v: &Vec<RequestRecord>, id: u128) -> (r: bool)
    ensures
        r == req_id_present(v.deep_view(), id),
{
    let n = v.len();
    let mut i: usize = 0;
    while i < n
        invariant
            i <= n,
            n == v.deep_view().len(),
            forall|j: int| 0 <= j < i ==> (#[trigger] v.deep_view()[j]).request_id != id,
        decreases n - i,
    {
        if v[i].request_id == id {
            proof {
                assert(v.deep_view()[i as int].request_id == id);
            }
            return true;
        }
        i += 1;
    }
    false
}

/// A copy of one requests row.
fn duplicate_request_row(r: &RequestRecord) -> (out: RequestRecord)
    ensures
        out@ == r@,
{
    RequestRecord {
        request_id: r.request_id,
        api_version: r.api_version,
        kind: r.kind,
        origin: r.origin.clone(),
        destination: r.destination.clone(),
        payload: r.payload.clone(),
        start_time: r.start_time,
        end_time: r.end_time,
    }
}

/// A copy of one logs row.
fn duplicate_log_row(r: &LogRecord) -> (out: LogRecord)
    ensures
        out@ == r@,
{
    LogRecord {
        id: r.id,
        request_id: r.request_id,
        stream_type: r.stream_type,
        time_stamp: r.time_stamp,
        raw_line: r.raw_line.clone(),
        json_payload: match r.json_payload {
            Some(ref s) => Some(s.clone()),
            None => None,
        },
    }
}

} // verus!
