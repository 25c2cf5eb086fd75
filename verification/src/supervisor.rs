//! Process supervisor state: which children exist, what is known of
//! their exit, which kills have been issued, and each job's output
//! buffer.
//!
//! The operating-system child handles themselves live outside this
//! store; each is designated here by a numeric handle token. The store
//! decides, for every observation handed in, what a caller is told and
//! which handle, if any, must now be killed — and it never hands out
//! the same child for killing twice.

use vstd::prelude::*;

use crate::ids::JobId;
use crate::terminal::LineBuffer;
use crate::textutil::clone_string;

verus! {

/// What is publicly known of a job: running or finished, with the exit
/// code once the child has exited. `Completed(None)` is a child that
/// ended without reporting a code. `Unknown` is a job whose child can
/// no longer be observed; `JobNotListed` one the store does not hold.
#[derive(Clone, Copy, Debug, PartialEq, Eq)]
pub enum JobState {
    Scheduled,
    Submitted,
    Running,
    Completed(Option<i32>),
    Unknown,
    JobNotListed,
}

/// One observation of a child, as the owner of the OS handle reports
/// it: the child has exited with the given code, is still running, or
/// could not be observed at all (a poll error or a poisoned lock).
#[derive(Clone, Copy, Debug, PartialEq, Eq)]
pub enum PollOutcome {
    Exited(Option<i32>),
    StillRunning,
    Failed,
}

/// What the supervisor holds of one child.
#[derive(Clone, Copy, Debug)]
pub struct JobRecord {
    pub id: JobId,
    /// Token under which the caller holds the OS child handle.
    pub handle: u64,
    /// Whether a kill has been issued for this child.
    pub killed: bool,
    /// The exit status, once one has been observed. Never unset.
    pub exit: Option<Option<i32>>,
}

/// The mapping from job identity to child record. Unique keys; the
/// store is the single place that decides which children are killed.
pub struct ProcessStore {
    jobs: Vec<JobRecord>,
}

pub open spec fn unique_records(s: Seq<JobRecord>) -> bool {
    forall|i: int, j: int|
        0 <= i < j < s.len() ==> s[i].id.uuidv4 != s[j].id.uuidv4 && s[i].handle != s[j].handle
}

impl ProcessStore {
    /// The records, in insertion order.
    pub closed spec fn view(self) -> Seq<JobRecord> {
        self.jobs@
    }

    pub open spec fn wf(self) -> bool {
        unique_records(self.view())
    }

    pub open spec fn contains(self, id: JobId) -> bool {
        exists|i: int| 0 <= i < self.view().len() && self.view()[i].id.uuidv4 == id.uuidv4
    }

    pub open spec fn idx_of(self, id: JobId) -> int {
        choose|i: int| 0 <= i < self.view().len() && self.view()[i].id.uuidv4 == id.uuidv4
    }

    pub open spec fn record_of(self, id: JobId) -> JobRecord {
        self.view()[self.idx_of(id)]
    }

    /// An exit has been observed for the job.
    pub open spec fn exit_recorded(self, id: JobId) -> bool {
        self.contains(id) && self.record_of(id).exit is Some
    }

    pub fn new() -> (out: ProcessStore)
        ensures
            out.wf(),
            out.view() == Seq::<JobRecord>::empty(),
    {
        ProcessStore { jobs: Vec::new() }
    }

    /// The position of the record for `id`, if the store holds one.
    fn find(&self, id: &JobId) -> (r: Option<usize>)
        ensures
            match r {
                Some(i) => i < self.view().len() && self.view()[i as int].id.uuidv4 == id.uuidv4,
                None => !self.contains(*id),
            },
    {
        let n = self.jobs.len();
        let mut i: usize = 0;
        while i < n
            invariant
                i <= n,
                n == self.view().len(),
                forall|j: int| 0 <= j < i ==> self.view()[j].id.uuidv4 != id.uuidv4,
            decreases n - i,
        {
            if self.jobs[i].id.uuidv4 == id.uuidv4 {
                return Some(i);
            }
            i += 1;
        }
        None
    }

    /// Register a newly spawned child under a fresh job identity and a
    /// fresh handle token. Nothing is known of its exit and no kill has
    /// been issued.
    pub fn insert(&mut self, key: JobId, handle: u64)
        requires
            old(self).wf(),
            !old(self).contains(key),
            forall|i: int|
                0 <= i < old(self).view().len() ==> old(self).view()[i].handle != handle,
        ensures
            final(self).wf(),
            final(self).view() == old(self).view().push(
                JobRecord { id: key, handle, killed: false, exit: None },
            ),
    {
        self.jobs.push(JobRecord { id: key, handle, killed: false, exit: None });
    }

    /// Look up the record of a job.
    pub fn get(&self, jbd: &JobId) -> (r: Option<&JobRecord>)
        requires
            self.wf(),
        ensures
            match r {
                Some(rec) => self.contains(*jbd) && *rec == self.record_of(*jbd),
                None => !self.contains(*jbd),
            },
    {
        match self.find(jbd) {
            Some(i) => {
                proof {
                    lemma_unique_idx(self.view(), *jbd, i as int);
                }
                Some(&self.jobs[i])
            },
            None => None,
        }
    }

    /// Remove a job from the store, handing its record back; the caller
    /// thereby takes the child's handle out of the supervisor's care.
    pub fn remove(&mut self, jbd: &JobId) -> (r: Option<JobRecord>)
        requires
            old(self).wf(),
        ensures
            final(self).wf(),
            match r {
                Some(rec) => old(self).contains(*jbd) && rec == old(self).record_of(*jbd)
                    && final(self).view() == old(self).view().remove(old(self).idx_of(*jbd)),
                None => !old(self).contains(*jbd) && *final(self) == *old(self),
            },
            !final(self).contains(*jbd),
    {
        match self.find(jbd) {
            Some(i) => {
                proof {
                    lemma_unique_idx(self.view(), *jbd, i as int);
                }
                let rec = self.jobs.remove(i);
                proof {
                    assert(final(self).wf()) by {
                        assert forall|a: int, b: int|
                            0 <= a < b < self.view().len() implies self.view()[a].id.uuidv4
                            != self.view()[b].id.uuidv4 && self.view()[a].handle
                            != self.view()[b].handle by {
                            let va = if a < i as int { a } else { a + 1 };
                            let vb = if b < i as int { b } else { b + 1 };
                            assert(self.view()[a] == old(self).view()[va]);
                            assert(self.view()[b] == old(self).view()[vb]);
                        }
                    }
                    assert(!final(self).contains(*jbd)) by {
                        if final(self).contains(*jbd) {
                            let k = choose|k: int|
                                0 <= k < self.view().len() && self.view()[k].id.uuidv4
                                    == jbd.uuidv4;
                            let vk = if k < i as int { k } else { k + 1 };
                            assert(self.view()[k] == old(self).view()[vk]);
                        }
                    }
                }
                Some(rec)
            },
            None => None,
        }
    }

    /// Answer a state query from one observation of the child. An exit,
    /// once observed, is remembered: later observations can never make
    /// the job look running again.
    pub fn poll_state(&mut self, id: &JobId, seen: PollOutcome) -> (st: JobState)
        requires
            old(self).wf(),
        ensures
            final(self).wf(),
            st == spec_poll(*old(self), *id, seen),
            final(self).view().len() == old(self).view().len(),
            forall|i: int|
                0 <= i < old(self).view().len() ==> {
                    let r0 = old(self).view()[i];
                    let r1 = #[trigger] final(self).view()[i];
                    r1.id == r0.id && r1.handle == r0.handle && r1.killed == r0.killed && (
                    r0.exit is Some ==> r1.exit == r0.exit)
                },
            old(self).exit_recorded(*id) ==> *final(self) == *old(self),
            !(st is Running) ==> (final(self).contains(*id) ==> !(final(self).record_of(
                *id,
            ).exit is None) ==> st == JobState::Completed(
                final(self).record_of(*id).exit.unwrap(),
            )),
            st is Running ==> !old(self).exit_recorded(*id),
    {
        match self.find(id) {
            Some(i) => {
                proof {
                    lemma_unique_idx(self.view(), *id, i as int);
                }
                let rec = self.jobs[i];
                match rec.exit {
                    Some(code) => JobState::Completed(code),
                    None => {
                        match seen {
                            PollOutcome::Exited(code) => {
                                set_exit(&mut self.jobs, i, code);
                                proof {
                                    assert(final(self).wf());
                                    lemma_unique_idx(self.view(), *id, i as int);
                                }
                                JobState::Completed(code)
                            },
                            PollOutcome::StillRunning => JobState::Running,
                            PollOutcome::Failed => JobState::Unknown,
                        }
                    },
                }
            },
            None => JobState::JobNotListed,
        }
    }

    /// Ask that a child be killed. The first request for a live job
    /// yields its handle, and the caller must kill that child; any
    /// further request for the same job yields nothing, so no child is
    /// ever handed out for killing twice. The job stays in the store,
    /// so its output and exit code remain readable.
    pub fn kill(&mut self, id: &JobId) -> (h: Option<u64>)
        requires
            old(self).wf(),
        ensures
            final(self).wf(),
            h == spec_kill_handle(*old(self), *id),
            old(self).contains(*id) ==> final(self).view() == old(self).view().update(
                old(self).idx_of(*id),
                JobRecord { killed: true, ..old(self).record_of(*id) },
            ),
            !old(self).contains(*id) ==> *final(self) == *old(self),
            final(self).contains(*id) == old(self).contains(*id),
    {
        match self.find(id) {
            Some(i) => {
                proof {
                    lemma_unique_idx(self.view(), *id, i as int);
                }
                let was_killed = self.jobs[i].killed;
                let handle = self.jobs[i].handle;
                set_killed(&mut self.jobs, i);
                proof {
                    assert(final(self).wf());
                    assert(final(self).contains(*id)) by {
                        assert(final(self).view()[i as int].id.uuidv4 == id.uuidv4);
                    }
                }
                if was_killed {
                    None
                } else {
                    Some(handle)
                }
            },
            None => None,
        }
    }

    /// Teardown: hand back, exactly once each, the handle of every
    /// child for which no kill has been issued yet, and mark every
    /// record killed. A second teardown therefore yields nothing, and
    /// no child outlives the store's care unkilled.
    pub fn shutdown(&mut self) -> (hs: Vec<u64>)
        requires
            old(self).wf(),
        ensures
            final(self).wf(),
            hs@ == unkilled_handles(old(self).view()),
            final(self).view().len() == old(self).view().len(),
            forall|i: int|
                0 <= i < old(self).view().len() ==> final(self).view()[i] == (JobRecord {
                    killed: true,
                    ..old(self).view()[i]
                }),
    {
        let n = self.jobs.len();
        let mut hs: Vec<u64> = Vec::new();
        let mut i: usize = 0;
        while i < n
            invariant
                i <= n,
                n == old(self).view().len(),
                self.view().len() == n,
                forall|j: int|
                    0 <= j < i ==> self.view()[j] == (JobRecord {
                        killed: true,
                        ..old(self).view()[j]
                    }),
                forall|j: int| i <= j < n ==> self.view()[j] == old(self).view()[j],
                hs@ =~= unkilled_handles(old(self).view().subrange(0, i as int)),
            decreases n - i,
        {
            proof {
                assert(old(self).view().subrange(0, i as int).push(old(self).view()[i as int])
                    =~= old(self).view().subrange(0, i as int + 1));
                lemma_unkilled_handles_push(
                    old(self).view().subrange(0, i as int),
                    old(self).view()[i as int],
                );
            }
            if !self.jobs[i].killed {
                let h = self.jobs[i].handle;
                hs.push(h);
            }
            set_killed(&mut self.jobs, i);
            i += 1;
        }
        proof {
            assert(old(self).view().subrange(0, n as int) =~= old(self).view());
            assert(self.wf()) by {
                assert forall|a: int, b: int|
                    0 <= a < b < self.view().len() implies self.view()[a].id.uuidv4
                    != self.view()[b].id.uuidv4 && self.view()[a].handle
                    != self.view()[b].handle by {
                    assert(self.view()[a] == (JobRecord { killed: true, ..old(self).view()[a] }));
                    assert(self.view()[b] == (JobRecord { killed: true, ..old(self).view()[b] }));
                }
            }
        }
        hs
    }
}

/// What a state query answers, given the store, the job and the
/// observation: a job the store does not hold is `JobNotListed`; a job
/// whose exit is on record is `Completed` with that code, whatever the
/// observation says; otherwise the observation decides — an exit
/// completes the job, a live child is `Running`, and a child that
/// could not be observed is `Unknown`.
pub open spec fn spec_poll(s: ProcessStore, id: JobId, seen: PollOutcome) -> JobState {
    if !s.contains(id) {
        JobState::JobNotListed
    } else if s.record_of(id).exit is Some {
        JobState::Completed(s.record_of(id).exit.unwrap())
    } else {
        match seen {
            PollOutcome::Exited(code) => JobState::Completed(code),
            PollOutcome::StillRunning => JobState::Running,
            PollOutcome::Failed => JobState::Unknown,
        }
    }
}

/// Which handle a kill request hands out: the job's handle the first
/// time, nothing after that, nothing for an unknown job.
pub open spec fn spec_kill_handle(s: ProcessStore, id: JobId) -> Option<u64> {
    if s.contains(id) && !s.record_of(id).killed {
        Some(s.record_of(id).handle)
    } else {
        None
    }
}

/// The handles of the records for which no kill has been issued, in
/// store order.
pub open spec fn unkilled_handles(s: Seq<JobRecord>) -> Seq<u64>
    decreases s.len(),
{
    if s.len() == 0 {
        Seq::empty()
    } else {
        let rest = unkilled_handles(s.drop_last());
        if s.last().killed {
            rest
        } else {
            rest.push(s.last().handle)
        }
    }
}

proof fn lemma_unkilled_handles_push(s: Seq<JobRecord>, r: JobRecord)
    ensures
        unkilled_handles(s.push(r)) == if r.killed {
            unkilled_handles(s)
        } else {
            unkilled_handles(s).push(r.handle)
        },
{
    assert(s.push(r).drop_last() =~= s);
    assert(s.push(r).last() == r);
}

/// In a store with unique identities, any record bearing the job's
/// identity stands at the one found index.
proof fn lemma_unique_idx(s: Seq<JobRecord>, id: JobId, i: int)
    requires
        unique_records(s),
        0 <= i < s.len(),
        s[i].id.uuidv4 == id.uuidv4,
    ensures
        (exists|j: int| 0 <= j < s.len() && s[j].id.uuidv4 == id.uuidv4),
        (choose|j: int| 0 <= j < s.len() && s[j].id.uuidv4 == id.uuidv4) == i,
{
    let j = choose|j: int| 0 <= j < s.len() && s[j].id.uuidv4 == id.uuidv4;
    if j != i {
        if j < i {
            assert(s[j].id.uuidv4 != s[i].id.uuidv4);
        } else {
            assert(s[i].id.uuidv4 != s[j].id.uuidv4);
        }
    }
}

/// Set the exit record of one entry.
fn set_exit(v: &mut Vec<JobRecord>, i: usize, code: Option<i32>)
    requires
        i < old(v)@.len(),
    ensures
        final(v)@ == old(v)@.update(
            i as int,
            JobRecord { exit: Some(code), ..old(v)@[i as int] },
        ),
{
    let rec = v[i];
    v.set(i, JobRecord { exit: Some(code), ..rec });
}

/// Mark one entry killed.
fn set_killed(v: &mut Vec<JobRecord>, i: usize)
    requires
        i < old(v)@.len(),
    ensures
        final(v)@ == old(v)@.update(i as int, JobRecord { killed: true, ..old(v)@[i as int] }),
{
    let rec = v[i];
    v.set(i, JobRecord { killed: true, ..rec });
}

// ---------------------------------------------------------------------
// Laws of the supervisor
// ---------------------------------------------------------------------

/// Once an exit is on record for a job — as it is after any poll that
/// observed the exit — no observation whatever can make a state query
/// answer `Running` again: the answer is the recorded completion.
pub proof fn lemma_no_running_after_exit(s: ProcessStore, id: JobId)
    requires
        s.wf(),
        s.exit_recorded(id),
    ensures
        forall|seen: PollOutcome|
            #[trigger] spec_poll(s, id, seen) == JobState::Completed(s.record_of(id).exit.unwrap()),
{
}

/// A job the store does not hold — as after its removal — answers
/// `JobNotListed` to every state query.
pub proof fn lemma_not_listed(s: ProcessStore, id: JobId)
    requires
        s.wf(),
        !s.contains(id),
    ensures
        forall|seen: PollOutcome| #[trigger] spec_poll(s, id, seen) == JobState::JobNotListed,
{
}

/// Teardown kills every child exactly once: every record unkilled
/// before stands exactly once among the handed-out handles, every
/// record killed before is absent from them, and a second teardown of
/// the resulting store hands out no handle at all.
pub proof fn lemma_teardown_kills_each_once(s: Seq<JobRecord>)
    requires
        unique_records(s),
    ensures
        forall|i: int|
            0 <= i < s.len() && !s[i].killed ==> count_of(unkilled_handles(s), s[i].handle) == 1,
        forall|i: int|
            0 <= i < s.len() && s[i].killed ==> count_of(unkilled_handles(s), s[i].handle) == 0,
        unkilled_handles(s.map_values(|r: JobRecord| JobRecord { killed: true, ..r }))
            == Seq::<u64>::empty(),
    decreases s.len(),
{
    if s.len() == 0 {
        assert(s.map_values(|r: JobRecord| JobRecord { killed: true, ..r }) =~= Seq::<
            JobRecord,
        >::empty());
    } else {
        let pre = s.drop_last();
        lemma_teardown_kills_each_once(pre);
        assert forall|i: int| 0 <= i < s.len() implies (!s[i].killed ==> count_of(
            unkilled_handles(s),
            s[i].handle,
        ) == 1) && (s[i].killed ==> count_of(unkilled_handles(s), s[i].handle) == 0) by {
            lemma_count_push(unkilled_handles(pre), s.last().handle, s[i].handle);
            if i < s.len() - 1 {
                assert(pre[i] == s[i]);
                lemma_unkilled_count_bound(pre, s[i].handle);
                assert(s[i].handle != s.last().handle);
            } else {
                lemma_unkilled_absent(pre, s[i].handle);
            }
        }
        assert(s.map_values(|r: JobRecord| JobRecord { killed: true, ..r }).drop_last() =~= pre
            .map_values(|r: JobRecord| JobRecord { killed: true, ..r }));
        assert(s.map_values(|r: JobRecord| JobRecord { killed: true, ..r }).last().killed);
    }
}

/// A handle borne by no record occurs nowhere among the unkilled
/// handles.
proof fn lemma_unkilled_absent(s: Seq<JobRecord>, h: u64)
    requires
        forall|i: int| 0 <= i < s.len() ==> s[i].handle != h,
    ensures
        count_of(unkilled_handles(s), h) == 0,
    decreases s.len(),
{
    if s.len() > 0 {
        lemma_unkilled_absent(s.drop_last(), h);
        if !s.last().killed {
            lemma_count_push(unkilled_handles(s.drop_last()), s.last().handle, h);
        }
    }
}

/// Among records with unique handles, a handle occurs among the
/// unkilled handles at most once.
proof fn lemma_unkilled_count_bound(s: Seq<JobRecord>, h: u64)
    requires
        unique_records(s),
    ensures
        count_of(unkilled_handles(s), h) <= 1,
    decreases s.len(),
{
    if s.len() > 0 {
        let pre = s.drop_last();
        lemma_unkilled_count_bound(pre, h);
        if !s.last().killed {
            lemma_count_push(unkilled_handles(pre), s.last().handle, h);
            if s.last().handle == h {
                lemma_unkilled_absent(pre, h);
            }
        }
    }
}

/// How often a handle occurs in a handle sequence.
pub open spec fn count_of(s: Seq<u64>, h: u64) -> int
    decreases s.len(),
{
    if s.len() == 0 {
        0
    } else {
        count_of(s.drop_last(), h) + if s.last() == h {
            1int
        } else {
            0int
        }
    }
}

proof fn lemma_count_push(s: Seq<u64>, x: u64, y: u64)
    ensures
        count_of(s.push(x), y) == count_of(s, y) + if x == y {
            1int
        } else {
            0int
        },
{
    assert(s.push(x).drop_last() =~= s);
    assert(s.push(x).last() == x);
}


// ---------------------------------------------------------------------
// Job output store
// ---------------------------------------------------------------------

/// The mapping from job identity to that job's line buffer. Unique
/// keys. Readers see monotonic growth of the frozen lines; only the
/// trailing line mutates in place.
pub struct JobOutputStore {
    entries: Vec<(JobId, LineBuffer)>,
}

impl JobOutputStore {
    pub closed spec fn view(self) -> Seq<(JobId, LineBuffer)> {
        self.entries@
    }

    pub open spec fn wf(self) -> bool {
        &&& (forall|i: int, j: int|
            0 <= i < j < self.view().len() ==> self.view()[i].0.uuidv4 != self.view()[j].0.uuidv4)
        &&& (forall|i: int| 0 <= i < self.view().len() ==> (#[trigger] self.view()[i].1).wf())
    }

    pub open spec fn contains(self, id: JobId) -> bool {
        exists|i: int| 0 <= i < self.view().len() && self.view()[i].0.uuidv4 == id.uuidv4
    }

    pub open spec fn idx_of(self, id: JobId) -> int {
        choose|i: int| 0 <= i < self.view().len() && self.view()[i].0.uuidv4 == id.uuidv4
    }

    /// The bytes fed so far to the job's buffer.
    pub open spec fn bytes_of(self, id: JobId) -> Seq<u8> {
        self.view()[self.idx_of(id)].1.bytes_fed()
    }

    /// The visible lines of the job's buffer.
    pub open spec fn lines_of(self, id: JobId) -> Seq<Seq<char>> {
        self.view()[self.idx_of(id)].1.lines()
    }

    pub fn new() -> (out: JobOutputStore)
        ensures
            out.wf(),
            out.view() == Seq::<(JobId, LineBuffer)>::empty(),
    {
        JobOutputStore { entries: Vec::new() }
    }

    fn find(&self, id: &JobId) -> (r: Option<usize>)
        ensures
            match r {
                Some(i) => i < self.view().len() && self.view()[i as int].0.uuidv4 == id.uuidv4,
                None => !self.contains(*id),
            },
    {
        let n = self.entries.len();
        let mut i: usize = 0;
        while i < n
            invariant
                i <= n,
                n == self.view().len(),
                forall|j: int| 0 <= j < i ==> self.view()[j].0.uuidv4 != id.uuidv4,
            decreases n - i,
        {
            if self.entries[i].0.uuidv4 == id.uuidv4 {
                return Some(i);
            }
            i += 1;
        }
        None
    }

    /// Make sure the job has a buffer: create an empty one if none is
    /// there yet, keep the existing one untouched otherwise.
    pub fn create(&mut self, id: JobId)
        requires
            old(self).wf(),
        ensures
            final(self).wf(),
            final(self).contains(id),
            old(self).contains(id) ==> *final(self) == *old(self),
            !old(self).contains(id) ==> {
                &&& final(self).view().len() == old(self).view().len() + 1
                &&& (forall|i: int|
                    0 <= i < old(self).view().len() ==> final(self).view()[i] == old(self).view()[i])
                &&& final(self).view().last().0 == id
                &&& final(self).view().last().1.bytes_fed() == Seq::<u8>::empty()
            },
    {
        match self.find(&id) {
            Some(_) => {},
            None => {
                let buf = LineBuffer::new();
                self.entries.push((id, buf));
                proof {
                    assert(final(self).contains(id)) by {
                        assert(self.view().last().0.uuidv4 == id.uuidv4);
                    }
                }
            },
        }
    }

    /// Feed one chunk of a child's output into its buffer. Tells the
    /// caller whether the job had a buffer; the bytes of every other
    /// job stay as they were.
    pub fn feed(&mut self, id: &JobId, chunk: &[u8]) -> (found: bool)
        requires
            old(self).wf(),
        ensures
            final(self).wf(),
            found == old(self).contains(*id),
            !found ==> *final(self) == *old(self),
            found ==> {
                &&& final(self).view().len() == old(self).view().len()
                &&& (forall|i: int|
                    0 <= i < old(self).view().len() && i != old(self).idx_of(*id)
                        ==> final(self).view()[i] == old(self).view()[i])
                &&& final(self).view()[old(self).idx_of(*id)].0 == old(self).view()[old(self).idx_of(*id)].0
                &&& final(self).bytes_of(*id) == old(self).bytes_of(*id).add(chunk@)
            },
    {
        match self.find(id) {
            Some(i) => {
                proof {
                    lemma_output_unique_idx(self.view(), *id, i as int);
                }
                let buf = entry_buffer_mut(&mut self.entries, i);
                buf.feed(chunk);
                proof {
                    lemma_output_unique_idx(self.view(), *id, i as int);
                }
                true
            },
            None => false,
        }
    }

    /// The lines of the job's buffer at indices at or past `offset`:
    /// exactly `lines[offset..]` at the moment of the call, or nothing
    /// for a job without a buffer.
    pub fn read_lines(&self, id: &JobId, offset: usize) -> (out: Option<Vec<String>>)
        requires
            self.wf(),
        ensures
            out is Some <==> self.contains(*id),
            self.contains(*id) ==> {
                let lines = self.lines_of(*id);
                &&& (offset <= lines.len() ==> out.unwrap().deep_view() == lines.skip(
                    offset as int,
                ))
                &&& (offset > lines.len() ==> out.unwrap().deep_view() == Seq::<
                    Seq<char>,
                >::empty())
            },
    {
        match self.find(id) {
            Some(i) => {
                proof {
                    lemma_output_unique_idx(self.view(), *id, i as int);
                }
                Some(self.entries[i].1.read_lines(offset))
            },
            None => None,
        }
    }
}

pub(crate) proof fn lemma_output_unique_idx(s: Seq<(JobId, LineBuffer)>, id: JobId, i: int)
    requires
        forall|a: int, b: int| 0 <= a < b < s.len() ==> s[a].0.uuidv4 != s[b].0.uuidv4,
        0 <= i < s.len(),
        s[i].0.uuidv4 == id.uuidv4,
    ensures
        (exists|j: int| 0 <= j < s.len() && s[j].0.uuidv4 == id.uuidv4),
        (choose|j: int| 0 <= j < s.len() && s[j].0.uuidv4 == id.uuidv4) == i,
{
    let j = choose|j: int| 0 <= j < s.len() && s[j].0.uuidv4 == id.uuidv4;
    if j != i {
        if j < i {
            assert(s[j].0.uuidv4 != s[i].0.uuidv4);
        } else {
            assert(s[i].0.uuidv4 != s[j].0.uuidv4);
        }
    }
}

/// A mutable borrow of one entry's buffer.
fn entry_buffer_mut(v: &mut Vec<(JobId, LineBuffer)>, i: usize) -> (b: &mut LineBuffer)
    requires
        i < old(v)@.len(),
    ensures
        *b == old(v)@[i as int].1,
        final(v)@ == old(v)@.update(i as int, (old(v)@[i as int].0, *final(b))),
{
    &mut v[i].1
}

// ---------------------------------------------------------------------
// Container job index
// ---------------------------------------------------------------------

/// The mapping from container path to the jobs that ran that
/// container, in launch order. A pure index: it holds identities only,
/// never jobs.
pub struct ContainerJobStore {
    entries: Vec<(String, Vec<JobId>)>,
}

impl ContainerJobStore {
    pub closed spec fn view(self) -> Seq<(String, Vec<JobId>)> {
        self.entries@
    }

    pub open spec fn wf(self) -> bool {
        forall|i: int, j: int| 0 <= i < j < self.view().len() ==> self.view()[i].0@ != self.view()[j].0@
    }

    pub open spec fn contains(self, path: Seq<char>) -> bool {
        exists|i: int| 0 <= i < self.view().len() && self.view()[i].0@ == path
    }

    pub open spec fn idx_of(self, path: Seq<char>) -> int {
        choose|i: int| 0 <= i < self.view().len() && self.view()[i].0@ == path
    }

    /// The jobs recorded for the container, in launch order.
    pub open spec fn jobs_of(self, path: Seq<char>) -> Seq<JobId> {
        self.view()[self.idx_of(path)].1@
    }

    pub fn new() -> (out: ContainerJobStore)
        ensures
            out.wf(),
            out.view() == Seq::<(String, Vec<JobId>)>::empty(),
    {
        ContainerJobStore { entries: Vec::new() }
    }

    fn find(&self, path: &String) -> (r: Option<usize>)
        ensures
            match r {
                Some(i) => i < self.view().len() && self.view()[i as int].0@ == path@,
                None => !self.contains(path@),
            },
    {
        let n = self.entries.len();
        let mut i: usize = 0;
        while i < n
            invariant
                i <= n,
                n == self.view().len(),
                forall|j: int| 0 <= j < i ==> self.view()[j].0@ != path@,
            decreases n - i,
        {
            if self.entries[i].0.eq(path) {
                return Some(i);
            }
            i += 1;
        }
        None
    }

    /// Record that a job ran the container: append its identity to the
    /// container's list, creating the list on first use.
    pub fn link(&mut self, path: &String, id: JobId)
        requires
            old(self).wf(),
        ensures
            final(self).wf(),
            final(self).contains(path@),
            final(self).jobs_of(path@) == if old(self).contains(path@) {
                old(self).jobs_of(path@).push(id)
            } else {
                seq![id]
            },
            forall|q: Seq<char>|
                q != path@ ==> #[trigger] final(self).contains(q) == old(self).contains(q),
            forall|q: Seq<char>|
                q != path@ && old(self).contains(q) ==> #[trigger] final(self).jobs_of(q) == old(self).jobs_of(q),
    {
        let ghost pre = self.view();
        match self.find(path) {
            Some(i) => {
                proof {
                    lemma_container_unique_idx(self.view(), path@, i as int);
                }
                let ids = entry_jobs_mut(&mut self.entries, i);
                ids.push(id);
                proof {
                    lemma_container_unique_idx(self.view(), path@, i as int);
                    assert forall|q: Seq<char>|
                        q != path@ implies #[trigger] self.contains(q) == old(self).contains(
                        q,
                    ) by {
                        lemma_same_keys(pre, self.view(), q);
                    }
                    assert forall|q: Seq<char>|
                        q != path@ && old(self).contains(q) implies #[trigger] self.jobs_of(q)
                        == old(self).jobs_of(q) by {
                        let k = old(self).idx_of(q);
                        lemma_container_unique_idx(pre, q, k);
                        lemma_container_unique_idx(self.view(), q, k);
                    }
                }
            },
            None => {
                let mut ids: Vec<JobId> = Vec::new();
                ids.push(id);
                let key = clone_string(path);
                self.entries.push((key, ids));
                proof {
                    let n = pre.len() as int;
                    assert(self.view()[n].0@ == path@);
                    assert(self.wf()) by {
                        assert forall|a: int, b: int|
                            0 <= a < b < self.view().len() implies self.view()[a].0@
                            != self.view()[b].0@ by {
                            if b < n {
                                assert(pre[a].0@ != pre[b].0@);
                            } else {
                                assert(self.view()[b].0@ == path@);
                                if self.view()[a].0@ == path@ {
                                    assert(old(self).contains(path@));
                                }
                            }
                        }
                    }
                    lemma_container_unique_idx(self.view(), path@, n);
                    assert(self.jobs_of(path@) =~= seq![id]);
                    assert forall|q: Seq<char>|
                        q != path@ implies #[trigger] self.contains(q) == old(self).contains(
                        q,
                    ) by {
                        if self.contains(q) {
                            let k = self.idx_of(q);
                            assert(0 <= k < self.view().len() && self.view()[k].0@ == q);
                            assert(k < n);
                        }
                        if old(self).contains(q) {
                            let k = old(self).idx_of(q);
                            assert(self.view()[k].0@ == q);
                        }
                    }
                    assert forall|q: Seq<char>|
                        q != path@ && old(self).contains(q) implies #[trigger] self.jobs_of(q)
                        == old(self).jobs_of(q) by {
                        let k = old(self).idx_of(q);
                        lemma_container_unique_idx(pre, q, k);
                        lemma_container_unique_idx(self.view(), q, k);
                    }
                }
            },
        }
    }

    /// The jobs that ran the container, in launch order; nothing for a
    /// container never seen.
    pub fn jobs_for(&self, path: &String) -> (out: Option<&Vec<JobId>>)
        requires
            self.wf(),
        ensures
            out is Some <==> self.contains(path@),
            self.contains(path@) ==> out.unwrap()@ == self.jobs_of(path@),
    {
        match self.find(path) {
            Some(i) => {
                proof {
                    lemma_container_unique_idx(self.view(), path@, i as int);
                }
                Some(&self.entries[i].1)
            },
            None => None,
        }
    }
}

proof fn lemma_container_unique_idx(s: Seq<(String, Vec<JobId>)>, path: Seq<char>, i: int)
    requires
        forall|a: int, b: int| 0 <= a < b < s.len() ==> s[a].0@ != s[b].0@,
        0 <= i < s.len(),
        s[i].0@ == path,
    ensures
        (exists|j: int| 0 <= j < s.len() && s[j].0@ == path),
        (choose|j: int| 0 <= j < s.len() && s[j].0@ == path) == i,
{
    let j = choose|j: int| 0 <= j < s.len() && s[j].0@ == path;
    if j != i {
        if j < i {
            assert(s[j].0@ != s[i].0@);
        } else {
            assert(s[i].0@ != s[j].0@);
        }
    }
}

/// Two entry sequences of equal length and pairwise equal keys hold
/// the same keys.
proof fn lemma_same_keys(
    s1: Seq<(String, Vec<JobId>)>,
    s2: Seq<(String, Vec<JobId>)>,
    q: Seq<char>,
)
    requires
        s1.len() == s2.len(),
        forall|i: int| 0 <= i < s1.len() ==> s1[i].0@ == #[trigger] s2[i].0@,
    ensures
        (exists|i: int| 0 <= i < s1.len() && s1[i].0@ == q) == (exists|i: int|
            0 <= i < s2.len() && s2[i].0@ == q),
{
    if exists|i: int| 0 <= i < s1.len() && s1[i].0@ == q {
        let i = choose|i: int| 0 <= i < s1.len() && s1[i].0@ == q;
        assert(s2[i].0@ == q);
    }
    if exists|i: int| 0 <= i < s2.len() && s2[i].0@ == q {
        let i = choose|i: int| 0 <= i < s2.len() && s2[i].0@ == q;
        assert(s1[i].0@ == q);
    }
}

/// A mutable borrow of one entry's job list.
fn entry_jobs_mut(v: &mut Vec<(String, Vec<JobId>)>, i: usize) -> (ids: &mut Vec<JobId>)
    requires
        i < old(v)@.len(),
    ensures
        *ids == old(v)@[i as int].1,
        final(v)@ == old(v)@.update(i as int, (old(v)@[i as int].0, *final(ids))),
{
    &mut v[i].1
}

} // verus!
