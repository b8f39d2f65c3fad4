//! The build job supervisor: a table of build jobs, each with a status and an
//! append-only log buffer. Callers start jobs, poll their status (feeding in
//! the outcome of a non-blocking exit check), fetch log lines from a cursor,
//! and cancel running jobs. The surrounding application owns the subprocess
//! handles and the output-pump threads; every decision about job state lives
//! here.
use vstd::prelude::*;
use vstd::string::StringExecFns;

verus! {

/// The lifecycle state of one build job. A job starts `Running`; the three
/// other states are terminal and absorbing.
#[derive(PartialEq, Eq, Structural, Clone, Copy, Debug)]
pub enum Status {
    Running,
    Success,
    Error,
    Cancelled,
}

pub open spec fn is_terminal(s: Status) -> bool {
    s != Status::Running
}

/// The outcome of one non-blocking exit check on a job's subprocess, as the
/// application observed it. `Exited` carries the exit code (if the platform
/// reported one) and whether the exit counts as success; `CheckFailed` carries
/// the message of the error that the check itself produced.
pub enum ExitCheck {
    Exited { code: Option<i32>, success: bool },
    CheckFailed(String),
}

/// A snapshot of one job's status, as handed to callers.
#[derive(Debug, Clone)]
pub struct BuildStatus {
    pub status: String,
    pub code: Option<i32>,
    pub error: Option<String>,
    pub started_at: Option<String>,
    pub finished_at: Option<String>,
}

/// The reply to a log fetch: the lines at index `>= from`, the cursor to pass
/// next time, and whether the job had left the `Running` state when asked.
#[derive(Debug, Clone)]
pub struct BuildLogsResponse {
    pub lines: Vec<String>,
    pub next_index: usize,
    pub finished: bool,
}

/// The mathematical model of one job record.
pub ghost struct JobModel {
    pub status: Status,
    pub code: Option<i32>,
    pub error: Option<Seq<char>>,
    pub started_at: Option<Seq<char>>,
    pub finished_at: Option<Seq<char>>,
    pub logs: Seq<Seq<char>>,
}

pub open spec fn opt_view(o: Option<String>) -> Option<Seq<char>> {
    match o {
        Some(s) => Some(s@),
        None => None,
    }
}

/// One job record: the job identifier, its status fields, and its log buffer.
pub struct JobRecord {
    pub id: String,
    pub status: Status,
    pub code: Option<i32>,
    pub error: Option<String>,
    pub started_at: Option<String>,
    pub finished_at: Option<String>,
    pub logs: Vec<String>,
}

impl JobRecord {
    pub open spec fn model(self) -> JobModel {
        JobModel {
            status: self.status,
            code: self.code,
            error: opt_view(self.error),
            started_at: opt_view(self.started_at),
            finished_at: opt_view(self.finished_at),
            logs: self.logs.deep_view(),
        }
    }
}

/// Every job record is internally consistent: a timestamp marks the start,
/// the finish timestamp is present exactly on the terminal states, a failed
/// job carries a message, and a job still running carries neither an exit
/// code nor an error.
pub open spec fn job_wf(m: JobModel) -> bool {
    &&& (m.finished_at is Some <==> is_terminal(m.status))
    &&& m.started_at is Some
    &&& (m.status == Status::Error ==> m.error is Some)
    &&& (m.status == Status::Running ==> m.code is None && m.error is None)
}

pub open spec fn status_name(s: Status) -> Seq<char> {
    match s {
        Status::Running => "running"@,
        Status::Success => "success"@,
        Status::Error => "error"@,
        Status::Cancelled => "cancelled"@,
    }
}

/// The snapshot `b` renders the model `m` field for field.
pub open spec fn snapshot_matches(m: JobModel, b: BuildStatus) -> bool {
    &&& b.status@ == status_name(m.status)
    &&& b.code == m.code
    &&& opt_view(b.error) == m.error
    &&& opt_view(b.started_at) == m.started_at
    &&& opt_view(b.finished_at) == m.finished_at
}

/// The decimal digits of `n` (with no sign), most significant first.
pub open spec fn spec_nat_digits(n: int) -> Seq<char>
    decreases n,
{
    if n < 10 {
        seq![digit_char(n)]
    } else {
        spec_nat_digits(n / 10) + seq![digit_char(n % 10)]
    }
}

pub open spec fn digit_char(d: int) -> char {
    if d == 0 { '0' }
    else if d == 1 { '1' }
    else if d == 2 { '2' }
    else if d == 3 { '3' }
    else if d == 4 { '4' }
    else if d == 5 { '5' }
    else if d == 6 { '6' }
    else if d == 7 { '7' }
    else if d == 8 { '8' }
    else { '9' }
}

pub open spec fn spec_i32_digits(n: int) -> Seq<char> {
    if n < 0 {
        seq!['-'] + spec_nat_digits(-n)
    } else {
        spec_nat_digits(n)
    }
}

/// How an optional exit code is rendered inside the error message.
pub open spec fn opt_code_text(code: Option<i32>) -> Seq<char> {
    match code {
        Some(c) => "Some("@ + spec_i32_digits(c as int) + ")"@,
        None => "None"@,
    }
}

pub open spec fn exit_error_message(code: Option<i32>) -> Seq<char> {
    "Process exited with code "@ + opt_code_text(code)
}

pub open spec fn check_failed_message(detail: Seq<char>) -> Seq<char> {
    "Failed to check process: "@ + detail
}

/// What one poll does to a job's model, given the outcome of the exit check
/// (`None` when no exit was observed) and the timestamp `now`. A job that is
/// not running any more is left exactly as it is.
pub open spec fn poll_transition(m: JobModel, check: Option<ExitCheck>, now: Seq<char>) -> JobModel {
    if m.status != Status::Running {
        m
    } else {
        match check {
            None => m,
            Some(ExitCheck::Exited { code, success }) => {
                if success {
                    (JobModel { status: Status::Success, code, finished_at: Some(now), ..m })
                } else {
                    (JobModel {
                        status: Status::Error,
                        code,
                        error: Some(exit_error_message(code)),
                        finished_at: Some(now),
                        ..m
                    })
                }
            },
            Some(ExitCheck::CheckFailed(msg)) => {
                (JobModel {
                    status: Status::Error,
                    error: Some(check_failed_message(msg@)),
                    finished_at: Some(now),
                    ..m
                })
            },
        }
    }
}

/// What cancelling a running job does to its model at timestamp `now`.
pub open spec fn cancel_transition(m: JobModel, now: Seq<char>) -> JobModel {
    JobModel { status: Status::Cancelled, finished_at: Some(now), ..m }
}

/// The lines of `logs` at index `>= cursor`; a cursor past the end reads as
/// an empty reply, never as an error.
pub open spec fn spec_read_from(logs: Seq<Seq<char>>, cursor: int) -> Seq<Seq<char>> {
    if 0 <= cursor <= logs.len() {
        logs.subrange(cursor, logs.len() as int)
    } else {
        Seq::empty()
    }
}

/// The job table: the single owner of all job records. The application wraps
/// one `Supervisor` in its own mutual exclusion and calls in from any thread.
pub struct Supervisor {
    jobs: Vec<JobRecord>,
}

impl Supervisor {
    /// There is a record whose identifier reads as `id`.
    pub closed spec fn has_job(self, id: Seq<char>) -> bool {
        exists|i: int| 0 <= i < self.jobs@.len() && self.jobs@[i].id@ == id
    }

    pub closed spec fn index_of(self, id: Seq<char>) -> int {
        choose|i: int| 0 <= i < self.jobs@.len() && self.jobs@[i].id@ == id
    }

    /// The model of the record whose identifier reads as `id`.
    pub closed spec fn job(self, id: Seq<char>) -> JobModel {
        self.jobs@[self.index_of(id)].model()
    }

    /// Job identifiers are distinct, and every record is internally
    /// consistent (`job_wf`, which carries the finished-iff-terminal
    /// invariant).
    pub closed spec fn wf(self) -> bool {
        &&& (forall|i: int, j: int|
            0 <= i < j < self.jobs@.len() ==> self.jobs@[i].id@ != self.jobs@[j].id@)
        &&& (forall|i: int| 0 <= i < self.jobs@.len() ==> job_wf(#[trigger] self.jobs@[i].model()))
    }

    pub fn new() -> (s: Supervisor)
        ensures
            s.wf(),
            forall|k: Seq<char>| !s.has_job(k),
    {
        Supervisor { jobs: Vec::new() }
    }

    proof fn lemma_job_at(self, i: int)
        requires
            self.wf(),
            0 <= i < self.jobs@.len(),
        ensures
            self.has_job(self.jobs@[i].id@),
            self.index_of(self.jobs@[i].id@) == i,
            self.job(self.jobs@[i].id@) == self.jobs@[i].model(),
    {
        assert(self.has_job(self.jobs@[i].id@));
        let j = self.index_of(self.jobs@[i].id@);
        assert(0 <= j < self.jobs@.len() && self.jobs@[j].id@ == self.jobs@[i].id@);
        if i != j {
            assert(false);
        }
    }

    /// For every job in the table, the finish timestamp is present if and
    /// only if the job's status is terminal.
    pub proof fn lemma_finished_iff_terminal(self, id: Seq<char>)
        requires
            self.wf(),
            self.has_job(id),
        ensures
            self.job(id).finished_at is Some <==> is_terminal(self.job(id).status),
    {
        let i = self.index_of(id);
        assert(0 <= i < self.jobs@.len() && self.jobs@[i].id@ == id);
        assert(job_wf(self.jobs@[i].model()));
    }

    /// After a change to the record at index `i` that keeps its identifier,
    /// every other job reads unchanged, and the table maps the identifier to
    /// the new record.
    proof fn lemma_update_at(pre: Supervisor, post: Supervisor, i: int)
        requires
            pre.wf(),
            0 <= i < pre.jobs@.len(),
            post.jobs@.len() == pre.jobs@.len(),
            forall|j: int| 0 <= j < pre.jobs@.len() && j != i ==> post.jobs@[j] == pre.jobs@[j],
            post.jobs@[i].id@ == pre.jobs@[i].id@,
            job_wf(post.jobs@[i].model()),
        ensures
            post.wf(),
            forall|k: Seq<char>| post.has_job(k) == pre.has_job(k),
            forall|k: Seq<char>|
                k != pre.jobs@[i].id@ && pre.has_job(k) ==> post.job(k) == pre.job(k),
            post.has_job(pre.jobs@[i].id@),
            post.job(pre.jobs@[i].id@) == post.jobs@[i].model(),
    {
        assert(forall|j: int|
            0 <= j < post.jobs@.len() ==> post.jobs@[j].id@ == pre.jobs@[j].id@);
        assert(post.wf());
        assert forall|k: Seq<char>| post.has_job(k) == pre.has_job(k) by {
            if post.has_job(k) {
                let j = choose|j: int|
                    0 <= j < post.jobs@.len() && post.jobs@[j].id@ == k;
                assert(pre.jobs@[j].id@ == k);
            }
            if pre.has_job(k) {
                let j = choose|j: int| 0 <= j < pre.jobs@.len() && pre.jobs@[j].id@ == k;
                assert(post.jobs@[j].id@ == k);
            }
        }
        assert forall|k: Seq<char>|
            k != pre.jobs@[i].id@ && pre.has_job(k) implies post.job(k) == pre.job(k) by {
            let j = pre.index_of(k);
            assert(0 <= j < pre.jobs@.len() && pre.jobs@[j].id@ == k);
            pre.lemma_job_at(j);
            post.lemma_job_at(j);
        }
        post.lemma_job_at(i);
    }

    /// After a fresh record is appended, every old job reads unchanged and
    /// the table maps the new identifier to the new record.
    proof fn lemma_push_new(pre: Supervisor, post: Supervisor, rec: JobRecord)
        requires
            pre.wf(),
            !pre.has_job(rec.id@),
            post.jobs@ == pre.jobs@.push(rec),
            job_wf(rec.model()),
        ensures
            post.wf(),
            forall|k: Seq<char>| post.has_job(k) == (pre.has_job(k) || k == rec.id@),
            forall|k: Seq<char>| k != rec.id@ && pre.has_job(k) ==> post.job(k) == pre.job(k),
            post.has_job(rec.id@),
            post.job(rec.id@) == rec.model(),
    {
        let n = pre.jobs@.len() as int;
        assert(forall|j: int| 0 <= j < n ==> post.jobs@[j] == pre.jobs@[j]);
        assert forall|j: int| 0 <= j < n implies post.jobs@[j].id@ != rec.id@ by {
            if post.jobs@[j].id@ == rec.id@ {
                assert(pre.has_job(rec.id@));
            }
        }
        assert(post.wf());
        assert forall|k: Seq<char>|
            post.has_job(k) == (pre.has_job(k) || k == rec.id@) by {
            if post.has_job(k) {
                let j = choose|j: int|
                    0 <= j < post.jobs@.len() && post.jobs@[j].id@ == k;
                if j < n {
                    assert(pre.jobs@[j].id@ == k);
                }
            }
            if pre.has_job(k) {
                let j = choose|j: int| 0 <= j < pre.jobs@.len() && pre.jobs@[j].id@ == k;
                assert(post.jobs@[j].id@ == k);
            }
            assert(post.jobs@[n].id@ == rec.id@);
        }
        assert forall|k: Seq<char>|
            k != rec.id@ && pre.has_job(k) implies post.job(k) == pre.job(k) by {
            let j = pre.index_of(k);
            assert(0 <= j < pre.jobs@.len() && pre.jobs@[j].id@ == k);
            pre.lemma_job_at(j);
            post.lemma_job_at(j);
        }
        post.lemma_job_at(n);
    }

    fn find_index(&self, id: &String) -> (r: Option<usize>)
        ensures
            match r {
                Some(i) => i < self.jobs@.len() && self.jobs@[i as int].id@ == id@,
                None => !self.has_job(id@),
            },
    {
        let mut i: usize = 0;
        while i < self.jobs.len()
            invariant
                i <= self.jobs@.len(),
                forall|j: int| 0 <= j < i ==> self.jobs@[j].id@ != id@,
            decreases self.jobs@.len() - i,
        {
            if self.jobs[i].id == *id {
                return Some(i);
            }
            i = i + 1;
        }
        None
    }

    /// Register a newly spawned build. A fresh identifier is drawn, the log
    /// buffer opens with one synthetic line recording the exact command
    /// invoked, and the job enters the table as `Running` with a start
    /// timestamp. Returns the identifier at once.
    pub fn start_build(&mut self, command_line: &str) -> (id: String)
        requires
            old(self).wf(),
        ensures
            final(self).wf(),
            id@.len() == 36,
            final(self).has_job(id@),
            ({
                let m = final(self).job(id@);
                &&& m.status == Status::Running
                &&& m.code is None
                &&& m.error is None
                &&& m.started_at is Some
                &&& m.finished_at is None
                &&& m.logs == seq!["Running: "@ + command_line@]
            }),
            forall|k: Seq<char>| final(self).has_job(k) == (old(self).has_job(k) || k == id@),
            forall|k: Seq<char>|
                k != id@ && old(self).has_job(k) ==> final(self).job(k) == old(self).job(k),
    {
        let id = fresh_build_id();
        let now = now_rfc3339();
        let mut logs: Vec<String> = Vec::new();
        logs.push(String::from_str("Running: ").concat(command_line));
        let rec = JobRecord {
            id: id.clone(),
            status: Status::Running,
            code: None,
            error: None,
            started_at: Some(now),
            finished_at: None,
            logs,
        };
        proof {
            assert(rec.logs.deep_view() =~= seq!["Running: "@ + command_line@]);
        }
        match self.find_index(&id) {
            Some(i) => {
                self.jobs[i] = rec;
                proof {
                    Self::lemma_update_at(*old(self), *self, i as int);
                }
            },
            None => {
                self.jobs.push(rec);
                proof {
                    Self::lemma_push_new(*old(self), *self, rec);
                }
            },
        }
        id
    }

    /// Append one captured output line to the job's log buffer; the rest of
    /// the record, and every other job, is untouched. Returns whether the
    /// identifier was known.
    pub fn append_log(&mut self, build_id: &String, line: &str) -> (found: bool)
        requires
            old(self).wf(),
        ensures
            final(self).wf(),
            found == old(self).has_job(build_id@),
            forall|k: Seq<char>| final(self).has_job(k) == old(self).has_job(k),
            found ==> final(self).job(build_id@) == (JobModel {
                logs: old(self).job(build_id@).logs.push(line@),
                ..old(self).job(build_id@)
            }),
            forall|k: Seq<char>|
                k != build_id@ && old(self).has_job(k) ==> final(self).job(k) == old(self).job(k),
            !found ==> *final(self) == *old(self),
    {
        match self.find_index(build_id) {
            Some(i) => {
                self.jobs[i].logs.push(line.to_owned());
                proof {
                    (*old(self)).lemma_job_at(i as int);
                    assert(self.jobs@[i as int].model() == (JobModel {
                        logs: old(self).job(build_id@).logs.push(line@),
                        ..old(self).job(build_id@)
                    })) by {
                        assert(self.jobs@[i as int].logs.deep_view()
                            =~= old(self).jobs@[i as int].logs.deep_view().push(line@));
                    }
                    Self::lemma_update_at(*old(self), *self, i as int);
                }
                true
            },
            None => false,
        }
    }

    /// Look up a job and return a snapshot of its status. If the job is still
    /// `Running`, the outcome of the caller's non-blocking exit check is
    /// applied first: a successful exit turns the job `Success`, an abnormal
    /// exit turns it `Error` with a message naming the exit code, a failure
    /// of the check itself turns it `Error` with the check's message, and
    /// `None` (no exit observed, or none checked) leaves it `Running`. A
    /// terminal job is never changed again, whatever the check says. Fails
    /// exactly when the identifier is unknown.
    pub fn get_build_status(&mut self, build_id: &String, check: Option<ExitCheck>) -> (r: Result<
        BuildStatus,
        String,
    >)
        requires
            old(self).wf(),
        ensures
            final(self).wf(),
            (r is Ok) == old(self).has_job(build_id@),
            !old(self).has_job(build_id@) ==> *final(self) == *old(self) && (r matches Err(e)
                && e@ == "Build not found"@),
            old(self).has_job(build_id@) ==> ({
                &&& (exists|now: Seq<char>|
                    final(self).job(build_id@) == poll_transition(
                        old(self).job(build_id@),
                        check,
                        now,
                    ))
                &&& (r matches Ok(st) && snapshot_matches(final(self).job(build_id@), st))
                &&& forall|k: Seq<char>| final(self).has_job(k) == old(self).has_job(k)
                &&& forall|k: Seq<char>|
                    k != build_id@ && old(self).has_job(k) ==> final(self).job(k) == old(
                        self,
                    ).job(k)
            }),
    {
        let ghost gcheck = check;
        match self.find_index(build_id) {
            None => Err(String::from_str("Build not found")),
            Some(i) => {
                proof {
                    (*old(self)).lemma_job_at(i as int);
                    assert(job_wf(old(self).jobs@[i as int].model()));
                }
                let running = self.jobs[i].status == Status::Running;
                if running {
                    match check {
                        None => {},
                        Some(ExitCheck::Exited { code, success }) => {
                            let now = now_rfc3339();
                            let ghost nowv = now@;
                            self.jobs[i].finished_at = Some(now);
                            self.jobs[i].code = code;
                            if success {
                                self.jobs[i].status = Status::Success;
                            } else {
                                self.jobs[i].status = Status::Error;
                                let msg = String::from_str("Process exited with code ").concat(
                                    opt_code_string(&code).as_str(),
                                );
                                self.jobs[i].error = Some(msg);
                            }
                            proof {
                                assert(self.jobs@[i as int].model() == poll_transition(
                                    old(self).jobs@[i as int].model(),
                                    gcheck,
                                    nowv,
                                ));
                                Self::lemma_update_at(*old(self), *self, i as int);
                            }
                        },
                        Some(ExitCheck::CheckFailed(detail)) => {
                            let now = now_rfc3339();
                            let ghost nowv = now@;
                            self.jobs[i].status = Status::Error;
                            self.jobs[i].finished_at = Some(now);
                            let msg = String::from_str("Failed to check process: ").concat(
                                detail.as_str(),
                            );
                            self.jobs[i].error = Some(msg);
                            proof {
                                assert(self.jobs@[i as int].model() == poll_transition(
                                    old(self).jobs@[i as int].model(),
                                    gcheck,
                                    nowv,
                                ));
                                Self::lemma_update_at(*old(self), *self, i as int);
                            }
                        },
                    }
                } else {
                    proof {
                        assert(self.jobs@[i as int].model() == poll_transition(
                            old(self).jobs@[i as int].model(),
                            gcheck,
                            Seq::<char>::empty(),
                        ));
                    }
                }
                proof {
                    self.lemma_job_at(i as int);
                    if running && gcheck is None {
                        assert(self.jobs@[i as int].model() == poll_transition(
                            old(self).jobs@[i as int].model(),
                            gcheck,
                            Seq::<char>::empty(),
                        ));
                    }
                }
                let st = snapshot(&self.jobs[i]);
                Ok(st)
            },
        }
    }

    /// Cancel a build. A job that is not running is left exactly as it is and
    /// the call reports `false`; a running job turns `Cancelled` with a
    /// finish timestamp and the call reports `true` (the caller then kills
    /// the subprocess and drops its handle). Fails exactly when the
    /// identifier is unknown.
    pub fn cancel_build(&mut self, build_id: &String) -> (r: Result<bool, String>)
        requires
            old(self).wf(),
        ensures
            final(self).wf(),
            (r is Ok) == old(self).has_job(build_id@),
            !old(self).has_job(build_id@) ==> *final(self) == *old(self) && (r matches Err(e)
                && e@ == "Build not found"@),
            old(self).has_job(build_id@) && old(self).job(build_id@).status != Status::Running
                ==> r == Ok::<bool, String>(false) && *final(self) == *old(self),
            old(self).has_job(build_id@) && old(self).job(build_id@).status == Status::Running
                ==> ({
                &&& r == Ok::<bool, String>(true)
                &&& (exists|now: Seq<char>|
                    final(self).job(build_id@) == cancel_transition(
                        old(self).job(build_id@),
                        now,
                    ))
                &&& forall|k: Seq<char>| final(self).has_job(k) == old(self).has_job(k)
                &&& forall|k: Seq<char>|
                    k != build_id@ && old(self).has_job(k) ==> final(self).job(k) == old(
                        self,
                    ).job(k)
            }),
    {
        match self.find_index(build_id) {
            None => Err(String::from_str("Build not found")),
            Some(i) => {
                proof {
                    (*old(self)).lemma_job_at(i as int);
                    assert(job_wf(old(self).jobs@[i as int].model()));
                }
                if self.jobs[i].status == Status::Running {
                    let now = now_rfc3339();
                    let ghost nowv = now@;
                    self.jobs[i].status = Status::Cancelled;
                    self.jobs[i].finished_at = Some(now);
                    proof {
                        assert(self.jobs@[i as int].model() == cancel_transition(
                            old(self).jobs@[i as int].model(),
                            nowv,
                        ));
                        Self::lemma_update_at(*old(self), *self, i as int);
                    }
                    Ok(true)
                } else {
                    Ok(false)
                }
            },
        }
    }

    /// Read the job's log lines at index `>= from`, without changing any
    /// state: the lines, the cursor to pass next time (the buffer's current
    /// length), and whether the job had left `Running` when asked. A cursor
    /// past the end reads as an empty reply. Fails exactly when the
    /// identifier is unknown.
    pub fn get_build_logs(&self, build_id: &String, from: usize) -> (r: Result<
        BuildLogsResponse,
        String,
    >)
        requires
            self.wf(),
        ensures
            (r is Ok) == self.has_job(build_id@),
            !self.has_job(build_id@) ==> (r matches Err(e) && e@ == "Build not found"@),
            self.has_job(build_id@) ==> (r matches Ok(resp) && ({
                let m = self.job(build_id@);
                &&& resp.lines.deep_view() == spec_read_from(m.logs, from as int)
                &&& resp.next_index == m.logs.len()
                &&& resp.finished == (m.status != Status::Running)
            })),
    {
        match self.find_index(build_id) {
            None => Err(String::from_str("Build not found")),
            Some(i) => {
                proof {
                    self.lemma_job_at(i as int);
                }
                let n = self.jobs[i].logs.len();
                let mut lines: Vec<String> = Vec::new();
                let mut j: usize = if from > n {
                    n
                } else {
                    from
                };
                let ghost start = j as int;
                while j < n
                    invariant
                        0 <= start <= j <= n,
                        i < self.jobs@.len(),
                        n == self.jobs@[i as int].logs@.len(),
                        lines.deep_view() =~= self.jobs@[i as int].logs.deep_view().subrange(
                            start,
                            j as int,
                        ),
                    decreases n - j,
                {
                    let line = self.jobs[i].logs[j].clone();
                    let ghost prev = lines.deep_view();
                    lines.push(line);
                    proof {
                        let lv = self.jobs@[i as int].logs.deep_view();
                        assert(line.deep_view() == lv[j as int]);
                        assert(lines.deep_view() =~= prev.push(lv[j as int]));
                        assert(prev.push(lv[j as int]) =~= lv.subrange(start, j + 1));
                    }
                    j = j + 1;
                }
                let finished = !(self.jobs[i].status == Status::Running);
                proof {
                    assert(lines.deep_view() =~= spec_read_from(
                        self.jobs@[i as int].logs.deep_view(),
                        from as int,
                    ));
                }
                Ok(BuildLogsResponse { lines, next_index: n, finished })
            },
        }
    }
}

/// Fetching with the cursor that a previous fetch returned never re-returns
/// a line and never loses one: what the earlier fetch saw from `cursor`,
/// followed by a later fetch from the earlier buffer's length, is exactly
/// what one fetch from `cursor` sees in the later buffer, provided the
/// buffer only grew in between.
pub proof fn lemma_fetch_monotonic(earlier: Seq<Seq<char>>, later: Seq<Seq<char>>, cursor: int)
    requires
        0 <= cursor <= earlier.len(),
        earlier.is_prefix_of(later),
    ensures
        spec_read_from(earlier, cursor) + spec_read_from(later, earlier.len() as int)
            == spec_read_from(later, cursor),
{
    assert(earlier =~= later.subrange(0, earlier.len() as int));
    assert(spec_read_from(earlier, cursor) + spec_read_from(later, earlier.len() as int)
        =~= spec_read_from(later, cursor));
}

/// Polling a job that is already terminal changes nothing, whatever the exit
/// check reported and whatever the clock read.
pub proof fn lemma_poll_terminal_idempotent(m: JobModel, check: Option<ExitCheck>, now: Seq<char>)
    requires
        is_terminal(m.status),
    ensures
        poll_transition(m, check, now) == m,
{
}

/// Once a job is cancelled, no poll turns it into success or error, even if
/// the process happened to exit at the same moment: cancellation wins.
pub proof fn lemma_cancel_wins(m: JobModel, check: Option<ExitCheck>, now: Seq<char>)
    requires
        m.status == Status::Cancelled,
    ensures
        poll_transition(m, check, now) == m,
        poll_transition(m, check, now).status == Status::Cancelled,
{
}

fn digit_str(d: u32) -> (r: String)
    requires
        d < 10,
    ensures
        r@ == seq![digit_char(d as int)],
{
    let r = match d {
        0 => String::from_str("0"),
        1 => String::from_str("1"),
        2 => String::from_str("2"),
        3 => String::from_str("3"),
        4 => String::from_str("4"),
        5 => String::from_str("5"),
        6 => String::from_str("6"),
        7 => String::from_str("7"),
        8 => String::from_str("8"),
        _ => String::from_str("9"),
    };
    proof {
        reveal_strlit("0");
        reveal_strlit("1");
        reveal_strlit("2");
        reveal_strlit("3");
        reveal_strlit("4");
        reveal_strlit("5");
        reveal_strlit("6");
        reveal_strlit("7");
        reveal_strlit("8");
        reveal_strlit("9");
        assert(r@ =~= seq![digit_char(d as int)]);
    }
    r
}

fn u32_digits(n: u32) -> (r: String)
    ensures
        r@ == spec_nat_digits(n as int),
    decreases n,
{
    if n < 10 {
        digit_str(n)
    } else {
        u32_digits(n / 10).concat(digit_str(n % 10).as_str())
    }
}

fn i32_digits(c: i32) -> (r: String)
    ensures
        r@ == spec_i32_digits(c as int),
{
    if c < 0 {
        let w: i64 = c as i64;
        let m: u32 = (-w) as u32;
        proof {
            assert(m as int == -(c as int));
            reveal_strlit("-");
        }
        let r = String::from_str("-").concat(u32_digits(m).as_str());
        proof {
            assert(r@ =~= spec_i32_digits(c as int));
        }
        r
    } else {
        u32_digits(c as u32)
    }
}

/// The text that one exit code reads as inside an error message.
fn opt_code_string(code: &Option<i32>) -> (r: String)
    ensures
        r@ == opt_code_text(*code),
{
    match code {
        Some(c) => {
            let r = String::from_str("Some(").concat(i32_digits(*c).as_str()).concat(
                String::from_str(")").as_str(),
            );
            proof {
                assert(r@ =~= opt_code_text(*code));
            }
            r
        },
        None => String::from_str("None"),
    }
}

fn status_to_string(s: Status) -> (r: String)
    ensures
        r@ == status_name(s),
{
    match s {
        Status::Running => String::from_str("running"),
        Status::Success => String::from_str("success"),
        Status::Error => String::from_str("error"),
        Status::Cancelled => String::from_str("cancelled"),
    }
}

fn clone_opt(o: &Option<String>) -> (r: Option<String>)
    ensures
        opt_view(r) == opt_view(*o),
{
    match o {
        Some(s) => Some(s.clone()),
        None => None,
    }
}

/// A fresh snapshot of the record, field for field.
fn snapshot(rec: &JobRecord) -> (b: BuildStatus)
    ensures
        snapshot_matches(rec.model(), b),
{
    BuildStatus {
        status: status_to_string(rec.status),
        code: rec.code,
        error: clone_opt(&rec.error),
        started_at: clone_opt(&rec.started_at),
        finished_at: clone_opt(&rec.finished_at),
    }
}

/// Relies on uuid::Uuid::new_v4 and its Display rendering: a random
/// version-4 UUID in the 36-character hyphenated form. The value is random,
/// so nothing beyond its length is promised.
#[verifier::external_body]
fn fresh_build_id() -> (r: String)
    ensures
        r@.len() == 36,
{
    uuid::Uuid::new_v4().to_string()
}

/// Relies on chrono::Utc::now and DateTime::to_rfc3339: the current UTC time
/// as an ISO-8601 / RFC 3339 timestamp. The value depends on the clock, so
/// nothing is promised of it.
#[verifier::external_body]
fn now_rfc3339() -> (r: String)
{
    chrono::Utc::now().to_rfc3339()
}

} // verus!
