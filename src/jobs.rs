use vstd::prelude::*;

verus! {

/// Where a job stands in its life cycle.
#[derive(PartialEq, Eq, Structural, Clone, Copy, Debug)]
pub enum JobState {
    Queued,
    Running,
    Retry,
    Done,
    Failed,
}

impl JobState {
    /// The status name stored with a job.
    pub fn name(&self) -> (r: &'static str)
        ensures
            r@ == state_name(*self),
    {
        match self {
            JobState::Queued => "queued",
            JobState::Running => "running",
            JobState::Retry => "retry",
            JobState::Done => "done",
            JobState::Failed => "failed",
        }
    }
}

pub open spec fn state_name(s: JobState) -> Seq<char> {
    match s {
        JobState::Queued => "queued"@,
        JobState::Running => "running"@,
        JobState::Retry => "retry"@,
        JobState::Done => "done"@,
        JobState::Failed => "failed"@,
    }
}

/// A job is active while it may still run: queued, running or waiting to retry.
pub open spec fn is_active(s: JobState) -> bool {
    s == JobState::Queued || s == JobState::Running || s == JobState::Retry
}

/// One row of the queue. Times are Unix seconds; `payload` and `result` are JSON text.
#[derive(Debug, Clone)]
pub struct JobRecord {
    pub id: i64,
    pub job_type: String,
    pub status: JobState,
    pub payload: String,
    pub attempts: i32,
    pub max_attempts: i32,
    pub scheduled_at: i64,
    pub locked_at: Option<i64>,
    pub locked_by: Option<String>,
    pub dedup_key: Option<String>,
    pub result: Option<String>,
    pub last_error: Option<String>,
    pub created_at: i64,
    pub updated_at: i64,
}

/// A leased job as handed to a worker.
#[derive(Debug, Clone)]
pub struct Job {
    pub id: i64,
    pub job_type: String,
    pub payload: String,
    pub attempts: i32,
    pub max_attempts: i32,
}

/// A snapshot of a job for clients.
#[derive(Debug, Clone)]
pub struct JobStatus {
    pub id: i64,
    pub job_type: String,
    pub status: JobState,
    pub attempts: i32,
    pub max_attempts: i32,
    pub result: Option<String>,
    pub last_error: Option<String>,
}

/// Refusals of the queue.
#[derive(Debug, Clone)]
pub enum QueueError {
    /// Reactivating the job would give its deduplication key two active jobs.
    DuplicateActive,
}

/// The durable job queue: rows in creation order, and the next id to assign.
#[derive(Debug, Clone)]
pub struct JobQueue {
    pub jobs: Vec<JobRecord>,
    pub next_id: i64,
}

pub open spec fn key_of(r: JobRecord) -> Option<Seq<char>> {
    match r.dedup_key {
        Some(k) => Some(k@),
        None => None,
    }
}

/// Two rows claim the same deduplication slot: same type and the same, present, key.
pub open spec fn same_slot(a: JobRecord, b: JobRecord) -> bool {
    &&& a.job_type@ == b.job_type@
    &&& a.dedup_key is Some
    &&& b.dedup_key is Some
    &&& key_of(a) == key_of(b)
}

/// What holds of every row at all times.
pub open spec fn row_ok(r: JobRecord) -> bool {
    &&& 0 <= r.attempts <= r.max_attempts
    &&& r.status == JobState::Failed ==> r.attempts == r.max_attempts
    &&& r.status == JobState::Running ==> r.locked_at is Some && r.locked_by is Some
}

/// At most one active row per deduplication slot.
pub open spec fn slots_unique(jobs: Seq<JobRecord>) -> bool {
    forall|i: int, j: int|
        0 <= i < jobs.len() && 0 <= j < jobs.len() && i != j && is_active(
            #[trigger] jobs[i].status,
        ) && is_active(#[trigger] jobs[j].status) ==> !same_slot(jobs[i], jobs[j])
}

impl JobQueue {
    pub open spec fn wf(&self) -> bool {
        &&& 1 <= self.next_id
        &&& forall|i: int|
            0 <= i < self.jobs@.len() ==> 1 <= (#[trigger] self.jobs@[i]).id < self.next_id
                && row_ok(self.jobs@[i])
        &&& forall|i: int, j: int|
            0 <= i < j < self.jobs@.len() ==> (#[trigger] self.jobs@[i]).id < (
            #[trigger] self.jobs@[j]).id
        &&& slots_unique(self.jobs@)
    }

    /// An empty queue.
    pub fn new() -> (r: Self)
        ensures
            r.wf(),
            r.jobs@.len() == 0,
    {
        JobQueue { jobs: Vec::new(), next_id: 1 }
    }
}

/// Index of the active row holding the slot `(job_type, key)`, if any.
pub open spec fn holds_slot(r: JobRecord, job_type: Seq<char>, key: Seq<char>) -> bool {
    is_active(r.status) && r.job_type@ == job_type && key_of(r) == Some(key)
}

fn str_eq(a: &String, b: &str) -> (r: bool)
    ensures
        r == (a@ == b@),
{
    let x = crate::text::chars_of(a.as_str());
    let y = crate::text::chars_of(b);
    crate::text::chars_eq(&x, &y)
}

fn find_active_slot(jobs: &Vec<JobRecord>, job_type: &str, key: &str) -> (r: Option<usize>)
    ensures
        match r {
            Some(i) => i < jobs@.len() && holds_slot(jobs@[i as int], job_type@, key@),
            None => forall|i: int| 0 <= i < jobs@.len() ==> !holds_slot(#[trigger] jobs@[i], job_type@, key@),
        },
{
    let mut i: usize = 0;
    while i < jobs.len()
        invariant
            i <= jobs@.len(),
            forall|k: int| 0 <= k < i ==> !holds_slot(#[trigger] jobs@[k], job_type@, key@),
        decreases jobs.len() - i,
    {
        let r = &jobs[i];
        let active = r.status == JobState::Queued || r.status == JobState::Running || r.status
            == JobState::Retry;
        if active && str_eq(&r.job_type, job_type) {
            match &r.dedup_key {
                Some(k) => {
                    if str_eq(k, key) {
                        return Some(i);
                    }
                },
                None => {},
            }
        }
        i = i + 1;
    }
    None
}

fn copy_opt(o: &Option<String>) -> (r: Option<String>)
    ensures
        r == *o,
{
    match o {
        Some(s) => Some(s.clone()),
        None => None,
    }
}

/// Adds a job. With a deduplication key, an active job of the same type and
/// key is reused and its id returned; otherwise a new queued row is appended.
pub fn enqueue_job(
    queue: &mut JobQueue,
    job_type: &str,
    payload: String,
    max_attempts: u32,
    dedup_key: Option<&str>,
    now: i64,
) -> (r: i64)
    requires
        old(queue).wf(),
        old(queue).next_id < i64::MAX,
        max_attempts <= i32::MAX,
    ensures
        final(queue).wf(),
        ({
            let reused = dedup_key is Some && exists|i: int|
                0 <= i < old(queue).jobs@.len() && holds_slot(
                    #[trigger] old(queue).jobs@[i],
                    job_type@,
                    dedup_key->0@,
                );
            if reused {
                &&& *final(queue) == *old(queue)
                &&& exists|i: int|
                    0 <= i < old(queue).jobs@.len() && holds_slot(
                        #[trigger] old(queue).jobs@[i],
                        job_type@,
                        dedup_key->0@,
                    ) && old(queue).jobs@[i].id == r
            } else {
                &&& r == old(queue).next_id
                &&& final(queue).next_id == old(queue).next_id + 1
                &&& final(queue).jobs@.len() == old(queue).jobs@.len() + 1
                &&& final(queue).jobs@.drop_last() == old(queue).jobs@
                &&& ({
                    let n = final(queue).jobs@.last();
                    &&& n.id == r
                    &&& n.job_type@ == job_type@
                    &&& n.status == JobState::Queued
                    &&& n.payload == payload
                    &&& n.attempts == 0
                    &&& n.max_attempts == max_attempts as i32
                    &&& n.scheduled_at == now
                    &&& n.locked_at is None
                    &&& n.locked_by is None
                    &&& key_of(n) == opt_str_view(dedup_key)
                    &&& n.result is None
                    &&& n.last_error is None
                    &&& n.created_at == now
                    &&& n.updated_at == now
                })
            }
        }),
{
    match dedup_key {
        Some(key) => {
            match find_active_slot(&queue.jobs, job_type, key) {
                Some(i) => {
                    return queue.jobs[i].id;
                },
                None => {},
            }
        },
        None => {},
    }
    let id = queue.next_id;
    let key: Option<String> = match dedup_key {
        Some(k) => Some(k.to_string()),
        None => None,
    };
    let rec = JobRecord {
        id,
        job_type: job_type.to_string(),
        status: JobState::Queued,
        payload,
        attempts: 0,
        max_attempts: max_attempts as i32,
        scheduled_at: now,
        locked_at: None,
        locked_by: None,
        dedup_key: key,
        result: None,
        last_error: None,
        created_at: now,
        updated_at: now,
    };
    let ghost before = queue.jobs@;
    queue.jobs.push(rec);
    queue.next_id = id + 1;
    proof {
        assert(queue.jobs@.drop_last() =~= before);
        assert forall|i: int, j: int|
            0 <= i < queue.jobs@.len() && 0 <= j < queue.jobs@.len() && i != j && is_active(
                #[trigger] queue.jobs@[i].status,
            ) && is_active(#[trigger] queue.jobs@[j].status) implies !same_slot(
            queue.jobs@[i],
            queue.jobs@[j],
        ) by {
            if i < before.len() && j < before.len() {
                assert(queue.jobs@[i] == before[i]);
                assert(queue.jobs@[j] == before[j]);
            } else if dedup_key is Some {
                if i == before.len() {
                    assert(!holds_slot(before[j], job_type@, dedup_key->0@));
                } else {
                    assert(!holds_slot(before[i], job_type@, dedup_key->0@));
                }
            }
        }
    }
    id
}

pub open spec fn opt_str_view(o: Option<&str>) -> Option<Seq<char>> {
    match o {
        Some(s) => Some(s@),
        None => None,
    }
}

/// A row that a worker may lease now.
pub open spec fn fetchable(r: JobRecord, now: i64) -> bool {
    &&& (r.status == JobState::Queued || r.status == JobState::Retry)
    &&& r.scheduled_at <= now
    &&& r.attempts < r.max_attempts
}

/// The row after being leased to `worker` at `now`.
pub open spec fn leased(o: JobRecord, n: JobRecord, worker: Seq<char>, now: i64) -> bool {
    &&& n.status == JobState::Running
    &&& n.attempts == o.attempts + 1
    &&& n.locked_at == Some(now)
    &&& n.locked_by is Some && n.locked_by->0@ == worker
    &&& n.updated_at == now
    &&& n.id == o.id && n.job_type == o.job_type && n.payload == o.payload
    &&& n.max_attempts == o.max_attempts && n.scheduled_at == o.scheduled_at
    &&& n.dedup_key == o.dedup_key && n.result == o.result && n.last_error == o.last_error
    &&& n.created_at == o.created_at
}

/// Only row `i` changed, and the id counter stayed.
pub open spec fn only_row_changed(o: JobQueue, n: JobQueue, i: int) -> bool {
    &&& 0 <= i < o.jobs@.len()
    &&& n.next_id == o.next_id
    &&& n.jobs@ == o.jobs@.update(i, n.jobs@[i])
}

proof fn lemma_update_keeps_wf(o: JobQueue, n: JobQueue, i: int)
    requires
        o.wf(),
        only_row_changed(o, n, i),
        n.jobs@[i].id == o.jobs@[i].id,
        row_ok(n.jobs@[i]),
        is_active(n.jobs@[i].status) ==> (is_active(o.jobs@[i].status) || forall|j: int|
            0 <= j < o.jobs@.len() && j != i && is_active(#[trigger] o.jobs@[j].status)
                ==> !same_slot(o.jobs@[j], n.jobs@[i])),
        n.jobs@[i].job_type == o.jobs@[i].job_type,
        n.jobs@[i].dedup_key == o.jobs@[i].dedup_key,
    ensures
        n.wf(),
{
    assert forall|a: int, b: int|
        0 <= a < n.jobs@.len() && 0 <= b < n.jobs@.len() && a != b && is_active(
            #[trigger] n.jobs@[a].status,
        ) && is_active(#[trigger] n.jobs@[b].status) implies !same_slot(n.jobs@[a], n.jobs@[b]) by {
        if a != i && b != i {
            assert(n.jobs@[a] == o.jobs@[a]);
            assert(n.jobs@[b] == o.jobs@[b]);
        } else if a == i {
            assert(n.jobs@[b] == o.jobs@[b]);
            if is_active(o.jobs@[i].status) {
                assert(!same_slot(o.jobs@[a], o.jobs@[b]));
            }
        } else {
            assert(n.jobs@[a] == o.jobs@[a]);
            if is_active(o.jobs@[i].status) {
                assert(!same_slot(o.jobs@[a], o.jobs@[b]));
            } else {
                assert(!same_slot(o.jobs@[a], n.jobs@[i]));
            }
        }
    }
    assert forall|a: int| 0 <= a < n.jobs@.len() implies 1 <= (#[trigger] n.jobs@[a]).id < n.next_id
        && row_ok(n.jobs@[a]) by {
        if a != i {
            assert(n.jobs@[a] == o.jobs@[a]);
        }
    }
    assert forall|a: int, b: int| 0 <= a < b < n.jobs@.len() implies (#[trigger] n.jobs@[a]).id < (
    #[trigger] n.jobs@[b]).id by {
        assert(n.jobs@[a].id == o.jobs@[a].id);
        assert(n.jobs@[b].id == o.jobs@[b].id);
    }
}

/// Leases the row created earliest (the first such in queue order) among
/// those queued or waiting to retry, due at `now` and not out of attempts:
/// it becomes running, held by `worker_id`, with one
/// more attempt counted.
pub fn fetch_next_job(queue: &mut JobQueue, worker_id: &str, now: i64) -> (r: Option<Job>)
    requires
        old(queue).wf(),
    ensures
        final(queue).wf(),
        match r {
            None => {
                &&& *final(queue) == *old(queue)
                &&& forall|i: int| 0 <= i < old(queue).jobs@.len() ==> !fetchable(#[trigger] old(queue).jobs@[i], now)
            },
            Some(job) => exists|i: int| {
                &&& 0 <= i < old(queue).jobs@.len()
                &&& earliest_fetchable(old(queue).jobs@, now, i)
                &&& only_row_changed(*old(queue), *final(queue), i)
                &&& leased(old(queue).jobs@[i], final(queue).jobs@[i], worker_id@, now)
                &&& job.id == old(queue).jobs@[i].id
                &&& job.job_type == old(queue).jobs@[i].job_type
                &&& job.payload == old(queue).jobs@[i].payload
                &&& job.attempts == old(queue).jobs@[i].attempts + 1
                &&& job.max_attempts == old(queue).jobs@[i].max_attempts
            },
        },
{
    let mut best: Option<usize> = None;
    let mut i: usize = 0;
    while i < queue.jobs.len()
        invariant
            *queue == *old(queue),
            queue.wf(),
            i <= queue.jobs@.len(),
            best is None ==> forall|j: int| 0 <= j < i ==> !fetchable(#[trigger] queue.jobs@[j], now),
            best matches Some(b) ==> b < i && earliest_fetchable(queue.jobs@.subrange(0, i as int), now, b as int),
        decreases queue.jobs.len() - i,
    {
        let ghost pre = queue.jobs@.subrange(0, i as int);
        let ghost nxt = queue.jobs@.subrange(0, i + 1);
        let r = &queue.jobs[i];
        if (r.status == JobState::Queued || r.status == JobState::Retry) && r.scheduled_at <= now
            && r.attempts < r.max_attempts {
            let earlier = match best {
                Some(b) => queue.jobs[b].created_at <= r.created_at,
                None => false,
            };
            if !earlier {
                best = Some(i);
            }
        }
        proof {
            match best {
                Some(b) => {
                    assert forall|j: int| 0 <= j < nxt.len() && fetchable(#[trigger] nxt[j], now) implies nxt[b as int].created_at <= nxt[j].created_at by {
                        if j < i {
                            assert(nxt[j] == pre[j]);
                        }
                    }
                    assert forall|j: int| 0 <= j < b && fetchable(#[trigger] nxt[j], now) implies nxt[j].created_at > nxt[b as int].created_at by {
                        if b < i {
                            assert(nxt[j] == pre[j]);
                        }
                    }
                },
                None => {},
            }
        }
        i = i + 1;
    }
    assert(queue.jobs@.subrange(0, i as int) =~= queue.jobs@);
    match best {
        None => None,
        Some(b) => {
            let ghost o = *queue;
            assert(earliest_fetchable(o.jobs@, now, b as int));
            let attempts = queue.jobs[b].attempts + 1;
            queue.jobs[b].status = JobState::Running;
            queue.jobs[b].attempts = attempts;
            queue.jobs[b].locked_at = Some(now);
            queue.jobs[b].locked_by = Some(worker_id.to_string());
            queue.jobs[b].updated_at = now;
            proof {
                assert(queue.jobs@ =~= o.jobs@.update(b as int, queue.jobs@[b as int]));
                lemma_update_keeps_wf(o, *queue, b as int);
                assert(leased(o.jobs@[b as int], queue.jobs@[b as int], worker_id@, now));
                assert(only_row_changed(o, *queue, b as int));
            }
            let rec = &queue.jobs[b];
            Some(
                Job {
                    id: rec.id,
                    job_type: rec.job_type.clone(),
                    payload: rec.payload.clone(),
                    attempts: rec.attempts,
                    max_attempts: rec.max_attempts,
                },
            )
        },
    }
}

/// Row `i` is the one to lease: due, with the least `created_at` among the
/// rows that are, and the first of those in queue order.
pub open spec fn earliest_fetchable(jobs: Seq<JobRecord>, now: i64, i: int) -> bool {
    &&& 0 <= i < jobs.len()
    &&& fetchable(jobs[i], now)
    &&& forall|j: int| 0 <= j < jobs.len() && fetchable(#[trigger] jobs[j], now) ==> jobs[i].created_at <= jobs[j].created_at
    &&& forall|j: int| 0 <= j < i && fetchable(#[trigger] jobs[j], now) ==> jobs[j].created_at > jobs[i].created_at
}

fn find_row(jobs: &Vec<JobRecord>, job_id: i64) -> (r: Option<usize>)
    ensures
        match r {
            Some(i) => i < jobs@.len() && jobs@[i as int].id == job_id,
            None => forall|i: int| 0 <= i < jobs@.len() ==> (#[trigger] jobs@[i]).id != job_id,
        },
{
    let mut i: usize = 0;
    while i < jobs.len()
        invariant
            i <= jobs@.len(),
            forall|k: int| 0 <= k < i ==> (#[trigger] jobs@[k]).id != job_id,
        decreases jobs.len() - i,
    {
        if jobs[i].id == job_id {
            return Some(i);
        }
        i = i + 1;
    }
    None
}

pub open spec fn has_id(q: JobQueue, job_id: i64) -> bool {
    exists|i: int| 0 <= i < q.jobs@.len() && (#[trigger] q.jobs@[i]).id == job_id
}

/// Row `i` is the one with this id.
pub open spec fn row_of(q: JobQueue, job_id: i64, i: int) -> bool {
    0 <= i < q.jobs@.len() && q.jobs@[i].id == job_id
}

/// The row with its lock released and its bookkeeping fields kept.
pub open spec fn released(o: JobRecord, n: JobRecord, now: i64) -> bool {
    &&& n.locked_at is None && n.locked_by is None
    &&& n.updated_at == now
    &&& n.id == o.id && n.job_type == o.job_type && n.payload == o.payload
    &&& n.attempts == o.attempts && n.max_attempts == o.max_attempts
    &&& n.dedup_key == o.dedup_key && n.created_at == o.created_at
}

/// Marks a job done with its result, releasing its lock. An unknown id changes nothing.
pub fn complete_job(queue: &mut JobQueue, job_id: i64, result: Option<String>, now: i64)
    requires
        old(queue).wf(),
    ensures
        final(queue).wf(),
        !has_id(*old(queue), job_id) ==> *final(queue) == *old(queue),
        forall|i: int|
            row_of(*old(queue), job_id, i) ==> {
                &&& only_row_changed(*old(queue), *final(queue), i)
                &&& released(old(queue).jobs@[i], final(queue).jobs@[i], now)
                &&& final(queue).jobs@[i].status == JobState::Done
                &&& final(queue).jobs@[i].result == result
                &&& final(queue).jobs@[i].last_error == old(queue).jobs@[i].last_error
                &&& final(queue).jobs@[i].scheduled_at == old(queue).jobs@[i].scheduled_at
            },
{
    match find_row(&queue.jobs, job_id) {
        None => {},
        Some(i) => {
            let ghost o = *queue;
            queue.jobs[i].status = JobState::Done;
            queue.jobs[i].result = result;
            queue.jobs[i].locked_at = None;
            queue.jobs[i].locked_by = None;
            queue.jobs[i].updated_at = now;
            proof {
                assert(queue.jobs@ =~= o.jobs@.update(i as int, queue.jobs@[i as int]));
                lemma_update_keeps_wf(o, *queue, i as int);
                assert forall|k: int| row_of(o, job_id, k) implies k == i by {
                    if k != i as int {
                        if k < i { assert(o.jobs@[k].id < o.jobs@[i as int].id); }
                        else { assert(o.jobs@[i as int].id < o.jobs@[k].id); }
                    }
                }
            }
        },
    }
}

/// The linear back-off before a failed job is tried again: 30 s per attempt made.
pub open spec fn retry_delay(attempts: int) -> int {
    30 * attempts
}

pub fn retry_delay_secs(attempts: i32) -> (r: i64)
    ensures
        r == retry_delay(attempts as int),
{
    30 * (attempts as i64)
}

/// `now + delay`, held at the largest time.
pub open spec fn later(now: i64, delay: int) -> i64 {
    if now + delay > i64::MAX { i64::MAX } else if now + delay < i64::MIN { i64::MIN } else { (now + delay) as i64 }
}

pub fn later_time(now: i64, delay: i64) -> (r: i64)
    ensures
        r == later(now, delay as int),
{
    let t = now as i128 + delay as i128;
    if t > i64::MAX as i128 {
        i64::MAX
    } else if t < i64::MIN as i128 {
        i64::MIN
    } else {
        t as i64
    }
}

/// Records a failed run. A job out of attempts fails for good; any other goes
/// back to retry after the back-off. An unknown id changes nothing. Bringing
/// a finished job back to retry is refused while another active job holds
/// its deduplication slot.
pub fn fail_job(queue: &mut JobQueue, job_id: i64, error: &str, now: i64) -> (r: Result<(), QueueError>)
    requires
        old(queue).wf(),
    ensures
        final(queue).wf(),
        !has_id(*old(queue), job_id) ==> *final(queue) == *old(queue) && r is Ok,
        forall|i: int|
            row_of(*old(queue), job_id, i) ==> {
                let o = old(queue).jobs@[i];
                let n = final(queue).jobs@[i];
                if o.attempts >= o.max_attempts {
                    &&& r is Ok
                    &&& only_row_changed(*old(queue), *final(queue), i)
                    &&& released(o, n, now)
                    &&& n.status == JobState::Failed
                    &&& n.last_error is Some && n.last_error->0@ == error@
                    &&& n.scheduled_at == o.scheduled_at && n.result == o.result
                } else if !is_active(o.status) && exists|j: int|
                    0 <= j < old(queue).jobs@.len() && j != i && is_active(#[trigger] old(queue).jobs@[j].status)
                        && same_slot(old(queue).jobs@[j], o) {
                    r is Err && *final(queue) == *old(queue)
                } else {
                    &&& r is Ok
                    &&& only_row_changed(*old(queue), *final(queue), i)
                    &&& released(o, n, now)
                    &&& n.status == JobState::Retry
                    &&& n.last_error is Some && n.last_error->0@ == error@
                    &&& n.scheduled_at == later(now, retry_delay(o.attempts as int))
                    &&& n.result == o.result
                }
            },
{
    let i = match find_row(&queue.jobs, job_id) {
        None => return Ok(()),
        Some(i) => i,
    };
    let ghost o = *queue;
    proof {
        assert forall|k: int| row_of(o, job_id, k) implies k == i by {
            if k != i as int {
                if k < i { assert(o.jobs@[k].id < o.jobs@[i as int].id); }
                else { assert(o.jobs@[i as int].id < o.jobs@[k].id); }
            }
        }
    }
    let attempts = queue.jobs[i].attempts;
    if attempts >= queue.jobs[i].max_attempts {
        queue.jobs[i].status = JobState::Failed;
        queue.jobs[i].last_error = Some(error.to_string());
        queue.jobs[i].locked_at = None;
        queue.jobs[i].locked_by = None;
        queue.jobs[i].updated_at = now;
        proof {
            assert(queue.jobs@ =~= o.jobs@.update(i as int, queue.jobs@[i as int]));
            lemma_update_keeps_wf(o, *queue, i as int);
        }
        return Ok(());
    }
    let st = queue.jobs[i].status;
    if !(st == JobState::Queued || st == JobState::Running || st == JobState::Retry) {
        match &queue.jobs[i].dedup_key {
            Some(key) => {
                let ty = queue.jobs[i].job_type.clone();
                match find_active_slot(&queue.jobs, ty.as_str(), key.as_str()) {
                    Some(j) => {
                        assert(same_slot(o.jobs@[j as int], o.jobs@[i as int]));
                        return Err(QueueError::DuplicateActive);
                    },
                    None => {},
                }
            },
            None => {},
        }
    }
    let delay = retry_delay_secs(attempts);
    queue.jobs[i].status = JobState::Retry;
    queue.jobs[i].last_error = Some(error.to_string());
    queue.jobs[i].scheduled_at = later_time(now, delay);
    queue.jobs[i].locked_at = None;
    queue.jobs[i].locked_by = None;
    queue.jobs[i].updated_at = now;
    proof {
        assert(queue.jobs@ =~= o.jobs@.update(i as int, queue.jobs@[i as int]));
        if !is_active(o.jobs@[i as int].status) {
            assert forall|j: int|
                0 <= j < o.jobs@.len() && j != i && is_active(#[trigger] o.jobs@[j].status)
                    implies !same_slot(o.jobs@[j], queue.jobs@[i as int]) by {
                if o.jobs@[i as int].dedup_key is Some && same_slot(o.jobs@[j], queue.jobs@[i as int]) {
                    assert(holds_slot(o.jobs@[j], o.jobs@[i as int].job_type@, o.jobs@[i as int].dedup_key->0@));
                }
            }
        }
        lemma_update_keeps_wf(o, *queue, i as int);
    }
    Ok(())
}

/// A running job whose lease is older than the timeout.
pub open spec fn stuck(r: JobRecord, now: i64, timeout_secs: u64) -> bool {
    &&& r.status == JobState::Running
    &&& r.locked_at is Some
    &&& (r.locked_at->0 as int) < (now as int) - (timeout_secs as int)
}

/// A stuck row after recovery: failed when out of attempts, else due to retry now.
pub open spec fn recovered(o: JobRecord, n: JobRecord, now: i64) -> bool {
    &&& released(o, n, now)
    &&& n.last_error is Some && n.last_error->0@ == "timeout"@
    &&& n.result == o.result
    &&& if o.attempts >= o.max_attempts {
        n.status == JobState::Failed && n.scheduled_at == o.scheduled_at
    } else {
        n.status == JobState::Retry && n.scheduled_at == now
    }
}

/// How many stuck rows are out of attempts (`exhausted`) or not.
pub open spec fn count_stuck(s: Seq<JobRecord>, now: i64, timeout_secs: u64, exhausted: bool) -> nat
    decreases s.len(),
{
    if s.len() == 0 {
        0
    } else {
        let x = s.last();
        count_stuck(s.drop_last(), now, timeout_secs, exhausted) + if stuck(x, now, timeout_secs)
            && ((x.attempts >= x.max_attempts) == exhausted) {
            1nat
        } else {
            0nat
        }
    }
}

/// Recovers jobs whose worker went away: every running job leased before
/// `now - timeout_secs` fails with "timeout" when out of attempts and is
/// otherwise due to retry at once. Returns how many were retried and how many
/// failed. A zero timeout turns recovery off.
pub fn requeue_stuck_jobs(queue: &mut JobQueue, timeout_secs: u64, now: i64) -> (r: (u64, u64))
    requires
        old(queue).wf(),
    ensures
        final(queue).wf(),
        timeout_secs == 0 ==> *final(queue) == *old(queue) && r == (0u64, 0u64),
        timeout_secs > 0 ==> {
            &&& final(queue).next_id == old(queue).next_id
            &&& final(queue).jobs@.len() == old(queue).jobs@.len()
            &&& forall|i: int|
                0 <= i < old(queue).jobs@.len() ==> if stuck(#[trigger] old(queue).jobs@[i], now, timeout_secs) {
                    recovered(old(queue).jobs@[i], final(queue).jobs@[i], now)
                } else {
                    final(queue).jobs@[i] == old(queue).jobs@[i]
                }
            &&& r.0 == count_stuck(old(queue).jobs@, now, timeout_secs, false)
            &&& r.1 == count_stuck(old(queue).jobs@, now, timeout_secs, true)
        },
{
    if timeout_secs == 0 {
        return (0, 0);
    }
    let cutoff: i128 = now as i128 - timeout_secs as i128;
    let ghost start = *queue;
    let mut retried: u64 = 0;
    let mut failed: u64 = 0;
    let mut i: usize = 0;
    while i < queue.jobs.len()
        invariant
            queue.wf(),
            start.wf(),
            cutoff == now - timeout_secs,
            i <= queue.jobs@.len(),
            queue.next_id == start.next_id,
            queue.jobs@.len() == start.jobs@.len(),
            forall|k: int|
                0 <= k < i ==> if stuck(#[trigger] start.jobs@[k], now, timeout_secs) {
                    recovered(start.jobs@[k], queue.jobs@[k], now)
                } else {
                    queue.jobs@[k] == start.jobs@[k]
                },
            forall|k: int| i <= k < queue.jobs@.len() ==> queue.jobs@[k] == start.jobs@[k],
            retried == count_stuck(start.jobs@.subrange(0, i as int), now, timeout_secs, false),
            failed == count_stuck(start.jobs@.subrange(0, i as int), now, timeout_secs, true),
            retried + failed <= i,
        decreases queue.jobs.len() - i,
    {
        assert(start.jobs@.subrange(0, i + 1).drop_last() =~= start.jobs@.subrange(0, i as int));
        assert(queue.jobs@[i as int] == start.jobs@[i as int]);
        let is_stuck = queue.jobs[i].status == JobState::Running && match queue.jobs[i].locked_at {
            Some(t) => (t as i128) < cutoff,
            None => false,
        };
        if is_stuck {
            let ghost o = *queue;
            if queue.jobs[i].attempts >= queue.jobs[i].max_attempts {
                queue.jobs[i].status = JobState::Failed;
                failed = failed + 1;
            } else {
                queue.jobs[i].status = JobState::Retry;
                queue.jobs[i].scheduled_at = now;
                retried = retried + 1;
            }
            queue.jobs[i].last_error = Some("timeout".to_string());
            queue.jobs[i].locked_at = None;
            queue.jobs[i].locked_by = None;
            queue.jobs[i].updated_at = now;
            proof {
                assert(queue.jobs@ =~= o.jobs@.update(i as int, queue.jobs@[i as int]));
                lemma_update_keeps_wf(o, *queue, i as int);
            }
        }
        i = i + 1;
    }
    assert(start.jobs@.subrange(0, i as int) =~= start.jobs@);
    (retried, failed)
}

/// A finished row last touched before the retention window.
pub open spec fn expired(r: JobRecord, now: i64, retention_hours: u64) -> bool {
    &&& (r.status == JobState::Done || r.status == JobState::Failed)
    &&& (r.updated_at as int) < (now as int) - 3600 * (retention_hours as int)
}

/// The rows that a retention sweep keeps, in order.
pub open spec fn survivors(s: Seq<JobRecord>, now: i64, retention_hours: u64) -> Seq<JobRecord>
    decreases s.len(),
{
    if s.len() == 0 {
        s
    } else {
        let k = survivors(s.drop_last(), now, retention_hours);
        if expired(s.last(), now, retention_hours) {
            k
        } else {
            k.push(s.last())
        }
    }
}

proof fn lemma_survivors_sub(s: Seq<JobRecord>, now: i64, h: u64)
    ensures
        survivors(s, now, h).len() <= s.len(),
        forall|j: int| 0 <= j < survivors(s, now, h).len() ==> exists|i: int|
            0 <= i < s.len() && s[i] == #[trigger] survivors(s, now, h)[j],
        forall|a: int, b: int| 0 <= a < b < survivors(s, now, h).len() ==> exists|x: int, y: int|
            0 <= x < y < s.len() && s[x] == #[trigger] survivors(s, now, h)[a] && s[y] == #[trigger] survivors(s, now, h)[b],
    decreases s.len(),
{
    if s.len() > 0 {
        let t = s.drop_last();
        lemma_survivors_sub(t, now, h);
        let k = survivors(t, now, h);
        assert forall|j: int| 0 <= j < survivors(s, now, h).len() implies exists|i: int|
            0 <= i < s.len() && s[i] == #[trigger] survivors(s, now, h)[j] by {
            if j < k.len() {
                let i = choose|i: int| 0 <= i < t.len() && t[i] == k[j];
                assert(s[i] == t[i]);
            } else {
                assert(s[s.len() - 1] == survivors(s, now, h)[j]);
            }
        }
        assert forall|a: int, b: int| 0 <= a < b < survivors(s, now, h).len() implies exists|x: int, y: int|
            0 <= x < y < s.len() && s[x] == #[trigger] survivors(s, now, h)[a] && s[y] == #[trigger] survivors(s, now, h)[b] by {
            if b < k.len() {
                let (x, y) = choose|x: int, y: int| 0 <= x < y < t.len() && t[x] == k[a] && t[y] == k[b];
                assert(s[x] == t[x] && s[y] == t[y]);
            } else {
                let x = choose|x: int| 0 <= x < t.len() && t[x] == k[a];
                assert(s[x] == t[x]);
                assert(s[s.len() - 1] == survivors(s, now, h)[b]);
            }
        }
    }
}

/// Deletes finished jobs (done or failed) last updated more than
/// `retention_hours` before `now`, and returns how many went. Zero hours
/// turns the sweep off.
pub fn cleanup_jobs(queue: &mut JobQueue, retention_hours: u64, now: i64) -> (r: u64)
    requires
        old(queue).wf(),
    ensures
        final(queue).wf(),
        retention_hours == 0 ==> *final(queue) == *old(queue) && r == 0,
        retention_hours > 0 ==> {
            &&& final(queue).next_id == old(queue).next_id
            &&& final(queue).jobs@ == survivors(old(queue).jobs@, now, retention_hours)
            &&& r == old(queue).jobs@.len() - final(queue).jobs@.len()
        },
{
    if retention_hours == 0 {
        return 0;
    }
    let cutoff: i128 = now as i128 - 3600 * (retention_hours as i128);
    let ghost start = *queue;
    let mut old_jobs: Vec<JobRecord> = Vec::new();
    std::mem::swap(&mut queue.jobs, &mut old_jobs);
    assert(old_jobs@ == start.jobs@);
    let mut kept_rows: Vec<JobRecord> = Vec::new();
    let mut removed: u64 = 0;
    let mut src = old_jobs;
    let ghost all = src@;
    let mut i: usize = 0;
    let n = src.len();
    proof {
        assert(all.subrange(0, 0) =~= Seq::<JobRecord>::empty());
    }
    while i < n
        invariant
            n == all.len(),
            i <= n,
            all == start.jobs@,
            cutoff == now - 3600 * retention_hours,
            kept_rows@ == survivors(all.subrange(0, i as int), now, retention_hours),
            removed + kept_rows@.len() == i,
            src@.len() == n,
            forall|k: int| i <= k < n ==> src@[k] == all[k],
        decreases n - i,
    {
        assert(all.subrange(0, i + 1).drop_last() =~= all.subrange(0, i as int));
        assert(all.subrange(0, i + 1).last() == all[i as int]);
        let mut row = placeholder_row();
        std::mem::swap(&mut src[i], &mut row);
        assert(row == all[i as int]);
        let finished = row.status == JobState::Done || row.status == JobState::Failed;
        if finished && (row.updated_at as i128) < cutoff {
            removed = removed + 1;
        } else {
            kept_rows.push(row);
        }
        i = i + 1;
    }
    assert(all.subrange(0, n as int) =~= all);
    queue.jobs = kept_rows;
    proof {
        lemma_survivors_sub(all, now, retention_hours);
        let s = queue.jobs@;
        assert forall|j: int| 0 <= j < s.len() implies 1 <= (#[trigger] s[j]).id < queue.next_id && row_ok(s[j]) by {
            let x = choose|x: int| 0 <= x < all.len() && all[x] == s[j];
            assert(1 <= all[x].id < start.next_id);
        }
        assert forall|a: int, b: int| 0 <= a < b < s.len() implies (#[trigger] s[a]).id < (#[trigger] s[b]).id by {
            let (x, y) = choose|x: int, y: int| 0 <= x < y < all.len() && all[x] == s[a] && all[y] == s[b];
            assert(all[x].id < all[y].id);
        }
        assert forall|a: int, b: int|
            0 <= a < s.len() && 0 <= b < s.len() && a != b && is_active(#[trigger] s[a].status)
                && is_active(#[trigger] s[b].status) implies !same_slot(s[a], s[b]) by {
            if a < b {
                let (x, y) = choose|x: int, y: int| 0 <= x < y < all.len() && all[x] == s[a] && all[y] == s[b];
                assert(!same_slot(all[x], all[y]));
            } else {
                let (x, y) = choose|x: int, y: int| 0 <= x < y < all.len() && all[x] == s[b] && all[y] == s[a];
                assert(!same_slot(all[y], all[x]));
            }
        }
    }
    removed
}

fn placeholder_row() -> JobRecord {
    JobRecord {
        id: 0,
        job_type: String::new(),
        status: JobState::Done,
        payload: String::new(),
        attempts: 0,
        max_attempts: 0,
        scheduled_at: 0,
        locked_at: None,
        locked_by: None,
        dedup_key: None,
        result: None,
        last_error: None,
        created_at: 0,
        updated_at: 0,
    }
}

/// The client-facing snapshot of a job, if it exists.
pub fn get_job_status(queue: &JobQueue, job_id: i64) -> (r: Option<JobStatus>)
    ensures
        r is None <==> !has_id(*queue, job_id),
        r matches Some(st) ==> exists|i: int| {
            &&& row_of(*queue, job_id, i)
            &&& st.id == job_id
            &&& st.job_type == (#[trigger] queue.jobs@[i]).job_type
            &&& st.status == queue.jobs@[i].status
            &&& st.attempts == queue.jobs@[i].attempts
            &&& st.max_attempts == queue.jobs@[i].max_attempts
            &&& st.result == queue.jobs@[i].result
            &&& st.last_error == queue.jobs@[i].last_error
        },
{
    match find_row(&queue.jobs, job_id) {
        None => None,
        Some(i) => {
            let row = &queue.jobs[i];
            Some(
                JobStatus {
                    id: row.id,
                    job_type: row.job_type.clone(),
                    status: row.status,
                    attempts: row.attempts,
                    max_attempts: row.max_attempts,
                    result: copy_opt(&row.result),
                    last_error: copy_opt(&row.last_error),
                },
            )
        },
    }
}

} // verus!
