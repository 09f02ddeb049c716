use crate::job::{Job, JobStatus, JobView};
use crate::text::{str_eq, texts};
use vstd::prelude::*;

verus! {

/// No two jobs of a list carry the same identifier.
pub open spec fn distinct_ids(jobs: Seq<JobView>) -> bool {
    forall|i: int, j: int| 0 <= i < j < jobs.len() ==> jobs[i].id != jobs[j].id
}

/// Whether a list holds a job with the given identifier.
pub open spec fn has_id(jobs: Seq<JobView>, id: Seq<char>) -> bool {
    exists|i: int| 0 <= i < jobs.len() && jobs[i].id == id
}

/// A place at which a list holds a job with the given identifier.
pub open spec fn position(jobs: Seq<JobView>, id: Seq<char>) -> int {
    choose|i: int| 0 <= i < jobs.len() && jobs[i].id == id
}

/// The map from identifier to job that a list of jobs stands for.
pub open spec fn entries(jobs: Seq<JobView>) -> Map<Seq<char>, JobView> {
    Map::new(|id: Seq<char>| has_id(jobs, id), |id: Seq<char>| jobs[position(jobs, id)])
}

/// The contents of a list of jobs.
pub open spec fn job_views(jobs: Seq<Job>) -> Seq<JobView> {
    jobs.map_values(|j: Job| j@)
}

/// In a list without repeated identifiers, each job is the entry of its own
/// identifier.
pub proof fn lemma_entry_at(jobs: Seq<JobView>, i: int)
    requires
        distinct_ids(jobs),
        0 <= i < jobs.len(),
    ensures
        entries(jobs).contains_key(jobs[i].id),
        entries(jobs)[jobs[i].id] == jobs[i],
{
    assert(has_id(jobs, jobs[i].id));
    let p = position(jobs, jobs[i].id);
    assert(p == i);
}

/// Each entry is a job that carries the identifier under which it is found.
pub proof fn lemma_entries_keyed_by_id(jobs: Seq<JobView>, id: Seq<char>)
    requires
        entries(jobs).contains_key(id),
    ensures
        entries(jobs)[id].id == id,
{
}

/// A job with a new identifier, put at the end, is one more entry.
pub proof fn lemma_entries_push(jobs: Seq<JobView>, job: JobView)
    requires
        distinct_ids(jobs),
        !has_id(jobs, job.id),
    ensures
        distinct_ids(jobs.push(job)),
        entries(jobs.push(job)) == entries(jobs).insert(job.id, job),
{
    let after = jobs.push(job);
    assert(distinct_ids(after)) by {
        assert forall|i: int, j: int| 0 <= i < j < after.len() implies after[i].id != after[j].id by {
            if j == jobs.len() {
                assert(jobs[i].id != job.id);
            }
        }
    }
    assert forall|id: Seq<char>| has_id(after, id) <==> (id == job.id || has_id(jobs, id)) by {
        if has_id(after, id) {
            let p = position(after, id);
            if p < jobs.len() {
                assert(jobs[p].id == id);
            }
        }
        if id == job.id {
            assert(after[jobs.len() as int].id == id);
        }
        if has_id(jobs, id) {
            let p = position(jobs, id);
            assert(after[p].id == id);
        }
    }
    assert forall|id: Seq<char>| has_id(after, id) implies entries(after)[id] == entries(jobs).insert(
        job.id,
        job,
    )[id] by {
        let p = position(after, id);
        lemma_entry_at(after, p);
        if p < jobs.len() {
            lemma_entry_at(jobs, p);
        }
    }
    assert(entries(after) =~= entries(jobs).insert(job.id, job));
}

/// Taking one job out, and putting the last job in its place, takes its entry
/// out and leaves the others.
pub proof fn lemma_entries_swap_remove(jobs: Seq<JobView>, i: int)
    requires
        distinct_ids(jobs),
        0 <= i < jobs.len(),
    ensures
        distinct_ids(jobs.update(i, jobs.last()).drop_last()),
        entries(jobs.update(i, jobs.last()).drop_last()) == entries(jobs).remove(jobs[i].id),
{
    let after = jobs.update(i, jobs.last()).drop_last();
    let n = jobs.len() - 1;
    assert forall|a: int| 0 <= a < after.len() implies after[a] == jobs[if a == i {
        n
    } else {
        a
    }] by {}
    assert(distinct_ids(after)) by {
        assert forall|a: int, b: int| 0 <= a < b < after.len() implies after[a].id != after[b].id by {
            let x = if a == i { n } else { a };
            let y = if b == i { n } else { b };
            assert(after[a] == jobs[x]);
            assert(after[b] == jobs[y]);
        }
    }
    assert forall|id: Seq<char>| has_id(after, id) <==> (id != jobs[i].id && has_id(jobs, id)) by {
        if has_id(after, id) {
            let p = position(after, id);
            let x = if p == i { n } else { p };
            assert(jobs[x].id == id);
        }
        if id != jobs[i].id && has_id(jobs, id) {
            let p = position(jobs, id);
            let x = if p == n { i } else { p };
            assert(after[x].id == id);
        }
    }
    assert forall|id: Seq<char>| has_id(after, id) implies entries(after)[id] == entries(jobs)[id] by {
        let p = position(after, id);
        let x = if p == i { n } else { p };
        assert(after[p] == jobs[x]);
        lemma_entry_at(after, p);
        lemma_entry_at(jobs, x);
    }
    assert(entries(after) =~= entries(jobs).remove(jobs[i].id));
}

/// A list without repeated identifiers has as many entries as jobs.
pub proof fn lemma_entries_len(jobs: Seq<JobView>)
    requires
        distinct_ids(jobs),
    ensures
        entries(jobs).dom().finite(),
        entries(jobs).dom().len() == jobs.len(),
    decreases jobs.len(),
{
    if jobs.len() == 0 {
        assert(entries(jobs).dom() =~= Set::<Seq<char>>::empty());
    } else {
        let front = jobs.drop_last();
        let last = jobs.last();
        assert(jobs =~= front.push(last));
        assert(distinct_ids(front)) by {
            assert forall|i: int, j: int| 0 <= i < j < front.len() implies front[i].id != front[j].id by {
                assert(front[i] == jobs[i]);
                assert(front[j] == jobs[j]);
            }
        }
        assert(!has_id(front, last.id)) by {
            if has_id(front, last.id) {
                let p = position(front, last.id);
                assert(jobs[p].id == jobs[jobs.len() - 1].id);
            }
        }
        lemma_entries_len(front);
        lemma_entries_push(front, last);
        assert(entries(jobs).dom() =~= entries(front).dom().insert(last.id));
        assert(!entries(front).dom().contains(last.id));
    }
}

/// The age of a job at time `now`, in milliseconds; a job admitted after
/// `now` has age 0.
pub open spec fn age(job: JobView, now: u64) -> int {
    if now >= job.created_at {
        now - job.created_at
    } else {
        0
    }
}

/// A job has expired once its age has reached the time to live, whatever its
/// status.
pub open spec fn expired(job: JobView, now: u64, ttl: u64) -> bool {
    age(job, now) >= ttl
}

/// What a sweep at time `now` leaves of a table.
pub open spec fn swept(table: Map<Seq<char>, JobView>, now: u64, ttl: u64) -> Map<
    Seq<char>,
    JobView,
> {
    Map::new(
        |id: Seq<char>| table.contains_key(id) && !expired(table[id], now, ttl),
        |id: Seq<char>| table[id],
    )
}

/// A job after the dispatcher has finished its fetch.
pub open spec fn completed(job: JobView, contract: Option<crate::record::RecordView>) -> JobView {
    JobView {
        id: job.id,
        status: JobStatus::Complete,
        address: job.address,
        contract: contract,
        created_at: job.created_at,
    }
}

/// What a table is after the fetch for `id` has ended: a pending job becomes
/// complete and takes the outcome; anything else is left alone.
pub open spec fn finished(
    table: Map<Seq<char>, JobView>,
    id: Seq<char>,
    contract: Option<crate::record::RecordView>,
) -> Map<Seq<char>, JobView> {
    if table.contains_key(id) && table[id].status == JobStatus::Pending {
        table.insert(id, completed(table[id], contract))
    } else {
        table
    }
}

/// The jobs of a table that a list of identifiers names, in the order of the
/// list; identifiers without a job are passed over.
pub open spec fn polled(table: Map<Seq<char>, JobView>, ids: Seq<Seq<char>>) -> Seq<JobView>
    decreases ids.len(),
{
    if ids.len() == 0 {
        Seq::empty()
    } else if table.contains_key(ids.last()) {
        polled(table, ids.drop_last()).push(table[ids.last()])
    } else {
        polled(table, ids.drop_last())
    }
}

/// The job table: the jobs of this process, at most one for each identifier.
pub struct JobTable {
    jobs: Vec<Job>,
}

impl View for JobTable {
    type V = Map<Seq<char>, JobView>;

    open spec fn view(&self) -> Map<Seq<char>, JobView> {
        entries(self.jobs())
    }
}

impl JobTable {
    /// The stored jobs, in no particular order.
    pub closed spec fn jobs(&self) -> Seq<JobView> {
        job_views(self.jobs@)
    }

    /// No identifier is stored twice.
    pub closed spec fn wf(&self) -> bool {
        distinct_ids(self.jobs())
    }

    /// An empty table.
    pub fn new() -> (t: Self)
        ensures
            t.wf(),
            t@ == Map::<Seq<char>, JobView>::empty(),
            t.jobs().len() == 0,
    {
        let t = JobTable { jobs: Vec::new() };
        assert(t@ =~= Map::<Seq<char>, JobView>::empty());
        t
    }

    /// The number of jobs.
    pub fn len(&self) -> (n: usize)
        requires
            self.wf(),
        ensures
            self@.dom().finite(),
            n == self@.dom().len(),
            n == self.jobs().len(),
    {
        proof {
            lemma_entries_len(self.jobs());
        }
        self.jobs.len()
    }

    fn find(&self, id: &str) -> (r: Option<usize>)
        ensures
            match r {
                Some(i) => i < self.jobs().len() && self.jobs()[i as int].id == id@,
                None => !has_id(self.jobs(), id@),
            },
    {
        let mut i: usize = 0;
        while i < self.jobs.len()
            invariant
                i <= self.jobs@.len(),
                forall|k: int| 0 <= k < i ==> self.jobs()[k].id != id@,
            decreases self.jobs@.len() - i,
        {
            if str_eq(self.jobs[i].id.as_str(), id) {
                return Some(i);
            }
            i += 1;
        }
        None
    }

    /// Tells whether a job with this identifier is in the table.
    pub fn contains(&self, id: &str) -> (r: bool)
        requires
            self.wf(),
        ensures
            r == self@.contains_key(id@),
    {
        self.find(id).is_some()
    }

    /// The job with this identifier, if the table holds one.
    pub fn get(&self, id: &str) -> (r: Option<&Job>)
        requires
            self.wf(),
        ensures
            match r {
                Some(job) => self@.contains_key(id@) && job@ == self@[id@],
                None => !self@.contains_key(id@),
            },
    {
        match self.find(id) {
            Some(i) => {
                proof {
                    lemma_entry_at(self.jobs(), i as int);
                }
                Some(&self.jobs[i])
            },
            None => None,
        }
    }

    /// Puts a job into the table unless one with its identifier is there;
    /// tells whether it did.
    pub fn insert(&mut self, job: Job) -> (inserted: bool)
        requires
            old(self).wf(),
        ensures
            final(self).wf(),
            inserted == !old(self)@.contains_key(job.id@),
            final(self)@ == if inserted {
                old(self)@.insert(job.id@, job@)
            } else {
                old(self)@
            },
    {
        if self.find(job.id.as_str()).is_some() {
            return false;
        }
        proof {
            lemma_entries_push(self.jobs(), job@);
            assert(job_views(self.jobs@.push(job)) =~= self.jobs().push(job@));
        }
        self.jobs.push(job);
        true
    }

    /// Ends the fetch for a job: a pending job becomes complete and takes
    /// the outcome, both at once. Tells whether the table changed.
    pub fn complete(&mut self, id: &str, contract: Option<crate::record::ContractRecord>) -> (changed:
        bool)
        requires
            old(self).wf(),
        ensures
            final(self).wf(),
            changed == (old(self)@.contains_key(id@) && old(self)@[id@].status
                == JobStatus::Pending),
            final(self)@ == finished(old(self)@, id@, crate::job::opt_record(contract)),
    {
        let found = self.find(id);
        match found {
            None => false,
            Some(i) => {
                proof {
                    lemma_entry_at(self.jobs(), i as int);
                }
                match self.jobs[i].status {
                    JobStatus::Complete => false,
                    JobStatus::Pending => {
                        let ghost before = self.jobs();
                        proof {
                            lemma_entries_swap_remove(before, i as int);
                        }
                        let job = self.jobs.swap_remove(i);
                        let ghost between = self.jobs();
                        assert(between =~= before.update(i as int, before.last()).drop_last());
                        let done = Job {
                            id: job.id,
                            status: JobStatus::Complete,
                            address: job.address,
                            contract: contract,
                            created_at: job.created_at,
                        };
                        proof {
                            assert(!has_id(between, done@.id));
                            lemma_entries_push(between, done@);
                            assert(job_views(self.jobs@.push(done)) =~= between.push(done@));
                            assert(entries(before).remove(id@).insert(id@, done@) =~= entries(
                                before,
                            ).insert(id@, done@));
                        }
                        self.jobs.push(done);
                        true
                    },
                }
            },
        }
    }

    fn job_expired(job: &Job, now: u64, ttl: u64) -> (r: bool)
        ensures
            r == expired(job@, now, ttl),
    {
        let age: u64 = if now >= job.created_at {
            now - job.created_at
        } else {
            0
        };
        age >= ttl
    }

    /// Sweeps the table at time `now`: every job whose age has reached `ttl`
    /// leaves, pending or complete, and the others stay as they are. Returns
    /// the number of jobs that left.
    pub fn reap(&mut self, now: u64, ttl: u64) -> (removed: usize)
        requires
            old(self).wf(),
        ensures
            final(self).wf(),
            final(self)@ == swept(old(self)@, now, ttl),
            final(self)@.dom().finite(),
            old(self)@.dom().finite(),
            removed == old(self)@.dom().len() - final(self)@.dom().len(),
    {
        let ghost before = self@;
        let total = self.jobs.len();
        let ghost count = total as int;
        proof {
            lemma_entries_len(self.jobs());
        }
        let mut removed: usize = 0;
        let mut i: usize = 0;
        while i < self.jobs.len()
            invariant
                self.wf(),
                i <= self.jobs().len(),
                removed + self.jobs().len() == count,
                count <= usize::MAX,
                forall|k: int| 0 <= k < i ==> !expired(#[trigger] self.jobs()[k], now, ttl),
                forall|id: Seq<char>| #[trigger]
                    self@.contains_key(id) ==> before.contains_key(id) && self@[id] == before[id],
                forall|id: Seq<char>|
                    before.contains_key(id) && !expired(before[id], now, ttl)
                        ==> #[trigger] self@.contains_key(id),
            decreases self.jobs().len() - i,
        {
            if Self::job_expired(&self.jobs[i], now, ttl) {
                let ghost list = self.jobs();
                let ghost prev = self@;
                proof {
                    lemma_entry_at(list, i as int);
                    lemma_entries_swap_remove(list, i as int);
                }
                self.jobs.swap_remove(i);
                assert(self.jobs() =~= list.update(i as int, list.last()).drop_last());
                assert(self@ == prev.remove(list[i as int].id));
                assert forall|id: Seq<char>| #[trigger] self@.contains_key(id) implies before.contains_key(
                    id,
                ) && self@[id] == before[id] by {
                    assert(prev.contains_key(id));
                }
                assert forall|id: Seq<char>|
                    before.contains_key(id) && !expired(before[id], now, ttl) implies #[trigger] self@.contains_key(
                    id,
                ) by {
                    assert(prev.contains_key(id));
                }
                removed += 1;
            } else {
                i += 1;
            }
        }
        proof {
            lemma_entries_len(self.jobs());
            assert forall|id: Seq<char>| #[trigger] self@.contains_key(id) implies !expired(
                before[id],
                now,
                ttl,
            ) by {
                let p = position(self.jobs(), id);
                lemma_entry_at(self.jobs(), p);
            }
            assert(self@ =~= swept(before, now, ttl));
        }
        removed
    }

    /// The jobs that a list of identifiers names, copied out in the order of
    /// the list. An identifier without a job is passed over.
    pub fn poll(&self, ids: &Vec<String>) -> (found: Vec<Job>)
        requires
            self.wf(),
        ensures
            job_views(found@) == polled(self@, texts(ids@)),
    {
        let mut found: Vec<Job> = Vec::new();
        let mut k: usize = 0;
        assert(texts(ids@).take(0) =~= Seq::<Seq<char>>::empty());
        while k < ids.len()
            invariant
                self.wf(),
                k <= ids@.len(),
                job_views(found@) == polled(self@, texts(ids@).take(k as int)),
            decreases ids@.len() - k,
        {
            let ghost done = texts(ids@).take(k as int);
            let ghost next = texts(ids@).take(k + 1);
            assert(next.drop_last() =~= done);
            assert(next.last() == ids@[k as int]@);
            match self.get(ids[k].as_str()) {
                Some(job) => {
                    let copy = job.clone();
                    assert(job_views(found@.push(copy)) =~= job_views(found@).push(copy@));
                    found.push(copy);
                },
                None => {},
            }
            k += 1;
        }
        assert(texts(ids@).take(ids@.len() as int) =~= texts(ids@));
        found
    }
}

/// The number of pending jobs that a list holds for an identifier.
pub open spec fn pending_count(jobs: Seq<JobView>, id: Seq<char>) -> nat
    decreases jobs.len(),
{
    if jobs.len() == 0 {
        0
    } else {
        let rest = pending_count(jobs.drop_last(), id);
        if jobs.last().id == id && jobs.last().status == JobStatus::Pending {
            rest + 1
        } else {
            rest
        }
    }
}

/// A list that holds no job for an identifier holds no pending one.
pub proof fn lemma_absent_id_counts_zero(jobs: Seq<JobView>, id: Seq<char>)
    requires
        !has_id(jobs, id),
    ensures
        pending_count(jobs, id) == 0,
    decreases jobs.len(),
{
    if jobs.len() > 0 {
        assert(jobs[jobs.len() - 1].id != id);
        assert(!has_id(jobs.drop_last(), id)) by {
            if has_id(jobs.drop_last(), id) {
                let p = position(jobs.drop_last(), id);
                assert(jobs[p].id == id);
            }
        }
        lemma_absent_id_counts_zero(jobs.drop_last(), id);
    }
}

/// In a list without repeated identifiers no identifier has two pending
/// jobs; it has one exactly when its entry is pending.
pub proof fn lemma_pending_count(jobs: Seq<JobView>, id: Seq<char>)
    requires
        distinct_ids(jobs),
    ensures
        pending_count(jobs, id) <= 1,
        pending_count(jobs, id) == 1 <==> entries(jobs).contains_key(id) && entries(jobs)[id].status
            == JobStatus::Pending,
    decreases jobs.len(),
{
    if jobs.len() == 0 {
        assert(!has_id(jobs, id));
    } else {
        let front = jobs.drop_last();
        let last = jobs.last();
        assert(jobs =~= front.push(last));
        assert(distinct_ids(front)) by {
            assert forall|i: int, j: int| 0 <= i < j < front.len() implies front[i].id != front[j].id by {
                assert(front[i] == jobs[i]);
                assert(front[j] == jobs[j]);
            }
        }
        assert(!has_id(front, last.id)) by {
            if has_id(front, last.id) {
                let p = position(front, last.id);
                assert(jobs[p].id == jobs[jobs.len() - 1].id);
            }
        }
        lemma_entries_push(front, last);
        if last.id == id {
            lemma_absent_id_counts_zero(front, id);
        } else {
            lemma_pending_count(front, id);
        }
    }
}

/// Reaping goes by age alone. A job stays in the table, unchanged, while
/// `now` is short of its admission time plus the time to live; from that
/// moment on a sweep takes it out. Its status plays no part. (With a time to
/// live of zero a sweep takes every job, also one admitted after `now`.)
pub proof fn lemma_reaping_is_age_only(table: Map<Seq<char>, JobView>, id: Seq<char>, now: u64, ttl: u64)
    requires
        table.contains_key(id),
        ttl > 0 || table[id].created_at <= now,
    ensures
        now < table[id].created_at + ttl ==> swept(table, now, ttl).contains_key(id) && swept(
            table,
            now,
            ttl,
        )[id] == table[id],
        now >= table[id].created_at + ttl ==> !swept(table, now, ttl).contains_key(id),
{
}

/// Whether a sweep takes a job does not depend on the job's status.
pub proof fn lemma_expiry_ignores_status(job: JobView, other: JobView, now: u64, ttl: u64)
    requires
        job.created_at == other.created_at,
    ensures
        expired(job, now, ttl) == expired(other, now, ttl),
{
}

/// The end of a fetch is final: a job that is complete is not changed by the
/// end of another fetch for its identifier.
pub proof fn lemma_completion_is_final(
    table: Map<Seq<char>, JobView>,
    id: Seq<char>,
    first: Option<crate::record::RecordView>,
    second: Option<crate::record::RecordView>,
)
    ensures
        finished(finished(table, id, first), id, second) == finished(table, id, first),
{
}

impl JobTable {
    /// At every moment the table holds at most one pending job for an
    /// identifier, and so for a contract on a chain; the job that is found
    /// under an identifier carries it.
    pub proof fn lemma_one_pending_job_per_key(&self, id: Seq<char>)
        requires
            self.wf(),
        ensures
            pending_count(self.jobs(), id) <= 1,
            pending_count(self.jobs(), id) == 1 <==> self@.contains_key(id) && self@[id].status
                == JobStatus::Pending,
            self@.contains_key(id) ==> self@[id].id == id,
    {
        lemma_pending_count(self.jobs(), id);
        if self@.contains_key(id) {
            lemma_entries_keyed_by_id(self.jobs(), id);
        }
    }
}

} // verus!