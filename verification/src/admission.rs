use crate::config::{chain_id_of, get_chain_id, MAX_BATCH};
use crate::error::ApiError;
use crate::job::{job_id, job_id_of, pending_job, request_for, FetchRequest, Job, JobStatus, JobView, RequestView};
use crate::queue::FetchQueue;
use crate::record::{redacted, stale, ContractRecord, RecordView, RedactedRecord, RedactedView};
use crate::table::JobTable;
use crate::text::{blank, is_blank, lemma_filter_agrees, lemma_filter_keeps_nothing, str_eq, texts};
use vstd::prelude::*;

verus! {

/// Whether some text of a list is blank.
pub open spec fn any_blank(list: Seq<Seq<char>>) -> bool {
    exists|i: int| 0 <= i < list.len() && blank(list[i])
}

/// The verdict on a batch before any work: the chain's numeric identifier, or
/// the reason for which the batch is turned away.
pub open spec fn batch_verdict(chain: Seq<char>, addresses: Seq<Seq<char>>) -> Result<u32, ApiError> {
    if blank(chain) || addresses.len() == 0 {
        Err(ApiError::InvalidInput)
    } else if addresses.len() > MAX_BATCH {
        Err(ApiError::PayloadTooLarge)
    } else if any_blank(addresses) {
        Err(ApiError::InvalidInput)
    } else {
        match chain_id_of(chain) {
            Some(id) => Ok(id),
            None => Err(ApiError::UnknownChain),
        }
    }
}

/// Tells whether some text of a list is blank.
pub fn has_blank(list: &Vec<String>) -> (r: bool)
    ensures
        r == any_blank(texts(list@)),
{
    let mut i: usize = 0;
    while i < list.len()
        invariant
            i <= list@.len(),
            forall|k: int| 0 <= k < i ==> !blank(#[trigger] texts(list@)[k]),
        decreases list@.len() - i,
    {
        if is_blank(list[i].as_str()) {
            assert(blank(texts(list@)[i as int]));
            return true;
        }
        i += 1;
    }
    false
}

/// Checks a batch before any work is done for it and resolves its chain.
pub fn validate_batch(chain: &str, addresses: &Vec<String>) -> (r: Result<u32, ApiError>)
    ensures
        r == batch_verdict(chain@, texts(addresses@)),
{
    if is_blank(chain) || addresses.len() == 0 {
        return Err(ApiError::InvalidInput);
    }
    if addresses.len() > MAX_BATCH {
        return Err(ApiError::PayloadTooLarge);
    }
    if has_blank(addresses) {
        return Err(ApiError::InvalidInput);
    }
    match get_chain_id(chain) {
        Some(id) => Ok(id),
        None => Err(ApiError::UnknownChain),
    }
}

/// The contents of a list of records.
pub open spec fn record_views(list: Seq<ContractRecord>) -> Seq<RecordView> {
    list.map_values(|r: ContractRecord| r@)
}

/// The contents of a list of redacted records.
pub open spec fn redacted_views(list: Seq<RedactedRecord>) -> Seq<RedactedView> {
    list.map_values(|r: RedactedRecord| r@)
}

/// Whether the store holds no record at all for an address.
pub open spec fn missing(address: Seq<char>, found: Seq<RecordView>) -> bool {
    forall|k: int| 0 <= k < found.len() ==> (#[trigger] found[k]).address != address
}

/// Whether an address is to be fetched: the store holds no record for it that
/// is fresh. That is so when it holds none, and when what it holds is stale.
pub open spec fn needs_fetch(address: Seq<char>, found: Seq<RecordView>, now: u64, window: u64) -> bool {
    forall|k: int|
        0 <= k < found.len() && (#[trigger] found[k]).address == address ==> stale(
            found[k],
            now,
            window,
        )
}

/// The test by which `addrs_to_fetch` keeps an address.
pub open spec fn missing_from(found: Seq<RecordView>) -> spec_fn(Seq<char>) -> bool {
    |address: Seq<char>| missing(address, found)
}

/// The test by which `addrs_to_refetch` keeps an address.
pub open spec fn fetch_due(found: Seq<RecordView>, now: u64, window: u64) -> spec_fn(
    Seq<char>,
) -> bool {
    |address: Seq<char>| needs_fetch(address, found, now, window)
}

/// Each record of a list, redacted.
pub open spec fn all_redacted(found: Seq<RecordView>) -> Seq<RedactedView> {
    found.map_values(|r: RecordView| redacted(r))
}

fn is_missing(address: &str, found: &Vec<ContractRecord>) -> (r: bool)
    ensures
        r == missing(address@, record_views(found@)),
{
    let mut k: usize = 0;
    while k < found.len()
        invariant
            k <= found@.len(),
            forall|j: int| 0 <= j < k ==> (#[trigger] record_views(found@)[j]).address != address@,
        decreases found@.len() - k,
    {
        if str_eq(found[k].address.as_str(), address) {
            assert(record_views(found@)[k as int].address == address@);
            return false;
        }
        k += 1;
    }
    true
}

fn is_due(address: &str, found: &Vec<ContractRecord>, now: u64, window: u64) -> (r: bool)
    ensures
        r == needs_fetch(address@, record_views(found@), now, window),
{
    let mut k: usize = 0;
    while k < found.len()
        invariant
            k <= found@.len(),
            forall|j: int|
                0 <= j < k && (#[trigger] record_views(found@)[j]).address == address@ ==> stale(
                    record_views(found@)[j],
                    now,
                    window,
                ),
        decreases found@.len() - k,
    {
        if str_eq(found[k].address.as_str(), address) && !found[k].is_stale(now, window) {
            assert(record_views(found@)[k as int].address == address@);
            return false;
        }
        k += 1;
    }
    true
}

/// The addresses of a batch for which the store holds no record, in the
/// order of the batch.
pub fn addrs_to_fetch(addresses: &Vec<String>, found: &Vec<ContractRecord>) -> (r: Vec<String>)
    ensures
        texts(r@) == texts(addresses@).filter(missing_from(record_views(found@))),
{
    let ghost all = texts(addresses@);
    let ghost keep = missing_from(record_views(found@));
    let mut out: Vec<String> = Vec::new();
    let mut i: usize = 0;
    proof {
        reveal(Seq::filter);
        assert(all.take(0) =~= Seq::<Seq<char>>::empty());
        assert(texts(out@) =~= Seq::<Seq<char>>::empty());
    }
    while i < addresses.len()
        invariant
            i <= addresses@.len(),
            all == texts(addresses@),
            keep == missing_from(record_views(found@)),
            texts(out@) == all.take(i as int).filter(keep),
        decreases addresses@.len() - i,
    {
        proof {
            reveal(Seq::filter);
            assert(all.take(i + 1).drop_last() =~= all.take(i as int));
            assert(all.take(i + 1).last() == addresses@[i as int]@);
        }
        if is_missing(addresses[i].as_str(), found) {
            let copy = addresses[i].clone();
            assert(texts(out@.push(copy)) =~= texts(out@).push(copy@));
            out.push(copy);
        }
        i += 1;
    }
    assert(all.take(addresses@.len() as int) =~= all);
    out
}

/// The addresses of a batch that are to be fetched, in the order of the
/// batch: those without a record and those whose record is stale.
pub fn addrs_to_refetch(
    addresses: &Vec<String>,
    found: &Vec<ContractRecord>,
    now: u64,
    window: u64,
) -> (r: Vec<String>)
    ensures
        texts(r@) == texts(addresses@).filter(fetch_due(record_views(found@), now, window)),
{
    let ghost all = texts(addresses@);
    let ghost keep = fetch_due(record_views(found@), now, window);
    let mut out: Vec<String> = Vec::new();
    let mut i: usize = 0;
    proof {
        reveal(Seq::filter);
        assert(all.take(0) =~= Seq::<Seq<char>>::empty());
        assert(texts(out@) =~= Seq::<Seq<char>>::empty());
    }
    while i < addresses.len()
        invariant
            i <= addresses@.len(),
            all == texts(addresses@),
            keep == fetch_due(record_views(found@), now, window),
            texts(out@) == all.take(i as int).filter(keep),
        decreases addresses@.len() - i,
    {
        proof {
            reveal(Seq::filter);
            assert(all.take(i + 1).drop_last() =~= all.take(i as int));
            assert(all.take(i + 1).last() == addresses@[i as int]@);
        }
        if is_due(addresses[i].as_str(), found, now, window) {
            let copy = addresses[i].clone();
            assert(texts(out@.push(copy)) =~= texts(out@).push(copy@));
            out.push(copy);
        }
        i += 1;
    }
    assert(all.take(addresses@.len() as int) =~= all);
    out
}

/// Redacts each record of a list.
pub fn redact_all(found: &Vec<ContractRecord>) -> (r: Vec<RedactedRecord>)
    ensures
        redacted_views(r@) == all_redacted(record_views(found@)),
{
    let mut out: Vec<RedactedRecord> = Vec::new();
    let mut i: usize = 0;
    while i < found.len()
        invariant
            i <= found@.len(),
            out@.len() == i,
            forall|k: int| 0 <= k < i ==> (#[trigger] out@[k])@ == redacted(found@[k]@),
        decreases found@.len() - i,
    {
        out.push(found[i].redact());
        i += 1;
    }
    assert(redacted_views(out@) =~= all_redacted(record_views(found@)));
    out
}

/// What admission has built up: the job table, the waiting requests, and the
/// identifiers that the caller is to poll.
pub struct Admitted {
    pub table: Map<Seq<char>, JobView>,
    pub queue: Seq<RequestView>,
    pub job_ids: Seq<Seq<char>>,
}

/// Admission of one address that is to be fetched. A job that is in the
/// table is used again: its identifier is handed out and nothing is queued.
/// Otherwise an open queue takes a request, and the table a pending job. With
/// the queue closed nothing is created and no identifier is handed out.
pub open spec fn admit_one(
    state: Admitted,
    chain: Seq<char>,
    chain_id: u32,
    address: Seq<char>,
    now: u64,
    open: bool,
) -> Admitted {
    let id = job_id_of(chain, address);
    if state.table.contains_key(id) {
        Admitted { table: state.table, queue: state.queue, job_ids: state.job_ids.push(id) }
    } else if open {
        Admitted {
            table: state.table.insert(id, pending_job(chain, address, now)),
            queue: state.queue.push(request_for(chain, chain_id, address)),
            job_ids: state.job_ids.push(id),
        }
    } else {
        state
    }
}

/// Admission of a list of addresses, one after the other.
pub open spec fn admit_all(
    state: Admitted,
    chain: Seq<char>,
    chain_id: u32,
    addresses: Seq<Seq<char>>,
    now: u64,
    open: bool,
) -> Admitted
    decreases addresses.len(),
{
    if addresses.len() == 0 {
        state
    } else {
        admit_one(
            admit_all(state, chain, chain_id, addresses.drop_last(), now, open),
            chain,
            chain_id,
            addresses.last(),
            now,
            open,
        )
    }
}

/// Admits the addresses that are to be fetched: for each, a job is reused or
/// created and queued. Returns the identifiers to poll.
pub fn admit_addresses(
    table: &mut JobTable,
    queue: &mut FetchQueue,
    chain: &str,
    chain_id: u32,
    candidates: &Vec<String>,
    now: u64,
) -> (job_ids: Vec<String>)
    requires
        old(table).wf(),
    ensures
        final(table).wf(),
        final(queue).accepting() == old(queue).accepting(),
        (Admitted { table: final(table)@, queue: final(queue)@, job_ids: texts(job_ids@) })
            == admit_all(
            (Admitted { table: old(table)@, queue: old(queue)@, job_ids: Seq::empty() }),
            chain@,
            chain_id,
            texts(candidates@),
            now,
            old(queue).accepting(),
        ),
{
    let ghost start = Admitted { table: table@, queue: queue@, job_ids: Seq::empty() };
    let ghost all = texts(candidates@);
    let ghost open = queue.accepting();
    let mut job_ids: Vec<String> = Vec::new();
    let mut i: usize = 0;
    proof {
        assert(all.take(0) =~= Seq::<Seq<char>>::empty());
        assert(texts(job_ids@) =~= Seq::<Seq<char>>::empty());
    }
    while i < candidates.len()
        invariant
            i <= candidates@.len(),
            all == texts(candidates@),
            table.wf(),
            queue.accepting() == open,
            (Admitted { table: table@, queue: queue@, job_ids: texts(job_ids@) }) == admit_all(
                start,
                chain@,
                chain_id,
                all.take(i as int),
                now,
                open,
            ),
        decreases candidates@.len() - i,
    {
        proof {
            assert(all.take(i + 1).drop_last() =~= all.take(i as int));
            assert(all.take(i + 1).last() == candidates@[i as int]@);
        }
        let address = candidates[i].as_str();
        let id = job_id(chain, address);
        if table.contains(id.as_str()) {
            assert(texts(job_ids@.push(id)) =~= texts(job_ids@).push(id@));
            job_ids.push(id);
        } else {
            let request = FetchRequest {
                job_id: id.clone(),
                chain: chain.to_owned(),
                chain_id: chain_id,
                address: address.to_owned(),
            };
            if queue.enqueue(request) {
                let job = Job {
                    id: id.clone(),
                    status: JobStatus::Pending,
                    address: address.to_owned(),
                    contract: None,
                    created_at: now,
                };
                assert(job@ == pending_job(chain@, address@, now));
                table.insert(job);
                assert(texts(job_ids@.push(id)) =~= texts(job_ids@).push(id@));
                job_ids.push(id);
            }
        }
        i += 1;
    }
    assert(all.take(candidates@.len() as int) =~= all);
    job_ids
}

/// What a batch request is answered with.
#[derive(Debug, PartialEq, Eq)]
pub struct BatchResponse {
    /// The records that the store holds for the batch, each without its
    /// source text.
    pub contracts: Vec<RedactedRecord>,
    /// The identifiers of the jobs to poll for what is not yet known.
    pub job_ids: Vec<String>,
}

/// The outcome of a batch request: the answer, or the reason for turning the
/// batch away, and what the job table and the queue are afterwards.
pub struct BatchOutcome {
    pub answer: Result<(Seq<RedactedView>, Seq<Seq<char>>), ApiError>,
    pub table: Map<Seq<char>, JobView>,
    pub queue: Seq<RequestView>,
}

/// The outcome that `submit_batch` realises. A batch that is turned away
/// changes nothing. Of an accepted one, the records found are answered
/// redacted, and the addresses that are to be fetched are admitted in turn.
pub open spec fn batch_outcome(
    table: Map<Seq<char>, JobView>,
    queue: Seq<RequestView>,
    open: bool,
    chain: Seq<char>,
    addresses: Seq<Seq<char>>,
    found: Seq<RecordView>,
    now: u64,
    window: u64,
) -> BatchOutcome {
    match batch_verdict(chain, addresses) {
        Err(e) => BatchOutcome { answer: Err(e), table: table, queue: queue },
        Ok(chain_id) => {
            let admitted = admit_all(
                (Admitted { table: table, queue: queue, job_ids: Seq::empty() }),
                chain,
                chain_id,
                addresses.filter(fetch_due(found, now, window)),
                now,
                open,
            );
            BatchOutcome {
                answer: Ok((all_redacted(found), admitted.job_ids)),
                table: admitted.table,
                queue: admitted.queue,
            }
        },
    }
}

/// The content of the answer to a batch request.
pub open spec fn answer_view(r: Result<BatchResponse, ApiError>) -> Result<
    (Seq<RedactedView>, Seq<Seq<char>>),
    ApiError,
> {
    match r {
        Ok(response) => Ok((redacted_views(response.contracts@), texts(response.job_ids@))),
        Err(e) => Err(e),
    }
}

/// Handles a batch request for `addresses` on `chain`, given the records
/// `found` that the store holds for them and the time `now`.
pub fn submit_batch(
    table: &mut JobTable,
    queue: &mut FetchQueue,
    chain: &str,
    addresses: &Vec<String>,
    found: &Vec<ContractRecord>,
    now: u64,
    window: u64,
) -> (r: Result<BatchResponse, ApiError>)
    requires
        old(table).wf(),
    ensures
        final(table).wf(),
        final(queue).accepting() == old(queue).accepting(),
        (BatchOutcome { answer: answer_view(r), table: final(table)@, queue: final(queue)@ })
            == batch_outcome(
            old(table)@,
            old(queue)@,
            old(queue).accepting(),
            chain@,
            texts(addresses@),
            record_views(found@),
            now,
            window,
        ),
{
    match validate_batch(chain, addresses) {
        Err(e) => Err(e),
        Ok(chain_id) => {
            let candidates = addrs_to_refetch(addresses, found, now, window);
            let job_ids = admit_addresses(table, queue, chain, chain_id, &candidates, now);
            let contracts = redact_all(found);
            Ok(BatchResponse { contracts: contracts, job_ids: job_ids })
        },
    }
}

/// The answer to a poll: the jobs that the identifiers name, or the reason
/// for turning the poll away.
pub open spec fn poll_outcome(table: Map<Seq<char>, JobView>, job_ids: Seq<Seq<char>>) -> Result<
    Seq<JobView>,
    ApiError,
> {
    if job_ids.len() == 0 || job_ids.len() > MAX_BATCH {
        Err(ApiError::InvalidInput)
    } else {
        Ok(crate::table::polled(table, job_ids))
    }
}

/// The content of the answer to a poll.
pub open spec fn poll_view(r: Result<Vec<Job>, ApiError>) -> Result<Seq<JobView>, ApiError> {
    match r {
        Ok(jobs) => Ok(crate::table::job_views(jobs@)),
        Err(e) => Err(e),
    }
}

/// Answers a poll for a set of job identifiers. Identifiers that the table
/// does not know are left out of the answer.
pub fn poll_jobs(table: &JobTable, job_ids: &Vec<String>) -> (r: Result<Vec<Job>, ApiError>)
    requires
        table.wf(),
    ensures
        poll_view(r) == poll_outcome(table@, texts(job_ids@)),
{
    if job_ids.len() == 0 || job_ids.len() > MAX_BATCH {
        return Err(ApiError::InvalidInput);
    }
    Ok(table.poll(job_ids))
}

/// Checks the key of a single-record lookup: neither the chain nor the
/// address may be blank.
pub fn validate_contract_key(chain: &str, address: &str) -> (r: Result<(), ApiError>)
    ensures
        r == if blank(chain@) || blank(address@) {
            Err::<(), ApiError>(ApiError::InvalidInput)
        } else {
            Ok::<(), ApiError>(())
        },
{
    if is_blank(chain) || is_blank(address) {
        Err(ApiError::InvalidInput)
    } else {
        Ok(())
    }
}

/// Checks a function selector before it is looked up: it may not be blank.
pub fn validate_selector(selector: &str) -> (r: Result<(), ApiError>)
    ensures
        r == if blank(selector@) {
            Err::<(), ApiError>(ApiError::InvalidInput)
        } else {
            Ok::<(), ApiError>(())
        },
{
    if is_blank(selector) {
        Err(ApiError::InvalidInput)
    } else {
        Ok(())
    }
}

/// Whether the store holds, for an address, a record with both its name and
/// its source text.
pub open spec fn has_complete_record(address: Seq<char>, found: Seq<RecordView>) -> bool {
    exists|k: int|
        0 <= k < found.len() && (#[trigger] found[k]).address == address && found[k].name is Some
            && found[k].src is Some
}

/// Once the store holds a complete record for every address of a batch, the
/// batch brings no job identifier, whatever the time and the window, and it
/// leaves the job table and the queue as they are.
pub proof fn lemma_complete_batch_yields_no_jobs(
    table: Map<Seq<char>, JobView>,
    queue: Seq<RequestView>,
    open: bool,
    chain: Seq<char>,
    addresses: Seq<Seq<char>>,
    found: Seq<RecordView>,
    now: u64,
    window: u64,
)
    requires
        forall|i: int| 0 <= i < addresses.len() ==> has_complete_record(#[trigger] addresses[i], found),
    ensures
        addresses.filter(fetch_due(found, now, window)) == Seq::<Seq<char>>::empty(),
        batch_outcome(table, queue, open, chain, addresses, found, now, window).table == table,
        batch_outcome(table, queue, open, chain, addresses, found, now, window).queue == queue,
        match batch_outcome(table, queue, open, chain, addresses, found, now, window).answer {
            Ok(answer) => answer.1 == Seq::<Seq<char>>::empty(),
            Err(e) => true,
        },
{
    let due = fetch_due(found, now, window);
    assert forall|i: int| 0 <= i < addresses.len() implies !due(#[trigger] addresses[i]) by {
        assert(has_complete_record(addresses[i], found));
        let k = choose|k: int|
            0 <= k < found.len() && (#[trigger] found[k]).address == addresses[i] && found[k].name is Some
                && found[k].src is Some;
        assert(!stale(found[k], now, window));
    }
    lemma_filter_keeps_nothing(addresses, due);
}

/// Two records that differ at most in the text of a source that both have.
pub open spec fn same_but_source_text(a: RecordView, b: RecordView) -> bool {
    &&& a.src is Some <==> b.src is Some
    &&& a.chain == b.chain
    &&& a.address == b.address
    &&& a.name == b.name
    &&& a.abi == b.abi
    &&& a.label == b.label
    &&& a.updated_at == b.updated_at
}

/// The outcome of a batch request tells of the source texts in the store only
/// whether they are there: whatever those texts are, the answer, the job
/// table and the queue come out the same.
pub proof fn lemma_batch_outcome_hides_source(
    table: Map<Seq<char>, JobView>,
    queue: Seq<RequestView>,
    open: bool,
    chain: Seq<char>,
    addresses: Seq<Seq<char>>,
    found: Seq<RecordView>,
    other: Seq<RecordView>,
    now: u64,
    window: u64,
)
    requires
        found.len() == other.len(),
        forall|k: int| 0 <= k < found.len() ==> same_but_source_text(#[trigger] found[k], other[k]),
    ensures
        batch_outcome(table, queue, open, chain, addresses, found, now, window) == batch_outcome(
            table,
            queue,
            open,
            chain,
            addresses,
            other,
            now,
            window,
        ),
{
    assert(all_redacted(found) =~= all_redacted(other)) by {
        assert forall|k: int| 0 <= k < found.len() implies all_redacted(found)[k] == all_redacted(
            other,
        )[k] by {
            assert(same_but_source_text(found[k], other[k]));
        }
    }
    let p = fetch_due(found, now, window);
    let q = fetch_due(other, now, window);
    assert forall|i: int| 0 <= i < addresses.len() implies p(#[trigger] addresses[i]) == q(
        addresses[i],
    ) by {
        let a = addresses[i];
        if needs_fetch(a, found, now, window) {
            assert forall|k: int| 0 <= k < other.len() && (#[trigger] other[k]).address == a implies stale(
                other[k],
                now,
                window,
            ) by {
                assert(same_but_source_text(found[k], other[k]));
            }
        }
        if needs_fetch(a, other, now, window) {
            assert forall|k: int| 0 <= k < found.len() && (#[trigger] found[k]).address == a implies stale(
                found[k],
                now,
                window,
            ) by {
                assert(same_but_source_text(found[k], other[k]));
                assert(other[k].address == a);
            }
        }
    }
    lemma_filter_agrees(addresses, p, q);
}

/// Admission never takes a job out of the table nor changes one that is in
/// it.
pub proof fn lemma_admission_keeps_jobs(
    state: Admitted,
    chain: Seq<char>,
    chain_id: u32,
    addresses: Seq<Seq<char>>,
    now: u64,
    open: bool,
    id: Seq<char>,
)
    requires
        state.table.contains_key(id),
    ensures
        admit_all(state, chain, chain_id, addresses, now, open).table.contains_key(id),
        admit_all(state, chain, chain_id, addresses, now, open).table[id] == state.table[id],
    decreases addresses.len(),
{
    if addresses.len() > 0 {
        lemma_admission_keeps_jobs(state, chain, chain_id, addresses.drop_last(), now, open, id);
    }
}

/// After admission with the queue open, each of the addresses has its job in
/// the table.
pub proof fn lemma_open_admission_covers(
    state: Admitted,
    chain: Seq<char>,
    chain_id: u32,
    addresses: Seq<Seq<char>>,
    now: u64,
    i: int,
)
    requires
        0 <= i < addresses.len(),
    ensures
        admit_all(state, chain, chain_id, addresses, now, true).table.contains_key(
            job_id_of(chain, addresses[i]),
        ),
    decreases addresses.len(),
{
    let front = addresses.drop_last();
    let before = admit_all(state, chain, chain_id, front, now, true);
    if i < addresses.len() - 1 {
        lemma_open_admission_covers(state, chain, chain_id, front, now, i);
        assert(front[i] == addresses[i]);
        let id = job_id_of(chain, addresses[i]);
        assert(before.table.contains_key(id));
    }
}

/// The identifiers of the jobs for a list of addresses on a chain.
pub open spec fn job_ids_of(chain: Seq<char>, addresses: Seq<Seq<char>>) -> Seq<Seq<char>> {
    addresses.map_values(|address: Seq<char>| job_id_of(chain, address))
}

/// Where each address has its job in the table already, admission creates
/// nothing and queues nothing: it hands out the identifiers of those jobs.
pub proof fn lemma_live_jobs_are_reused(
    state: Admitted,
    chain: Seq<char>,
    chain_id: u32,
    addresses: Seq<Seq<char>>,
    now: u64,
    open: bool,
)
    requires
        forall|i: int|
            0 <= i < addresses.len() ==> state.table.contains_key(
                job_id_of(chain, #[trigger] addresses[i]),
            ),
    ensures
        admit_all(state, chain, chain_id, addresses, now, open) == (Admitted {
            table: state.table,
            queue: state.queue,
            job_ids: state.job_ids + job_ids_of(chain, addresses),
        }),
    decreases addresses.len(),
{
    if addresses.len() == 0 {
        assert(state.job_ids + job_ids_of(chain, addresses) =~= state.job_ids);
    } else {
        let front = addresses.drop_last();
        assert forall|i: int| 0 <= i < front.len() implies state.table.contains_key(
            job_id_of(chain, #[trigger] front[i]),
        ) by {
            assert(front[i] == addresses[i]);
        }
        lemma_live_jobs_are_reused(state, chain, chain_id, front, now, open);
        assert(state.table.contains_key(job_id_of(chain, addresses[addresses.len() - 1])));
        assert((state.job_ids + job_ids_of(chain, front)).push(job_id_of(chain, addresses.last()))
            =~= state.job_ids + job_ids_of(chain, addresses));
    }
}

/// While the queue takes requests, every address that is to be fetched has
/// its identifier handed out, in the order of the addresses.
pub proof fn lemma_open_admission_hands_out_every_id(
    state: Admitted,
    chain: Seq<char>,
    chain_id: u32,
    addresses: Seq<Seq<char>>,
    now: u64,
)
    ensures
        admit_all(state, chain, chain_id, addresses, now, true).job_ids == state.job_ids + job_ids_of(
            chain,
            addresses,
        ),
    decreases addresses.len(),
{
    if addresses.len() == 0 {
        assert(state.job_ids + job_ids_of(chain, addresses) =~= state.job_ids);
    } else {
        let front = addresses.drop_last();
        lemma_open_admission_hands_out_every_id(state, chain, chain_id, front, now);
        assert((state.job_ids + job_ids_of(chain, front)).push(job_id_of(chain, addresses.last()))
            =~= state.job_ids + job_ids_of(chain, addresses));
    }
}

/// With the queue closed, admission creates no job and queues nothing.
pub proof fn lemma_closed_admission_creates_nothing(
    state: Admitted,
    chain: Seq<char>,
    chain_id: u32,
    addresses: Seq<Seq<char>>,
    now: u64,
)
    ensures
        admit_all(state, chain, chain_id, addresses, now, false).table == state.table,
        admit_all(state, chain, chain_id, addresses, now, false).queue == state.queue,
    decreases addresses.len(),
{
    if addresses.len() > 0 {
        lemma_closed_admission_creates_nothing(state, chain, chain_id, addresses.drop_last(), now);
    }
}

/// Admission leaves no job without its request: what waited in the queue
/// still waits, in its place, and each job that admission has put into the
/// table has a request behind those.
pub proof fn lemma_created_jobs_are_queued(
    state: Admitted,
    chain: Seq<char>,
    chain_id: u32,
    addresses: Seq<Seq<char>>,
    now: u64,
    open: bool,
    id: Seq<char>,
)
    requires
        admit_all(state, chain, chain_id, addresses, now, open).table.contains_key(id),
        !state.table.contains_key(id),
    ensures
        ({
            let after = admit_all(state, chain, chain_id, addresses, now, open);
            &&& state.queue.len() <= after.queue.len()
            &&& after.queue.subrange(0, state.queue.len() as int) == state.queue
            &&& after.table[id].status == JobStatus::Pending
            &&& exists|k: int|
                state.queue.len() <= k < after.queue.len() && (#[trigger] after.queue[k]).job_id == id
        }),
    decreases addresses.len(),
{
    lemma_queue_only_grows(state, chain, chain_id, addresses, now, open);
    if addresses.len() > 0 {
        let front = addresses.drop_last();
        let before = admit_all(state, chain, chain_id, front, now, open);
        let after = admit_all(state, chain, chain_id, addresses, now, open);
        lemma_queue_only_grows(state, chain, chain_id, front, now, open);
        if before.table.contains_key(id) {
            lemma_created_jobs_are_queued(state, chain, chain_id, front, now, open, id);
            let k = choose|k: int|
                state.queue.len() <= k < before.queue.len() && (#[trigger] before.queue[k]).job_id == id;
            assert(after.queue[k] == before.queue[k]);
        } else {
            assert(after.queue[before.queue.len() as int].job_id == id);
        }
    }
}

/// Admission takes no request out of the queue and moves none.
pub proof fn lemma_queue_only_grows(
    state: Admitted,
    chain: Seq<char>,
    chain_id: u32,
    addresses: Seq<Seq<char>>,
    now: u64,
    open: bool,
)
    ensures
        state.queue.len() <= admit_all(state, chain, chain_id, addresses, now, open).queue.len(),
        admit_all(state, chain, chain_id, addresses, now, open).queue.subrange(
            0,
            state.queue.len() as int,
        ) == state.queue,
    decreases addresses.len(),
{
    if addresses.len() == 0 {
        assert(state.queue.subrange(0, state.queue.len() as int) =~= state.queue);
    } else {
        let front = addresses.drop_last();
        let before = admit_all(state, chain, chain_id, front, now, open);
        let after = admit_all(state, chain, chain_id, addresses, now, open);
        lemma_queue_only_grows(state, chain, chain_id, front, now, open);
        assert(after.queue.subrange(0, state.queue.len() as int) =~= before.queue.subrange(
            0,
            state.queue.len() as int,
        ));
    }
}

/// Asking twice for the same addresses never makes two jobs for one of them:
/// the second admission, at whatever time, finds the jobs of the first,
/// creates nothing, queues nothing, and hands out the same identifiers.
pub proof fn lemma_second_admission_creates_nothing(
    state: Admitted,
    chain: Seq<char>,
    chain_id: u32,
    addresses: Seq<Seq<char>>,
    now: u64,
    later: u64,
    open: bool,
)
    ensures
        ({
            let first = admit_all(state, chain, chain_id, addresses, now, true);
            let again = Admitted { table: first.table, queue: first.queue, job_ids: Seq::empty() };
            admit_all(again, chain, chain_id, addresses, later, open) == (Admitted {
                table: first.table,
                queue: first.queue,
                job_ids: job_ids_of(chain, addresses),
            })
        }),
{
    let first = admit_all(state, chain, chain_id, addresses, now, true);
    let again = Admitted { table: first.table, queue: first.queue, job_ids: Seq::empty() };
    assert forall|i: int| 0 <= i < addresses.len() implies again.table.contains_key(
        job_id_of(chain, #[trigger] addresses[i]),
    ) by {
        lemma_open_admission_covers(state, chain, chain_id, addresses, now, i);
    }
    lemma_live_jobs_are_reused(again, chain, chain_id, addresses, later, open);
    assert(Seq::<Seq<char>>::empty() + job_ids_of(chain, addresses) =~= job_ids_of(chain, addresses));
}

} // verus!
