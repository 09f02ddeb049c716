use crate::config::{known_chain, lemma_known_chain_has_no_colon};
use crate::record::{ContractRecord, RecordView};
use vstd::prelude::*;
use vstd::string::StringExecFns;

verus! {

/// Where a fetch attempt stands.
#[derive(Clone, Copy, Debug, PartialEq, Eq, Structural)]
pub enum JobStatus {
    Pending,
    Complete,
}

/// One outstanding or finished fetch attempt for a contract on a chain.
#[derive(Debug, PartialEq, Eq)]
pub struct Job {
    pub id: String,
    pub status: JobStatus,
    pub address: String,
    /// The fetched record; absent while pending and after a failed fetch.
    pub contract: Option<ContractRecord>,
    /// Milliseconds at which the job was admitted.
    pub created_at: u64,
}

/// The mathematical content of a `Job`.
pub struct JobView {
    pub id: Seq<char>,
    pub status: JobStatus,
    pub address: Seq<char>,
    pub contract: Option<RecordView>,
    pub created_at: u64,
}

/// The content of an optional record.
pub open spec fn opt_record(o: Option<ContractRecord>) -> Option<RecordView> {
    match o {
        Some(r) => Some(r@),
        None => None,
    }
}

impl View for Job {
    type V = JobView;

    open spec fn view(&self) -> JobView {
        JobView {
            id: self.id@,
            status: self.status,
            address: self.address@,
            contract: opt_record(self.contract),
            created_at: self.created_at,
        }
    }
}

/// Copies an optional record.
pub fn clone_opt_record(o: &Option<ContractRecord>) -> (r: Option<ContractRecord>)
    ensures
        r == *o,
{
    match o {
        Some(c) => Some(c.clone()),
        None => None,
    }
}

impl Clone for Job {
    fn clone(&self) -> (r: Self)
        ensures
            r == *self,
    {
        Job {
            id: self.id.clone(),
            status: self.status,
            address: self.address.clone(),
            contract: clone_opt_record(&self.contract),
            created_at: self.created_at,
        }
    }
}

/// One unit of work for the dispatcher.
#[derive(Debug, PartialEq, Eq)]
pub struct FetchRequest {
    pub job_id: String,
    pub chain: String,
    pub chain_id: u32,
    pub address: String,
}

/// The mathematical content of a `FetchRequest`.
pub struct RequestView {
    pub job_id: Seq<char>,
    pub chain: Seq<char>,
    pub chain_id: u32,
    pub address: Seq<char>,
}

impl View for FetchRequest {
    type V = RequestView;

    open spec fn view(&self) -> RequestView {
        RequestView {
            job_id: self.job_id@,
            chain: self.chain@,
            chain_id: self.chain_id,
            address: self.address@,
        }
    }
}

impl Clone for FetchRequest {
    fn clone(&self) -> (r: Self)
        ensures
            r == *self,
    {
        FetchRequest {
            job_id: self.job_id.clone(),
            chain: self.chain.clone(),
            chain_id: self.chain_id,
            address: self.address.clone(),
        }
    }
}

/// The identifier of the job for an address on a chain: the chain name, a
/// colon, the address.
pub open spec fn job_id_of(chain: Seq<char>, address: Seq<char>) -> Seq<char> {
    chain + seq![':'] + address
}

/// The job that admission creates for an address.
pub open spec fn pending_job(chain: Seq<char>, address: Seq<char>, now: u64) -> JobView {
    JobView {
        id: job_id_of(chain, address),
        status: JobStatus::Pending,
        address: address,
        contract: None,
        created_at: now,
    }
}

/// The request that admission queues for an address.
pub open spec fn request_for(chain: Seq<char>, chain_id: u32, address: Seq<char>) -> RequestView {
    RequestView { job_id: job_id_of(chain, address), chain: chain, chain_id: chain_id, address: address }
}

/// Builds the identifier of the job for an address on a chain.
pub fn job_id(chain: &str, address: &str) -> (r: String)
    ensures
        r@ == job_id_of(chain@, address@),
{
    let mut id = String::from_str(chain);
    proof {
        reveal_strlit(":");
        assert(":"@ =~= seq![':']);
    }
    id.append(":");
    id.append(address);
    id
}

/// Whether no character of a text is a colon.
pub open spec fn colon_free(text: Seq<char>) -> bool {
    forall|i: int| 0 <= i < text.len() ==> text[i] != ':'
}

/// Between chain names that hold no colon, the identifier tells the chain and
/// the address: two pairs with one identifier are one pair.
pub proof fn lemma_job_id_injective(c1: Seq<char>, a1: Seq<char>, c2: Seq<char>, a2: Seq<char>)
    requires
        colon_free(c1),
        colon_free(c2),
        job_id_of(c1, a1) == job_id_of(c2, a2),
    ensures
        c1 == c2,
        a1 == a2,
{
    let id1 = job_id_of(c1, a1);
    let id2 = job_id_of(c2, a2);
    assert(id1[c1.len() as int] == ':');
    assert(id2[c2.len() as int] == ':');
    if c1.len() < c2.len() {
        assert(id2[c1.len() as int] == c2[c1.len() as int]);
    }
    if c2.len() < c1.len() {
        assert(id1[c2.len() as int] == c1[c2.len() as int]);
    }
    assert(c1.len() == c2.len());
    assert(c1 =~= c2) by {
        assert forall|i: int| 0 <= i < c1.len() implies c1[i] == c2[i] by {
            assert(id1[i] == c1[i]);
            assert(id2[i] == c2[i]);
        }
    }
    assert(id1.len() == c1.len() + 1 + a1.len());
    assert(id2.len() == c2.len() + 1 + a2.len());
    assert(a1 =~= a2) by {
        assert forall|i: int| 0 <= i < a1.len() implies a1[i] == a2[i] by {
            assert(id1[c1.len() + 1 + i] == a1[i]);
            assert(id2[c2.len() + 1 + i] == a2[i]);
        }
    }
}

/// Among the configured chains a job identifier stands for one contract on
/// one chain: two pairs of chain and address with one identifier are one
/// pair.
pub proof fn lemma_job_id_tells_key(c1: Seq<char>, a1: Seq<char>, c2: Seq<char>, a2: Seq<char>)
    requires
        known_chain(c1),
        known_chain(c2),
        job_id_of(c1, a1) == job_id_of(c2, a2),
    ensures
        c1 == c2,
        a1 == a2,
{
    lemma_known_chain_has_no_colon(c1);
    lemma_known_chain_has_no_colon(c2);
    lemma_job_id_injective(c1, a1, c2, a2);
}

/// On one chain, two addresses have one identifier only if they are one
/// address.
pub proof fn lemma_job_id_tells_address(chain: Seq<char>, a1: Seq<char>, a2: Seq<char>)
    requires
        job_id_of(chain, a1) == job_id_of(chain, a2),
    ensures
        a1 == a2,
{
    let id1 = job_id_of(chain, a1);
    let id2 = job_id_of(chain, a2);
    assert(id1.len() == chain.len() + 1 + a1.len());
    assert(id2.len() == chain.len() + 1 + a2.len());
    assert(a1 =~= a2) by {
        assert forall|i: int| 0 <= i < a1.len() implies a1[i] == a2[i] by {
            assert(id1[chain.len() + 1 + i] == a1[i]);
            assert(id2[chain.len() + 1 + i] == a2[i]);
        }
    }
}

} // verus!
