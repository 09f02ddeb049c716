use contract_cache::config::JOB_TTL_MS;
use contract_cache::job::{Job, JobStatus};
use contract_cache::record::ContractRecord;
use contract_cache::table::JobTable;

fn pending(id: &str, address: &str, created_at: u64) -> Job {
    Job {
        id: id.to_string(),
        status: JobStatus::Pending,
        address: address.to_string(),
        contract: None,
        created_at,
    }
}

fn sample_record(address: &str) -> ContractRecord {
    ContractRecord {
        chain: "eth-mainnet".to_string(),
        address: address.to_string(),
        name: Some("Token".to_string()),
        abi: Some("[]".to_string()),
        label: None,
        src: Some("contract Token {}".to_string()),
        updated_at: Some(1_000),
    }
}

#[test]
fn new_table_is_empty() {
    let table = JobTable::new();
    assert_eq!(table.len(), 0);
    assert!(!table.contains("eth-mainnet:0xAAA"));
    assert_eq!(table.get("eth-mainnet:0xAAA"), None);
}

#[test]
fn insert_then_get_returns_the_job() {
    let mut table = JobTable::new();
    assert!(table.insert(pending("eth-mainnet:0xAAA", "0xAAA", 10)));
    assert_eq!(table.len(), 1);
    assert!(table.contains("eth-mainnet:0xAAA"));
    assert_eq!(table.get("eth-mainnet:0xAAA"), Some(&pending("eth-mainnet:0xAAA", "0xAAA", 10)));
    assert_eq!(table.get("eth-mainnet:0xAAB"), None);
}

#[test]
fn insert_of_a_known_identifier_changes_nothing() {
    let mut table = JobTable::new();
    assert!(table.insert(pending("eth-mainnet:0xAAA", "0xAAA", 10)));
    assert!(!table.insert(pending("eth-mainnet:0xAAA", "0xAAA", 99)));
    assert_eq!(table.len(), 1);
    assert_eq!(table.get("eth-mainnet:0xAAA").map(|j| j.created_at), Some(10));
}

#[test]
fn complete_sets_status_and_contract_together() {
    let mut table = JobTable::new();
    table.insert(pending("eth-mainnet:0xAAA", "0xAAA", 10));
    table.insert(pending("eth-mainnet:0xBBB", "0xBBB", 11));
    assert!(table.complete("eth-mainnet:0xAAA", Some(sample_record("0xAAA"))));
    let done = table.get("eth-mainnet:0xAAA").cloned();
    assert_eq!(
        done,
        Some(Job {
            id: "eth-mainnet:0xAAA".to_string(),
            status: JobStatus::Complete,
            address: "0xAAA".to_string(),
            contract: Some(sample_record("0xAAA")),
            created_at: 10,
        })
    );
    assert_eq!(table.get("eth-mainnet:0xBBB"), Some(&pending("eth-mainnet:0xBBB", "0xBBB", 11)));
    assert_eq!(table.len(), 2);
}

#[test]
fn complete_after_a_failed_fetch_leaves_no_contract() {
    let mut table = JobTable::new();
    table.insert(pending("eth-mainnet:0xAAA", "0xAAA", 10));
    assert!(table.complete("eth-mainnet:0xAAA", None));
    let job = table.get("eth-mainnet:0xAAA").cloned();
    assert_eq!(job.as_ref().map(|j| j.status), Some(JobStatus::Complete));
    assert_eq!(job.and_then(|j| j.contract), None);
}

#[test]
fn complete_of_an_unknown_identifier_changes_nothing() {
    let mut table = JobTable::new();
    table.insert(pending("eth-mainnet:0xAAA", "0xAAA", 10));
    assert!(!table.complete("eth-mainnet:0xCCC", Some(sample_record("0xCCC"))));
    assert_eq!(table.len(), 1);
    assert_eq!(table.get("eth-mainnet:0xAAA"), Some(&pending("eth-mainnet:0xAAA", "0xAAA", 10)));
}

#[test]
fn a_complete_job_is_not_changed_again() {
    let mut table = JobTable::new();
    table.insert(pending("eth-mainnet:0xAAA", "0xAAA", 10));
    assert!(table.complete("eth-mainnet:0xAAA", Some(sample_record("0xAAA"))));
    assert!(!table.complete("eth-mainnet:0xAAA", None));
    assert_eq!(
        table.get("eth-mainnet:0xAAA").and_then(|j| j.contract.clone()),
        Some(sample_record("0xAAA"))
    );
    let mut failed = JobTable::new();
    failed.insert(pending("eth-mainnet:0xAAA", "0xAAA", 10));
    assert!(failed.complete("eth-mainnet:0xAAA", None));
    assert!(!failed.complete("eth-mainnet:0xAAA", Some(sample_record("0xAAA"))));
    assert_eq!(failed.get("eth-mainnet:0xAAA").and_then(|j| j.contract.clone()), None);
}

#[test]
fn job_survives_a_sweep_just_before_its_time_to_live() {
    let mut table = JobTable::new();
    table.insert(pending("eth-mainnet:0xAAA", "0xAAA", 1_000));
    assert_eq!(table.reap(1_000 + JOB_TTL_MS - 1, JOB_TTL_MS), 0);
    assert!(table.contains("eth-mainnet:0xAAA"));
}

#[test]
fn job_leaves_at_its_time_to_live() {
    let mut table = JobTable::new();
    table.insert(pending("eth-mainnet:0xAAA", "0xAAA", 1_000));
    assert_eq!(table.reap(1_000 + JOB_TTL_MS, JOB_TTL_MS), 1);
    assert!(!table.contains("eth-mainnet:0xAAA"));
    assert_eq!(table.len(), 0);
}

#[test]
fn job_leaves_just_after_its_time_to_live() {
    let mut table = JobTable::new();
    table.insert(pending("eth-mainnet:0xAAA", "0xAAA", 1_000));
    assert_eq!(table.reap(1_000 + JOB_TTL_MS + 1, JOB_TTL_MS), 1);
    assert!(!table.contains("eth-mainnet:0xAAA"));
}

#[test]
fn time_to_live_is_five_minutes() {
    assert_eq!(JOB_TTL_MS, 300_000);
}

#[test]
fn sweep_takes_pending_and_complete_jobs_alike() {
    let mut table = JobTable::new();
    table.insert(pending("c:old-pending", "old-pending", 0));
    table.insert(pending("c:old-complete", "old-complete", 0));
    table.insert(pending("c:new-pending", "new-pending", 200));
    table.insert(pending("c:new-complete", "new-complete", 200));
    table.complete("c:old-complete", Some(sample_record("old-complete")));
    table.complete("c:new-complete", None);
    assert_eq!(table.reap(250, 100), 2);
    assert_eq!(table.len(), 2);
    assert!(!table.contains("c:old-pending"));
    assert!(!table.contains("c:old-complete"));
    assert_eq!(table.get("c:new-pending"), Some(&pending("c:new-pending", "new-pending", 200)));
    assert_eq!(
        table.get("c:new-complete").map(|j| (j.status, j.created_at)),
        Some((JobStatus::Complete, 200))
    );
}

#[test]
fn sweep_of_many_jobs_keeps_exactly_the_young_ones() {
    let mut table = JobTable::new();
    for i in 0..50u64 {
        table.insert(pending(&format!("c:{i}"), &format!("{i}"), i * 10));
    }
    let removed = table.reap(600, 300);
    assert_eq!(removed, 31);
    assert_eq!(table.len(), 19);
    for i in 0..50u64 {
        assert_eq!(table.contains(&format!("c:{i}")), 600 - i.min(60) * 10 < 300);
    }
}

#[test]
fn job_admitted_after_now_has_age_zero() {
    let mut table = JobTable::new();
    table.insert(pending("c:a", "a", 500));
    assert_eq!(table.reap(100, 1), 0);
    assert!(table.contains("c:a"));
    assert_eq!(table.reap(100, 0), 1);
    assert!(!table.contains("c:a"));
}

#[test]
fn sweep_of_an_empty_table() {
    let mut table = JobTable::new();
    assert_eq!(table.reap(u64::MAX, 0), 0);
    assert_eq!(table.len(), 0);
}

#[test]
fn reaped_identifier_can_be_inserted_again() {
    let mut table = JobTable::new();
    table.insert(pending("c:a", "a", 0));
    table.reap(1_000, 300);
    assert!(table.insert(pending("c:a", "a", 1_000)));
    assert_eq!(table.get("c:a").map(|j| j.created_at), Some(1_000));
}

#[test]
fn poll_returns_known_jobs_in_the_order_asked() {
    let mut table = JobTable::new();
    table.insert(pending("c:a", "a", 1));
    table.insert(pending("c:b", "b", 2));
    table.insert(pending("c:c", "c", 3));
    table.complete("c:b", None);
    let ids = vec!["c:c".to_string(), "c:unknown".to_string(), "c:a".to_string(), "c:b".to_string()];
    let found = table.poll(&ids);
    assert_eq!(found.len(), 3);
    assert_eq!(found[0], pending("c:c", "c", 3));
    assert_eq!(found[1], pending("c:a", "a", 1));
    assert_eq!(found[2].id, "c:b");
    assert_eq!(found[2].status, JobStatus::Complete);
}

#[test]
fn poll_of_nothing_and_of_unknown_identifiers() {
    let mut table = JobTable::new();
    table.insert(pending("c:a", "a", 1));
    assert_eq!(table.poll(&vec![]), vec![]);
    assert_eq!(table.poll(&vec!["c:x".to_string(), "".to_string()]), vec![]);
}

#[test]
fn poll_repeats_a_job_that_is_asked_for_twice() {
    let mut table = JobTable::new();
    table.insert(pending("c:a", "a", 1));
    let found = table.poll(&vec!["c:a".to_string(), "c:a".to_string()]);
    assert_eq!(found, vec![pending("c:a", "a", 1), pending("c:a", "a", 1)]);
}
