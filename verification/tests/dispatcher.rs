use contract_cache::admission::submit_batch;
use contract_cache::config::{ETHERSCAN_RATE_LIMIT, FRESHNESS_WINDOW_MS};
use contract_cache::dispatcher::{inter_call_gap_ms, record_from_contract, Action, Dispatcher};
use contract_cache::job::{FetchRequest, Job, JobStatus};
use contract_cache::queue::FetchQueue;
use contract_cache::record::ContractRecord;
use contract_cache::source::{Contract, FetchError};
use contract_cache::table::JobTable;

fn request(address: &str) -> FetchRequest {
    FetchRequest {
        job_id: format!("eth-mainnet:{address}"),
        chain: "eth-mainnet".to_string(),
        chain_id: 1,
        address: address.to_string(),
    }
}

fn fetched(address: &str) -> Contract {
    Contract {
        addr: address.to_string(),
        name: Some("Token".to_string()),
        abi: Some("[]".to_string()),
        src: Some("contract Token {}".to_string()),
    }
}

fn queue_of(addresses: &[&str]) -> FetchQueue {
    let mut queue = FetchQueue::new();
    for a in addresses {
        assert!(queue.enqueue(request(a)));
    }
    queue
}

#[test]
fn gap_is_a_second_over_the_rate_rounded_up_and_one_more() {
    assert_eq!(inter_call_gap_ms(3), 335);
    assert_eq!(inter_call_gap_ms(ETHERSCAN_RATE_LIMIT), 335);
    assert_eq!(inter_call_gap_ms(1), 1001);
    assert_eq!(inter_call_gap_ms(2), 501);
    assert_eq!(inter_call_gap_ms(4), 251);
    assert_eq!(inter_call_gap_ms(5), 201);
    assert_eq!(inter_call_gap_ms(7), 144);
    assert_eq!(inter_call_gap_ms(999), 3);
    assert_eq!(inter_call_gap_ms(1000), 2);
    assert_eq!(inter_call_gap_ms(1001), 2);
    assert_eq!(inter_call_gap_ms(u64::MAX), 2);
}

#[test]
fn new_dispatcher_is_idle_on_an_empty_queue() {
    let mut d = Dispatcher::new(3);
    let mut queue = FetchQueue::new();
    assert_eq!(d.rate_limit(), 3);
    assert_eq!(d.gap_ms(), 335);
    assert!(!d.is_busy());
    assert_eq!(d.next(&mut queue, 0), Action::Idle);
    assert!(!d.is_busy());
}

#[test]
fn first_request_is_fetched_at_once() {
    let mut d = Dispatcher::new(3);
    let mut queue = queue_of(&["0x1", "0x2"]);
    assert_eq!(d.next(&mut queue, 0), Action::Fetch(request("0x1")));
    assert!(d.is_busy());
    assert_eq!(queue.len(), 1);
}

#[test]
fn one_fetch_at_a_time() {
    let mut d = Dispatcher::new(3);
    let mut queue = queue_of(&["0x1", "0x2"]);
    assert_eq!(d.next(&mut queue, 0), Action::Fetch(request("0x1")));
    assert_eq!(d.next(&mut queue, 10_000), Action::Busy);
    assert_eq!(queue.len(), 1);
}

#[test]
fn gap_is_kept_after_the_end_of_a_fetch() {
    let mut d = Dispatcher::new(3);
    let mut table = JobTable::new();
    let mut queue = queue_of(&["0x1", "0x2"]);
    assert_eq!(d.next(&mut queue, 1_000), Action::Fetch(request("0x1")));
    d.finish(&mut table, &request("0x1"), Err(FetchError::Network), 1_200);
    assert!(!d.is_busy());
    assert_eq!(d.next(&mut queue, 1_200), Action::Wait(335));
    assert_eq!(d.next(&mut queue, 1_300), Action::Wait(235));
    assert_eq!(d.next(&mut queue, 1_534), Action::Wait(1));
    assert_eq!(queue.len(), 1);
    assert_eq!(d.next(&mut queue, 1_535), Action::Fetch(request("0x2")));
    assert_eq!(queue.len(), 0);
}

#[test]
fn gap_is_kept_after_a_fetch_that_ended_at_once() {
    let mut d = Dispatcher::new(3);
    let mut table = JobTable::new();
    let mut queue = queue_of(&["0x1", "0x2"]);
    assert_eq!(d.next(&mut queue, 50), Action::Fetch(request("0x1")));
    d.finish(&mut table, &request("0x1"), Ok(fetched("0x1")), 50);
    assert_eq!(d.next(&mut queue, 50), Action::Wait(335));
    assert_eq!(d.next(&mut queue, 384), Action::Wait(1));
    assert_eq!(d.next(&mut queue, 385), Action::Fetch(request("0x2")));
}

#[test]
fn clock_that_runs_backwards_makes_the_dispatcher_wait() {
    let mut d = Dispatcher::new(3);
    let mut table = JobTable::new();
    let mut queue = queue_of(&["0x1", "0x2"]);
    assert_eq!(d.next(&mut queue, 1_000), Action::Fetch(request("0x1")));
    d.finish(&mut table, &request("0x1"), Err(FetchError::Malformed), 1_000);
    assert_eq!(d.next(&mut queue, 900), Action::Wait(435));
    assert_eq!(d.next(&mut queue, 0), Action::Wait(1_335));
}

#[test]
fn wait_is_clipped_at_the_largest_number() {
    let mut d = Dispatcher::new(3);
    let mut table = JobTable::new();
    let mut queue = queue_of(&["0x1", "0x2"]);
    assert_eq!(d.next(&mut queue, u64::MAX), Action::Fetch(request("0x1")));
    d.finish(&mut table, &request("0x1"), Err(FetchError::Network), u64::MAX);
    assert_eq!(d.next(&mut queue, 0), Action::Wait(u64::MAX));
    assert_eq!(d.next(&mut queue, u64::MAX), Action::Wait(335));
}

#[test]
fn idle_queue_is_reported_before_the_gap() {
    let mut d = Dispatcher::new(3);
    let mut table = JobTable::new();
    let mut queue = queue_of(&["0x1"]);
    assert_eq!(d.next(&mut queue, 0), Action::Fetch(request("0x1")));
    d.finish(&mut table, &request("0x1"), Err(FetchError::Network), 0);
    assert_eq!(d.next(&mut queue, 1), Action::Idle);
}

#[test]
fn requests_are_fetched_in_the_order_of_admission() {
    let mut d = Dispatcher::new(1000);
    let mut table = JobTable::new();
    let mut queue = queue_of(&["0x3", "0x1", "0x2"]);
    let mut now = 0;
    let mut order = Vec::new();
    loop {
        match d.next(&mut queue, now) {
            Action::Fetch(r) => {
                order.push(r.address.clone());
                d.finish(&mut table, &r, Err(FetchError::Network), now);
            }
            Action::Wait(ms) => now += ms,
            Action::Idle => break,
            Action::Busy => panic!("no fetch is under way"),
        }
    }
    assert_eq!(order, vec!["0x3", "0x1", "0x2"]);
}

#[test]
fn no_second_holds_more_calls_than_the_rate_limit() {
    for rate in [1u64, 2, 3, 4, 7, 10, 333, 1000] {
        let mut d = Dispatcher::new(rate);
        let mut table = JobTable::new();
        let mut queue = FetchQueue::new();
        for i in 0..40 {
            assert!(queue.enqueue(request(&format!("0x{i}"))));
        }
        let mut now = 17;
        let mut calls: Vec<u64> = Vec::new();
        loop {
            match d.next(&mut queue, now) {
                Action::Fetch(r) => {
                    calls.push(now);
                    d.finish(&mut table, &r, Err(FetchError::Network), now);
                }
                Action::Wait(ms) => now += ms,
                Action::Idle => break,
                Action::Busy => panic!("no fetch is under way"),
            }
        }
        assert_eq!(calls.len(), 40);
        for start in 0..calls.len() {
            let within = calls.iter().filter(|t| calls[start] <= **t && **t <= calls[start] + 1000).count();
            assert!(within as u64 <= rate, "rate {rate}: {within} calls in one second");
        }
    }
}

#[test]
fn successful_fetch_completes_the_job_and_gives_the_record_to_store() {
    let mut table = JobTable::new();
    let mut queue = FetchQueue::new();
    let mut d = Dispatcher::new(3);
    let batch = vec!["0xAAA".to_string()];
    submit_batch(&mut table, &mut queue, "eth-mainnet", &batch, &vec![], 5_000, FRESHNESS_WINDOW_MS).unwrap();
    assert_eq!(table.get("eth-mainnet:0xAAA").map(|j| j.status), Some(JobStatus::Pending));
    let action = d.next(&mut queue, 5_001);
    assert_eq!(action, Action::Fetch(request("0xAAA")));
    let record = d.finish(&mut table, &request("0xAAA"), Ok(fetched("0xAAA")), 5_400);
    let expected = ContractRecord {
        chain: "eth-mainnet".to_string(),
        address: "0xAAA".to_string(),
        name: Some("Token".to_string()),
        abi: Some("[]".to_string()),
        label: None,
        src: Some("contract Token {}".to_string()),
        updated_at: Some(5_400),
    };
    assert_eq!(record, Some(expected.clone()));
    assert_eq!(
        table.get("eth-mainnet:0xAAA"),
        Some(&Job {
            id: "eth-mainnet:0xAAA".to_string(),
            status: JobStatus::Complete,
            address: "0xAAA".to_string(),
            contract: Some(expected.clone()),
            created_at: 5_000,
        })
    );
    let again = submit_batch(&mut table, &mut queue, "eth-mainnet", &batch, &vec![expected], 5_500, FRESHNESS_WINDOW_MS)
        .unwrap();
    assert_eq!(again.job_ids.len(), 0);
    assert_eq!(again.contracts.len(), 1);
    assert!(again.contracts[0].has_src);
}

#[test]
fn failed_fetch_completes_the_job_without_a_contract() {
    let mut table = JobTable::new();
    let mut queue = FetchQueue::new();
    let mut d = Dispatcher::new(3);
    submit_batch(&mut table, &mut queue, "eth-mainnet", &vec!["0xAAA".to_string()], &vec![], 0, FRESHNESS_WINDOW_MS)
        .unwrap();
    let action = d.next(&mut queue, 1);
    assert_eq!(action, Action::Fetch(request("0xAAA")));
    for error in [
        FetchError::Network,
        FetchError::Status(500),
        FetchError::Malformed,
        FetchError::Reported("Invalid API Key".to_string()),
    ] {
        let mut t = JobTable::new();
        t.insert(table.get("eth-mainnet:0xAAA").cloned().unwrap());
        let mut worker = Dispatcher::new(3);
        assert_eq!(worker.finish(&mut t, &request("0xAAA"), Err(error), 9), None);
        assert_eq!(
            t.get("eth-mainnet:0xAAA").map(|j| (j.status, j.contract.clone())),
            Some((JobStatus::Complete, None))
        );
    }
}

#[test]
fn fetch_for_a_reaped_job_still_gives_the_record_to_store() {
    let mut table = JobTable::new();
    let mut d = Dispatcher::new(3);
    let mut queue = queue_of(&["0xAAA"]);
    assert_eq!(d.next(&mut queue, 0), Action::Fetch(request("0xAAA")));
    let record = d.finish(&mut table, &request("0xAAA"), Ok(fetched("0xAAA")), 10);
    assert_eq!(record.map(|r| r.updated_at), Some(Some(10)));
    assert_eq!(table.len(), 0);
}

#[test]
fn record_from_contract_carries_no_label() {
    let c = Contract { addr: "0x9".to_string(), name: None, abi: None, src: Some("s".to_string()) };
    assert_eq!(
        record_from_contract("polygon-amoy", &c, 123),
        ContractRecord {
            chain: "polygon-amoy".to_string(),
            address: "0x9".to_string(),
            name: None,
            abi: None,
            label: None,
            src: Some("s".to_string()),
            updated_at: Some(123),
        }
    );
}
