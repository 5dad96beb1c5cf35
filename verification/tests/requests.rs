//! The request ledger: stage assignment, the admission gate, pagination,
//! and the secondary orderings.

use aioracle::contract::{execute_register_merkle_root, handle_request, instantiate};
use aioracle::error::ContractError;
use aioracle::gate::admissible;
use aioracle::ledger::{query_latest_stage, query_request, query_requests,
    query_requests_by_merkle_root, query_requests_by_service};
use aioracle::msg::{InstantiateMsg, Response};
use aioracle::state::State;
use sha2::Digest;

fn empty_state() -> State {
    instantiate("owner", InstantiateMsg { owner: None, executors: None })
}

fn with_executors(ids: &[&str]) -> State {
    instantiate(
        "owner",
        InstantiateMsg {
            owner: None,
            executors: Some(ids.iter().map(|s| s.to_string()).collect()),
        },
    )
}

fn stages(rs: &[aioracle::msg::RequestResponse]) -> Vec<u64> {
    rs.iter().map(|r| r.stage).collect()
}

#[test]
fn admission_boundary() {
    assert!(admissible(2, 3, 67)); // floor(3 * 67 / 100) == 2
    assert!(!admissible(3, 3, 67));
    assert!(admissible(0, 0, 67)); // zero threshold always passes
    assert!(!admissible(1, 0, 67)); // empty registry rejects every positive threshold
    assert!(admissible(0, 5, 0));
    assert!(!admissible(1, 5, 0));
    assert!(admissible(5, 5, 100));
}

#[test]
fn gate_decides_requests() {
    let mut st = with_executors(&["e1", "e2", "e3"]);
    assert_eq!(
        handle_request(&mut st, "alice", 5, String::from("svc"), None, 2),
        Ok(Response::RequestHandled { stage: 1 })
    );
    assert_eq!(
        handle_request(&mut st, "alice", 5, String::from("svc"), None, 3),
        Err(ContractError::InvalidThreshold)
    );
    // the rejected call left no trace: the next stage is still 2
    assert_eq!(
        handle_request(&mut st, "alice", 5, String::from("svc"), None, 0),
        Ok(Response::RequestHandled { stage: 2 })
    );
}

#[test]
fn stages_count_up_from_one_without_gaps() {
    let mut st = empty_state();
    for expected in 1..=5u64 {
        let r = handle_request(&mut st, "alice", 10, String::from("svc"), None, 0).unwrap();
        assert_eq!(r, Response::RequestHandled { stage: expected });
    }
    assert_eq!(query_latest_stage(&st).latest_stage, 5);
    for s in 1..=5u64 {
        assert_eq!(query_request(&st, s).unwrap().stage, s);
    }
    assert_eq!(query_request(&st, 6).err().unwrap(), ContractError::NotFound);
    assert_eq!(query_request(&st, 0).err().unwrap(), ContractError::NotFound);
}

#[test]
fn request_record_is_stored_as_given() {
    let mut st = empty_state();
    handle_request(&mut st, "alice", 42, String::from("price"), Some(vec![1, 2, 3]), 0).unwrap();
    let r = query_request(&st, 1).unwrap();
    assert_eq!(r.requester, "alice");
    assert_eq!(r.request_height, 42);
    assert_eq!(r.submit_merkle_height, 0);
    assert_eq!(r.merkle_root, "");
    assert_eq!(r.threshold, 0);
    assert_eq!(r.service, "price");
}

fn ledger_of_ten() -> State {
    let mut st = empty_state();
    for i in 0..10u64 {
        let svc = if i % 2 == 0 { "even" } else { "odd" };
        handle_request(&mut st, "alice", i, String::from(svc), None, 0).unwrap();
    }
    st
}

#[test]
fn ascending_pages_have_no_overlap_and_no_gap() {
    let st = ledger_of_ten();
    let first = query_requests(&st, None, Some(3), None);
    assert_eq!(stages(&first), vec![1, 2, 3]);
    let second = query_requests(&st, Some(3), Some(3), None);
    assert_eq!(stages(&second), vec![4, 5, 6]);
    let third = query_requests(&st, Some(6), Some(3), None);
    assert_eq!(stages(&third), vec![7, 8, 9]);
}

#[test]
fn descending_pages_mirror_ascending_ones() {
    let st = ledger_of_ten();
    let first = query_requests(&st, None, Some(3), Some(2));
    assert_eq!(stages(&first), vec![10, 9, 8]);
    let second = query_requests(&st, Some(8), Some(3), Some(2));
    assert_eq!(stages(&second), vec![7, 6, 5]);
}

#[test]
fn limit_defaults_and_clamps() {
    let mut st = empty_state();
    for _ in 0..60 {
        handle_request(&mut st, "alice", 1, String::from("svc"), None, 0).unwrap();
    }
    assert_eq!(query_requests(&st, None, None, None).len(), 20);
    assert_eq!(query_requests(&st, None, Some(200), None).len(), 50);
    assert_eq!(query_requests(&st, None, Some(0), None).len(), 0);
}

#[test]
fn by_service_filters_before_paging() {
    let st = ledger_of_ten();
    let even = query_requests_by_service(&st, String::from("even"), None, None, None);
    assert_eq!(stages(&even), vec![1, 3, 5, 7, 9]);
    let odd_desc = query_requests_by_service(&st, String::from("odd"), None, Some(2), Some(2));
    assert_eq!(stages(&odd_desc), vec![10, 8]);
    let after = query_requests_by_service(&st, String::from("even"), Some(3), None, None);
    assert_eq!(stages(&after), vec![5, 7, 9]);
    let none = query_requests_by_service(&st, String::from("other"), None, None, None);
    assert!(none.is_empty());
}

#[test]
fn empty_root_bucket_holds_the_pending_requests() {
    let mut st = ledger_of_ten();
    let root = sha2::Sha256::digest(b"result").to_vec();
    let root_hex = hex::encode(&root);
    execute_register_merkle_root(&mut st, "owner", 99, 4, root_hex.clone(), Vec::new()).unwrap();
    let pending = query_requests_by_merkle_root(&st, String::new(), None, None, None);
    assert_eq!(stages(&pending), vec![1, 2, 3, 5, 6, 7, 8, 9, 10]);
    let anchored = query_requests_by_merkle_root(&st, root_hex, None, None, None);
    assert_eq!(stages(&anchored), vec![4]);
    let r = query_request(&st, 4).unwrap();
    assert_eq!(r.submit_merkle_height, 99);
}
