//! The executor registry: registration, soft deletion, size policy, and
//! ordered listings.

use aioracle::contract::{execute_update_config, instantiate};
use aioracle::error::ContractError;
use aioracle::executors::{query_executor_size, query_executors, read_executor, remove_executors,
    store_executors};
use aioracle::msg::{InstantiateMsg, UpdateConfigMsg};
use aioracle::state::State;

fn with_executors(ids: &[&str]) -> State {
    instantiate(
        "owner",
        InstantiateMsg {
            owner: None,
            executors: Some(ids.iter().map(|s| s.to_string()).collect()),
        },
    )
}

fn plain_config_msg() -> UpdateConfigMsg {
    UpdateConfigMsg {
        new_owner: None,
        new_executors: None,
        old_executors: None,
        new_checkpoint: None,
        new_checkpoint_threshold: None,
        new_max_req_threshold: None,
    }
}

#[test]
fn size_counts_active_rows() {
    let mut st = with_executors(&["e1", "e2", "e3"]);
    assert_eq!(query_executor_size(&st), 3);
    remove_executors(&mut st, &vec![String::from("e2")], 50);
    assert_eq!(query_executor_size(&st), 2);
    // a deregistered identity is no longer a member
    assert!(read_executor(&st, "e2").is_none());
    // its row stays behind the scenes: re-registering clears the mark
    store_executors(&mut st, &vec![String::from("e2")]);
    let row = read_executor(&st, "e2").unwrap();
    assert!(row.is_active);
    assert_eq!(row.left_block, None);
    assert_eq!(query_executor_size(&st), 3);
}

#[test]
fn batch_deregistration_drops_the_size_exactly() {
    let mut st = with_executors(&["e1", "e2", "e3", "e4"]);
    remove_executors(&mut st, &vec![String::from("e3")], 5);
    assert_eq!(query_executor_size(&st), 3);
    // duplicates and unknown or already-removed identities count nothing
    let batch = vec![
        String::from("e1"),
        String::from("e1"),
        String::from("e3"),
        String::from("ghost"),
        String::from("e2"),
    ];
    remove_executors(&mut st, &batch, 6);
    assert_eq!(query_executor_size(&st), 1);
    assert!(read_executor(&st, "e4").is_some());
}

#[test]
fn registering_twice_does_not_increase_the_count() {
    let mut st = with_executors(&["e1", "e2"]);
    assert_eq!(query_executor_size(&st), 2);
    store_executors(&mut st, &vec![String::from("e1")]);
    assert_eq!(query_executor_size(&st), 2);
    store_executors(&mut st, &vec![String::from("e1"), String::from("e1")]);
    assert_eq!(query_executor_size(&st), 2);
}

#[test]
fn reactivation_preserves_the_insertion_index() {
    let mut st = with_executors(&["bbb", "aaa"]);
    // indexes follow registration order, not key order
    assert_eq!(read_executor(&st, "bbb").unwrap().insertion_index, 0);
    assert_eq!(read_executor(&st, "aaa").unwrap().insertion_index, 1);
    remove_executors(&mut st, &vec![String::from("aaa")], 7);
    assert!(read_executor(&st, "aaa").is_none());
    store_executors(&mut st, &vec![String::from("aaa")]);
    let row = read_executor(&st, "aaa").unwrap();
    assert_eq!(row.insertion_index, 1);
    assert!(row.is_active);
    assert_eq!(row.left_block, None);
    // a genuinely new identity gets a fresh index
    store_executors(&mut st, &vec![String::from("ccc")]);
    assert_eq!(read_executor(&st, "ccc").unwrap().insertion_index, 2);
}

#[test]
fn unknown_identities_deregister_as_a_no_op() {
    let mut st = with_executors(&["e1"]);
    remove_executors(&mut st, &vec![String::from("ghost")], 3);
    assert_eq!(query_executor_size(&st), 1);
    assert!(read_executor(&st, "ghost").is_none());
}

#[test]
fn listing_walks_the_window_in_both_directions() {
    let st = with_executors(&["a1", "a2", "a3", "a4"]);
    let all = query_executors(&st, None, None, None, None);
    assert_eq!(all, vec!["a1", "a2", "a3", "a4"]);
    // ascending covers [start, end)
    let asc = query_executors(&st, Some(String::from("a2")), Some(String::from("a4")), None, None);
    assert_eq!(asc, vec!["a2", "a3"]);
    // descending starts at `start` inclusively and stops before `end`
    let desc = query_executors(
        &st,
        Some(String::from("a3")),
        Some(String::from("a1")),
        Some(2),
        None,
    );
    assert_eq!(desc, vec!["a3", "a2"]);
    let desc_open = query_executors(&st, None, None, Some(2), Some(2));
    assert_eq!(desc_open, vec!["a4", "a3"]);
    let capped = query_executors(&st, None, None, None, Some(1));
    assert_eq!(capped, vec!["a1"]);
}

#[test]
fn listing_hides_soft_deleted_rows() {
    let mut st = with_executors(&["a1", "a2"]);
    remove_executors(&mut st, &vec![String::from("a1")], 9);
    assert_eq!(query_executors(&st, None, None, None, None), vec!["a2"]);
    assert_eq!(query_executor_size(&st), 1);
    // re-registering brings the identity back into the listing
    store_executors(&mut st, &vec![String::from("a1")]);
    assert_eq!(query_executors(&st, None, None, None, None), vec!["a1", "a2"]);
}

#[test]
fn config_update_registers_and_deregisters() {
    let mut st = with_executors(&["e1"]);
    let msg = UpdateConfigMsg {
        new_executors: Some(vec![String::from("e2"), String::from("e3")]),
        old_executors: Some(vec![String::from("e1")]),
        ..plain_config_msg()
    };
    execute_update_config(&mut st, "owner", 77, msg).unwrap();
    assert_eq!(query_executor_size(&st), 2);
    assert!(read_executor(&st, "e1").is_none());
    assert!(read_executor(&st, "e2").unwrap().is_active);
    assert!(read_executor(&st, "e3").unwrap().is_active);
}

#[test]
fn config_update_is_owner_only() {
    let mut st = with_executors(&["e1"]);
    let r = execute_update_config(&mut st, "mallory", 1, plain_config_msg());
    assert_eq!(r.err().unwrap(), ContractError::Unauthorized);
    assert_eq!(query_executor_size(&st), 1);
}
