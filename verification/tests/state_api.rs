//! The low-level state accessors, exercised directly.

use aioracle::contract::instantiate;
use aioracle::executors::{query_executor_size, read_executor, remove_executor, store_executor};
use aioracle::msg::InstantiateMsg;
use aioracle::state::{config_read, config_save, config_update, latest_stage_read,
    read_service_info, remove_service_info, store_service_info, Config, Service, ServiceInfo,
    State};

fn empty_state() -> State {
    instantiate("owner", InstantiateMsg { owner: None, executors: None })
}

#[test]
fn config_round_trips() {
    let mut st = empty_state();
    config_save(&mut st, Config { owner: String::from("boss"), max_req_threshold: 40 });
    assert_eq!(config_read(&st).owner, "boss");
    assert_eq!(config_read(&st).max_req_threshold, 40);
    config_update(&mut st, None, Some(80));
    assert_eq!(config_read(&st).owner, "boss");
    assert_eq!(config_read(&st).max_req_threshold, 80);
    config_update(&mut st, Some(String::from("next")), None);
    assert_eq!(config_read(&st).owner, "next");
    assert_eq!(config_read(&st).max_req_threshold, 80);
}

#[test]
fn latest_stage_starts_at_zero() {
    let st = empty_state();
    assert_eq!(latest_stage_read(&st), 0);
}

#[test]
fn single_executor_ops() {
    let mut st = empty_state();
    assert_eq!(query_executor_size(&st), 0);
    store_executor(&mut st, "solo");
    assert_eq!(query_executor_size(&st), 1);
    let row = read_executor(&st, "solo").unwrap();
    assert!(row.is_active);
    assert_eq!(row.insertion_index, 0);
    assert_eq!(row.left_block, None);
    remove_executor(&mut st, "solo", 12);
    assert_eq!(query_executor_size(&st), 0);
    // deregistered: no longer a member
    assert!(read_executor(&st, "solo").is_none());
    // re-registering the same identity reuses the row and its index
    store_executor(&mut st, "solo");
    let row = read_executor(&st, "solo").unwrap();
    assert_eq!(row.insertion_index, 0);
    assert_eq!(row.left_block, None);
    assert_eq!(query_executor_size(&st), 1);
}

#[test]
fn service_records_replace_and_remove() {
    let mut st = empty_state();
    let info = |owner: &str, url: &str| ServiceInfo {
        owner: String::from(owner),
        service: Service {
            dsources: Vec::new(),
            tcases: Vec::new(),
            oscript_url: String::from(url),
        },
    };
    store_service_info(&mut st, "alpha", info("a", "u1"));
    store_service_info(&mut st, "beta", info("b", "u2"));
    assert_eq!(read_service_info(&st, "alpha").unwrap().service.oscript_url, "u1");
    // storing under the same name replaces the record
    store_service_info(&mut st, "alpha", info("a", "u3"));
    assert_eq!(read_service_info(&st, "alpha").unwrap().service.oscript_url, "u3");
    assert_eq!(read_service_info(&st, "beta").unwrap().service.oscript_url, "u2");
    remove_service_info(&mut st, "alpha");
    assert!(read_service_info(&st, "alpha").is_none());
    assert!(read_service_info(&st, "beta").is_some());
    // removing a missing record is a no-op
    remove_service_info(&mut st, "alpha");
    assert!(read_service_info(&st, "beta").is_some());
}
