//! Service-metadata records: add, update, delete, and their authorization.

use aioracle::contract::{handle_add_service, handle_delete_service, handle_update_service,
    instantiate};
use aioracle::error::ContractError;
use aioracle::msg::{AddServiceMsg, InstantiateMsg, Response, UpdateServiceMsg};
use aioracle::state::{read_service_info, DataSourceState, Service, State};

fn empty_state() -> State {
    instantiate("owner", InstantiateMsg { owner: None, executors: None })
}

fn sample_service(url: &str) -> Service {
    Service { dsources: Vec::new(), tcases: Vec::new(), oscript_url: String::from(url) }
}

fn plain_update_msg(name: &str) -> UpdateServiceMsg {
    UpdateServiceMsg {
        service_name: String::from(name),
        new_owner: None,
        dsources: None,
        tcases: None,
        oscript_url: None,
    }
}

#[test]
fn add_and_read_back() {
    let mut st = empty_state();
    let msg = AddServiceMsg {
        service_name: String::from("price"),
        service: sample_service("ipfs://script"),
    };
    assert_eq!(handle_add_service(&mut st, "alice", msg), Ok(Response::ServiceAdded));
    let info = read_service_info(&st, "price").unwrap();
    assert_eq!(info.owner, "alice");
    assert_eq!(info.service.oscript_url, "ipfs://script");
    assert!(read_service_info(&st, "other").is_none());
}

#[test]
fn adding_an_existing_name_is_refused() {
    let mut st = empty_state();
    let msg = AddServiceMsg { service_name: String::from("price"), service: sample_service("u1") };
    handle_add_service(&mut st, "alice", msg).unwrap();
    let again = AddServiceMsg {
        service_name: String::from("price"),
        service: sample_service("u2"),
    };
    let r = handle_add_service(&mut st, "bob", again);
    assert_eq!(r.err().unwrap(), ContractError::ServiceExists);
    // the stored record is untouched
    assert_eq!(read_service_info(&st, "price").unwrap().service.oscript_url, "u1");
}

#[test]
fn update_is_owner_only_and_partial() {
    let mut st = empty_state();
    let msg = AddServiceMsg { service_name: String::from("price"), service: sample_service("u1") };
    handle_add_service(&mut st, "alice", msg).unwrap();

    let r = handle_update_service(&mut st, "bob", plain_update_msg("price"));
    assert_eq!(r.err().unwrap(), ContractError::Unauthorized);

    let r = handle_update_service(&mut st, "alice", plain_update_msg("missing"));
    assert_eq!(r.err().unwrap(), ContractError::ServiceNotFound);

    let mut msg = plain_update_msg("price");
    msg.oscript_url = Some(String::from("u2"));
    msg.dsources = Some(vec![DataSourceState {
        language: String::from("python"),
        script_url: String::from("ipfs://ds"),
        parameters: vec![b"p".to_vec()],
    }]);
    assert_eq!(handle_update_service(&mut st, "alice", msg), Ok(Response::ServiceUpdated));
    let info = read_service_info(&st, "price").unwrap();
    assert_eq!(info.owner, "alice");
    assert_eq!(info.service.oscript_url, "u2");
    assert_eq!(info.service.dsources.len(), 1);
    assert_eq!(info.service.dsources[0].language, "python");
}

#[test]
fn ownership_handover_demands_a_well_formed_identity() {
    let mut st = empty_state();
    let msg = AddServiceMsg { service_name: String::from("price"), service: sample_service("u") };
    handle_add_service(&mut st, "alice", msg).unwrap();

    let mut bad = plain_update_msg("price");
    bad.new_owner = Some(String::new());
    let r = handle_update_service(&mut st, "alice", bad);
    assert_eq!(r.err().unwrap(), ContractError::InvalidIdentity);

    let mut good = plain_update_msg("price");
    good.new_owner = Some(String::from("carol"));
    handle_update_service(&mut st, "alice", good).unwrap();
    assert_eq!(read_service_info(&st, "price").unwrap().owner, "carol");
    // the old owner lost the record
    let r = handle_update_service(&mut st, "alice", plain_update_msg("price"));
    assert_eq!(r.err().unwrap(), ContractError::Unauthorized);
}

#[test]
fn delete_is_owner_only() {
    let mut st = empty_state();
    let msg = AddServiceMsg { service_name: String::from("price"), service: sample_service("u") };
    handle_add_service(&mut st, "alice", msg).unwrap();

    let r = handle_delete_service(&mut st, "bob", String::from("price"));
    assert_eq!(r.err().unwrap(), ContractError::Unauthorized);
    let r = handle_delete_service(&mut st, "alice", String::from("missing"));
    assert_eq!(r.err().unwrap(), ContractError::ServiceNotFound);

    assert_eq!(
        handle_delete_service(&mut st, "alice", String::from("price")),
        Ok(Response::ServiceDeleted)
    );
    assert!(read_service_info(&st, "price").is_none());
}

#[test]
fn records_keep_name_order() {
    let mut st = empty_state();
    for name in ["zebra", "apple", "mango"] {
        let msg = AddServiceMsg { service_name: String::from(name), service: sample_service(name) };
        handle_add_service(&mut st, "alice", msg).unwrap();
    }
    for name in ["zebra", "apple", "mango"] {
        assert_eq!(read_service_info(&st, name).unwrap().service.oscript_url, name);
    }
}
