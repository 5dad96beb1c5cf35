//! The two dispatchers, the pagination engine, and the root-registration
//! lifecycle.

use aioracle::contract::{execute, instantiate, query, query_config, MAXIMUM_REQ_THRESHOLD};
use aioracle::error::ContractError;
use aioracle::msg::{ExecuteMsg, InstantiateMsg, QueryMsg, QueryResponse, Response,
    UpdateConfigMsg};
use aioracle::pagination::{get_range_params, Order, DEFAULT_LIMIT, MAX_LIMIT};
use aioracle::state::State;
use sha2::Digest;

fn fresh() -> State {
    instantiate("owner", InstantiateMsg { owner: None, executors: None })
}

fn request_msg(service: &str) -> ExecuteMsg {
    ExecuteMsg::Request { service: String::from(service), input: None, threshold: 0 }
}

fn a_root_hex() -> String {
    hex::encode(sha2::Sha256::digest(b"result"))
}

#[test]
fn instantiate_defaults() {
    let st = fresh();
    let cfg = query_config(&st);
    assert_eq!(cfg.owner, "owner");
    assert_eq!(cfg.max_req_threshold, MAXIMUM_REQ_THRESHOLD);
    let named = instantiate(
        "someone",
        InstantiateMsg { owner: Some(String::from("boss")), executors: None },
    );
    assert_eq!(query_config(&named).owner, "boss");
}

#[test]
fn range_params_place_the_exclusive_offset() {
    let (limit, min, max, order) = get_range_params(Some(7u64), None, None);
    assert_eq!(limit, DEFAULT_LIMIT as usize);
    assert_eq!(order, Order::Ascending);
    assert_eq!(min, Some(7));
    assert_eq!(max, None);

    let (limit, min, max, order) = get_range_params(Some(7u64), Some(200), Some(2));
    assert_eq!(limit, MAX_LIMIT as usize);
    assert_eq!(order, Order::Descending);
    assert_eq!(min, None);
    assert_eq!(max, Some(7));

    let (limit, _, _, order) = get_range_params(None::<u64>, Some(5), Some(1));
    assert_eq!(limit, 5);
    assert_eq!(order, Order::Ascending);
}

#[test]
fn register_root_lifecycle() {
    let mut st = fresh();
    execute(&mut st, "alice", 4, request_msg("svc")).unwrap();
    let root_hex = a_root_hex();

    // not the owner
    let msg = ExecuteMsg::RegisterMerkleRoot {
        stage: 1,
        merkle_root: root_hex.clone(),
        executors: vec![],
    };
    assert_eq!(
        execute(&mut st, "alice", 5, msg).err().unwrap(),
        ContractError::Unauthorized
    );

    // malformed executor identity
    let msg = ExecuteMsg::RegisterMerkleRoot {
        stage: 1,
        merkle_root: root_hex.clone(),
        executors: vec![String::from("e1"), String::new()],
    };
    assert_eq!(
        execute(&mut st, "owner", 5, msg).err().unwrap(),
        ContractError::InvalidIdentity
    );

    // malformed root
    let msg = ExecuteMsg::RegisterMerkleRoot {
        stage: 1,
        merkle_root: String::from("not-hex"),
        executors: vec![],
    };
    assert_eq!(
        execute(&mut st, "owner", 5, msg).err().unwrap(),
        ContractError::DecodeError
    );
    let msg = ExecuteMsg::RegisterMerkleRoot {
        stage: 1,
        merkle_root: String::from("abcdef"),
        executors: vec![],
    };
    assert_eq!(
        execute(&mut st, "owner", 5, msg).err().unwrap(),
        ContractError::WrongLength
    );

    // absent stage
    let msg = ExecuteMsg::RegisterMerkleRoot {
        stage: 9,
        merkle_root: root_hex.clone(),
        executors: vec![],
    };
    assert_eq!(
        execute(&mut st, "owner", 5, msg).err().unwrap(),
        ContractError::NotFound
    );

    // success
    let msg = ExecuteMsg::RegisterMerkleRoot {
        stage: 1,
        merkle_root: root_hex.clone(),
        executors: vec![String::from("e1")],
    };
    assert_eq!(
        execute(&mut st, "owner", 5, msg).unwrap(),
        Response::MerkleRootRegistered { stage: 1 }
    );
}

#[test]
fn a_finished_stage_is_immutable() {
    let mut st = fresh();
    execute(&mut st, "alice", 4, request_msg("svc")).unwrap();
    let root_hex = a_root_hex();
    let msg = ExecuteMsg::RegisterMerkleRoot {
        stage: 1,
        merkle_root: root_hex.clone(),
        executors: vec![],
    };
    execute(&mut st, "owner", 5, msg).unwrap();

    // the same root again
    let same = ExecuteMsg::RegisterMerkleRoot {
        stage: 1,
        merkle_root: root_hex.clone(),
        executors: vec![],
    };
    assert_eq!(
        execute(&mut st, "owner", 6, same).err().unwrap(),
        ContractError::AlreadyFinished
    );
    // a different root
    let other = ExecuteMsg::RegisterMerkleRoot {
        stage: 1,
        merkle_root: hex::encode(sha2::Sha256::digest(b"other")),
        executors: vec![],
    };
    assert_eq!(
        execute(&mut st, "owner", 6, other).err().unwrap(),
        ContractError::AlreadyFinished
    );
    // the committed record is untouched
    match query(&st, QueryMsg::GetRequest { stage: 1 }).unwrap() {
        QueryResponse::Request(r) => {
            assert_eq!(r.merkle_root, root_hex);
            assert_eq!(r.submit_merkle_height, 5);
        },
        other => panic!("unexpected answer: {:?}", other),
    }
}

#[test]
fn query_dispatch_answers_every_kind() {
    let mut st = instantiate(
        "owner",
        InstantiateMsg {
            owner: None,
            executors: Some(vec![String::from("e1"), String::from("e2")]),
        },
    );
    execute(&mut st, "alice", 4, request_msg("svc")).unwrap();

    match query(&st, QueryMsg::Config {}).unwrap() {
        QueryResponse::Config(c) => assert_eq!(c.owner, "owner"),
        other => panic!("unexpected answer: {:?}", other),
    }
    match query(&st, QueryMsg::GetExecutors { start: None, end: None, order: None, limit: None })
        .unwrap()
    {
        QueryResponse::Executors(v) => assert_eq!(v, vec!["e1", "e2"]),
        other => panic!("unexpected answer: {:?}", other),
    }
    match query(&st, QueryMsg::CheckExecutorInList { address: String::from("e1") }).unwrap() {
        QueryResponse::ExecutorInList(b) => assert!(b),
        other => panic!("unexpected answer: {:?}", other),
    }
    match query(&st, QueryMsg::CheckExecutorInList { address: String::from("zz") }).unwrap() {
        QueryResponse::ExecutorInList(b) => assert!(!b),
        other => panic!("unexpected answer: {:?}", other),
    }
    match query(&st, QueryMsg::GetExecutorSize {}).unwrap() {
        QueryResponse::ExecutorSize(n) => assert_eq!(n, 2),
        other => panic!("unexpected answer: {:?}", other),
    }
    match query(&st, QueryMsg::GetRequests { offset: None, limit: None, order: None }).unwrap() {
        QueryResponse::Requests(v) => assert_eq!(v.len(), 1),
        other => panic!("unexpected answer: {:?}", other),
    }
    match query(&st, QueryMsg::LatestStage {}).unwrap() {
        QueryResponse::LatestStage(x) => assert_eq!(x.latest_stage, 1),
        other => panic!("unexpected answer: {:?}", other),
    }
    let verdict = query(
        &st,
        QueryMsg::VerifyData { stage: 1, data: b"x".to_vec(), proof: None },
    );
    assert_eq!(verdict.err().unwrap(), ContractError::NoCommittedRoot);
}

#[test]
fn update_config_validates_the_cap() {
    let mut st = fresh();
    let cap_msg = |t: u64| ExecuteMsg::UpdateConfig {
        update_config_msg: UpdateConfigMsg {
            new_owner: None,
            new_executors: None,
            old_executors: None,
            new_checkpoint: None,
            new_checkpoint_threshold: None,
            new_max_req_threshold: Some(t),
        },
    };
    // a cap above 100 percent is refused, and nothing changes
    assert_eq!(
        execute(&mut st, "owner", 3, cap_msg(150)).err().unwrap(),
        ContractError::InvalidCap
    );
    assert_eq!(query_config(&st).max_req_threshold, MAXIMUM_REQ_THRESHOLD);
    // the bounds themselves pass
    execute(&mut st, "owner", 3, cap_msg(100)).unwrap();
    assert_eq!(query_config(&st).max_req_threshold, 100);
    execute(&mut st, "owner", 3, cap_msg(0)).unwrap();
    assert_eq!(query_config(&st).max_req_threshold, 0);
}

#[test]
fn deregistered_executor_reads_as_absent() {
    let mut st = instantiate(
        "owner",
        InstantiateMsg { owner: None, executors: Some(vec![String::from("e1")]) },
    );
    match query(&st, QueryMsg::CheckExecutorInList { address: String::from("e1") }).unwrap() {
        QueryResponse::ExecutorInList(b) => assert!(b),
        other => panic!("unexpected answer: {:?}", other),
    }
    let msg = ExecuteMsg::UpdateConfig {
        update_config_msg: UpdateConfigMsg {
            new_owner: None,
            new_executors: None,
            old_executors: Some(vec![String::from("e1")]),
            new_checkpoint: None,
            new_checkpoint_threshold: None,
            new_max_req_threshold: None,
        },
    };
    execute(&mut st, "owner", 8, msg).unwrap();
    match query(&st, QueryMsg::CheckExecutorInList { address: String::from("e1") }).unwrap() {
        QueryResponse::ExecutorInList(b) => assert!(!b),
        other => panic!("unexpected answer: {:?}", other),
    }
    match query(&st, QueryMsg::GetExecutors { start: None, end: None, order: None, limit: None })
        .unwrap()
    {
        QueryResponse::Executors(v) => assert!(v.is_empty()),
        other => panic!("unexpected answer: {:?}", other),
    }
}

#[test]
fn update_config_changes_owner_and_cap() {
    let mut st = fresh();
    let msg = ExecuteMsg::UpdateConfig {
        update_config_msg: UpdateConfigMsg {
            new_owner: Some(String::from("owner2")),
            new_executors: None,
            old_executors: None,
            new_checkpoint: None,
            new_checkpoint_threshold: None,
            new_max_req_threshold: Some(50),
        },
    };
    assert_eq!(execute(&mut st, "owner", 3, msg).unwrap(), Response::ConfigUpdated);
    let cfg = query_config(&st);
    assert_eq!(cfg.owner, "owner2");
    assert_eq!(cfg.max_req_threshold, 50);
    // the old owner is out
    let msg = ExecuteMsg::UpdateConfig {
        update_config_msg: UpdateConfigMsg {
            new_owner: None,
            new_executors: None,
            old_executors: None,
            new_checkpoint: None,
            new_checkpoint_threshold: None,
            new_max_req_threshold: None,
        },
    };
    assert_eq!(
        execute(&mut st, "owner", 3, msg).err().unwrap(),
        ContractError::Unauthorized
    );
}
