//! Merkle verification against real SHA-256 trees.

use aioracle::contract::{execute_register_merkle_root, handle_request, instantiate, verify_data};
use aioracle::error::ContractError;
use aioracle::msg::InstantiateMsg;
use aioracle::state::State;
use sha2::Digest;

fn sha(data: &[u8]) -> Vec<u8> {
    sha2::Sha256::digest(data).to_vec()
}

fn parent(a: &[u8], b: &[u8]) -> Vec<u8> {
    let (lo, hi) = if a <= b { (a, b) } else { (b, a) };
    let mut cat = lo.to_vec();
    cat.extend_from_slice(hi);
    sha(&cat)
}

/// A state with one pending request at stage 1, owned by "owner".
fn state_with_request() -> State {
    let mut st = instantiate("owner", InstantiateMsg { owner: None, executors: None });
    handle_request(&mut st, "alice", 7, String::from("price"), None, 0).unwrap();
    st
}

fn register(st: &mut State, root: &[u8]) {
    execute_register_merkle_root(st, "owner", 9, 1, hex::encode(root), Vec::new()).unwrap();
}

#[test]
fn zero_hop_tree_round_trip() {
    let mut st = state_with_request();
    let leaf = b"report-a".to_vec();
    register(&mut st, &sha(&leaf));
    assert_eq!(verify_data(&st, 1, &leaf, None), Ok(true));
    assert_eq!(verify_data(&st, 1, &leaf, Some(vec![])), Ok(true));
    assert_eq!(verify_data(&st, 1, &b"report-b".to_vec(), None), Ok(false));
}

#[test]
fn two_leaf_tree_round_trip() {
    let mut st = state_with_request();
    let (l0, l1) = (b"left".to_vec(), b"right".to_vec());
    let (h0, h1) = (sha(&l0), sha(&l1));
    register(&mut st, &parent(&h0, &h1));
    assert_eq!(verify_data(&st, 1, &l0, Some(vec![hex::encode(&h1)])), Ok(true));
    assert_eq!(verify_data(&st, 1, &l1, Some(vec![hex::encode(&h0)])), Ok(true));
    assert_eq!(verify_data(&st, 1, &l0, Some(vec![hex::encode(&h0)])), Ok(false));
}

#[test]
fn four_leaf_tree_round_trip() {
    let mut st = state_with_request();
    let leaves: Vec<Vec<u8>> = vec![
        b"aa".to_vec(),
        b"bb".to_vec(),
        b"cc".to_vec(),
        b"dd".to_vec(),
    ];
    let hs: Vec<Vec<u8>> = leaves.iter().map(|l| sha(l)).collect();
    let p01 = parent(&hs[0], &hs[1]);
    let p23 = parent(&hs[2], &hs[3]);
    let root = parent(&p01, &p23);
    register(&mut st, &root);
    // one proof per leaf
    let proofs: Vec<Vec<String>> = vec![
        vec![hex::encode(&hs[1]), hex::encode(&p23)],
        vec![hex::encode(&hs[0]), hex::encode(&p23)],
        vec![hex::encode(&hs[3]), hex::encode(&p01)],
        vec![hex::encode(&hs[2]), hex::encode(&p01)],
    ];
    for i in 0..4 {
        assert_eq!(verify_data(&st, 1, &leaves[i], Some(proofs[i].clone())), Ok(true));
    }
    // a wrong pairing fails
    assert_eq!(
        verify_data(
            &st,
            1,
            &leaves[0],
            Some(vec![hex::encode(&hs[2]), hex::encode(&p23)])
        ),
        Ok(false)
    );
}

#[test]
fn flipping_a_leaf_byte_fails() {
    let mut st = state_with_request();
    let (l0, l1) = (b"payload-0".to_vec(), b"payload-1".to_vec());
    let (h0, h1) = (sha(&l0), sha(&l1));
    register(&mut st, &parent(&h0, &h1));
    let proof = vec![hex::encode(&h1)];
    assert_eq!(verify_data(&st, 1, &l0, Some(proof.clone())), Ok(true));
    let mut flipped = l0.clone();
    flipped[0] ^= 0x01;
    assert_eq!(verify_data(&st, 1, &flipped, Some(proof)), Ok(false));
}

#[test]
fn flipping_a_proof_byte_fails() {
    let mut st = state_with_request();
    let (l0, l1) = (b"payload-0".to_vec(), b"payload-1".to_vec());
    let (h0, h1) = (sha(&l0), sha(&l1));
    register(&mut st, &parent(&h0, &h1));
    let mut bad = h1.clone();
    bad[31] ^= 0x80;
    assert_eq!(verify_data(&st, 1, &l0, Some(vec![hex::encode(&bad)])), Ok(false));
}

#[test]
fn verify_is_idempotent_and_pure() {
    let mut st = state_with_request();
    let leaf = b"stable".to_vec();
    register(&mut st, &sha(&leaf));
    let first = verify_data(&st, 1, &leaf, None);
    let second = verify_data(&st, 1, &leaf, None);
    assert_eq!(first, second);
    assert_eq!(first, Ok(true));
}

#[test]
fn unregistered_root_is_not_a_verification_failure() {
    let st = state_with_request();
    assert_eq!(
        verify_data(&st, 1, &b"x".to_vec(), None),
        Err(ContractError::NoCommittedRoot)
    );
}

#[test]
fn missing_stage_is_not_found() {
    let st = state_with_request();
    assert_eq!(verify_data(&st, 2, &b"x".to_vec(), None), Err(ContractError::NotFound));
    assert_eq!(verify_data(&st, 0, &b"x".to_vec(), None), Err(ContractError::NotFound));
}

#[test]
fn malformed_proof_hex_is_fatal() {
    let mut st = state_with_request();
    let leaf = b"leaf".to_vec();
    register(&mut st, &sha(&leaf));
    assert_eq!(
        verify_data(&st, 1, &leaf, Some(vec![String::from("zz")])),
        Err(ContractError::DecodeError)
    );
    assert_eq!(
        verify_data(&st, 1, &leaf, Some(vec![String::from("abcd")])),
        Err(ContractError::WrongLength)
    );
}
