//! Entry points of the oracle: instantiation, the mutating command
//! dispatcher and its handlers, the query dispatcher, and data
//! verification. Every mutating handler is all-or-nothing: on any error the
//! state is returned exactly as it was.

use vstd::prelude::*;
use crate::error::ContractError;
use crate::executors::{active_count, contains_id, executor_at, has_executor, in_executor_list,
    query_executor_size, query_executors, read_executor, remove_executors, store_executors,
    window_ids};
use crate::gate::{admissible, admissible_spec};
use crate::keys::{compare_keys, KeyOrder};
use crate::ledger::{matching_resps, query_latest_stage, query_request, query_requests,
    query_requests_by_merkle_root, query_requests_by_service, resp_of, RequestSelector};
use crate::merkle::{hash_decode_error, proof_matches_root, verify_decode_error, verify_proof};
use crate::msg::{AddServiceMsg, ExecuteMsg, InstantiateMsg, QueryMsg, QueryResponse, Response,
    UpdateConfigMsg, UpdateServiceMsg};
use crate::pagination::{chosen_order, clamped_limit, page, Order};
use crate::state::{config_update, has_service, lemma_service_index_is, locate_service,
    lemma_store_update_ok, remove_service_info, service_info_of, store_service_info, Config,
    Request, ServiceInfo, ServiceRecord, State};

verus! {

/// Percentage cap a fresh instance starts with.
pub const MAXIMUM_REQ_THRESHOLD: u64 = 67;

/// The structural well-formedness the core demands of an identity string;
/// full address validation belongs to the host boundary.
pub open spec fn valid_identity(id: Seq<char>) -> bool {
    id.len() > 0
}

/// Whether `k` is among the identities of an optional batch.
pub open spec fn listed(ids: Option<Vec<String>>, k: Seq<char>) -> bool {
    match ids {
        Some(v) => contains_id(v@, k),
        None => false,
    }
}

/// Creates the initial state: the sender (or the named owner) owns the
/// contract, the stage counter is zero, and the given executors, if any,
/// form the registry.
pub fn instantiate(sender: &str, msg: InstantiateMsg) -> (st: State)
    requires
        match msg.executors {
            Some(ids) => ids@.len() <= u64::MAX,
            None => true,
        },
    ensures
        st.wf(),
        st.config.owner@ == (match msg.owner {
            Some(o) => o@,
            None => sender@,
        }),
        st.config.max_req_threshold == MAXIMUM_REQ_THRESHOLD,
        st.latest_stage() == 0,
        st.services@.len() == 0,
        forall|k: Seq<char>|
            #[trigger] has_executor(st.executors@, k) == (match msg.executors {
                Some(ids) => contains_id(ids@, k),
                None => false,
            }),
        forall|k: Seq<char>|
            has_executor(st.executors@, k) ==> (#[trigger] executor_at(st.executors@, k)).is_active
                && executor_at(st.executors@, k).left_block is None,
{
    let owner = match msg.owner {
        Some(o) => o,
        None => sender.to_owned(),
    };
    let mut st = State {
        config: Config { owner, max_req_threshold: MAXIMUM_REQ_THRESHOLD },
        requests: Vec::new(),
        executors: Vec::new(),
        next_executor_index: 0,
        services: Vec::new(),
    };
    match msg.executors {
        Some(ids) => {
            store_executors(&mut st, &ids);
        },
        None => {},
    }
    st
}

/// Largest percentage cap a config update accepts.
pub const MAX_CAP_PCT: u64 = 100;

/// Why `execute_update_config` fails, if it does; checks run in this order.
/// The store itself does not bound the cap, so this path validates it.
pub open spec fn update_config_error(pre: State, sender: Seq<char>, m: UpdateConfigMsg) -> Option<
    ContractError,
> {
    if sender != pre.config.owner@ {
        Some(ContractError::Unauthorized)
    } else if m.new_max_req_threshold matches Some(t) && t > MAX_CAP_PCT {
        Some(ContractError::InvalidCap)
    } else {
        None
    }
}

/// What a finished `execute_update_config` guarantees: on success the
/// stored cap is the requested one, which this path has checked against
/// `MAX_CAP_PCT`.
pub open spec fn update_config_post(
    pre: State,
    post: State,
    sender: Seq<char>,
    height: u64,
    m: UpdateConfigMsg,
    r: Result<Response, ContractError>,
) -> bool {
    &&& post.wf()
    &&& (r is Err <==> update_config_error(pre, sender, m) is Some)
    &&& (r is Err ==> r->Err_0 == update_config_error(pre, sender, m)->0 && post == pre)
    &&& (r is Ok ==> {
        &&& r->Ok_0 == Response::ConfigUpdated
        &&& sender == pre.config.owner@
        &&& (m.new_max_req_threshold matches Some(t) ==> t <= MAX_CAP_PCT
            && post.config.max_req_threshold <= MAX_CAP_PCT)
        &&& post.config.owner@ == (match m.new_owner {
            Some(o) => o@,
            None => pre.config.owner@,
        })
        &&& post.config.max_req_threshold == (match m.new_max_req_threshold {
            Some(t) => t,
            None => pre.config.max_req_threshold,
        })
        &&& post.requests == pre.requests
        &&& post.services == pre.services
        // rows are created for the new identities, never destroyed
        &&& (forall|k: Seq<char>|
            #[trigger] has_executor(post.executors@, k) == (has_executor(pre.executors@, k)
                || listed(m.new_executors, k)))
        // deregistered identities end soft-deleted at this height
        &&& (forall|k: Seq<char>|
            listed(m.old_executors, k) && has_executor(post.executors@, k) ==> !(
            #[trigger] executor_at(post.executors@, k)).is_active && executor_at(
                post.executors@,
                k,
            ).left_block == Some(height))
        // newly registered identities (not also deregistered) end active
        &&& (forall|k: Seq<char>|
            listed(m.new_executors, k) && !listed(m.old_executors, k)
                ==> (#[trigger] executor_at(post.executors@, k)).is_active && executor_at(
                post.executors@,
                k,
            ).left_block is None)
        // identities in neither batch are untouched
        &&& (forall|k: Seq<char>|
            !listed(m.new_executors, k) && !listed(m.old_executors, k) && has_executor(
                pre.executors@,
                k,
            ) ==> #[trigger] executor_at(post.executors@, k) == executor_at(pre.executors@, k))
        // insertion indexes are stable
        &&& (forall|k: Seq<char>|
            #[trigger] has_executor(pre.executors@, k) ==> executor_at(
                post.executors@,
                k,
            ).insertion_index == executor_at(pre.executors@, k).insertion_index)
    })
}

/// Owner-only update of the configuration and the executor registry: new
/// executors are registered first, old ones deregistered after.
#[verifier::rlimit(30)]
pub fn execute_update_config(
    st: &mut State,
    sender: &str,
    height: u64,
    update_config_msg: UpdateConfigMsg,
) -> (r: Result<Response, ContractError>)
    requires
        old(st).wf(),
        match update_config_msg.new_executors {
            Some(ids) => old(st).next_executor_index + ids@.len() <= u64::MAX,
            None => true,
        },
    ensures
        update_config_post(*old(st), *final(st), sender@, height, update_config_msg, r),
{
    let ghost pre = *old(st);
    let is_owner = match compare_keys(sender, st.config.owner.as_str()) {
        KeyOrder::Equal => true,
        _ => false,
    };
    if !is_owner {
        return Err(ContractError::Unauthorized);
    }
    match update_config_msg.new_max_req_threshold {
        Some(t) => {
            if t > MAX_CAP_PCT {
                return Err(ContractError::InvalidCap);
            }
        },
        None => {},
    }
    let UpdateConfigMsg { new_owner, new_executors, old_executors, new_max_req_threshold, .. } =
        update_config_msg;
    let ghost new_list = new_executors;
    let ghost old_list = old_executors;
    config_update(st, new_owner, new_max_req_threshold);
    let new_vec: Vec<String> = match new_executors {
        Some(v) => v,
        None => Vec::new(),
    };
    let old_vec: Vec<String> = match old_executors {
        Some(v) => v,
        None => Vec::new(),
    };
    proof {
        assert forall|k: Seq<char>|
            #[trigger] contains_id(new_vec@, k) == listed(new_list, k) by {
            if new_list is None {
                assert(!contains_id(new_vec@, k));
            }
        }
        assert forall|k: Seq<char>|
            #[trigger] contains_id(old_vec@, k) == listed(old_list, k) by {
            if old_list is None {
                assert(!contains_id(old_vec@, k));
            }
        }
    }
    store_executors(st, &new_vec);
    let ghost mid = *st;
    remove_executors(st, &old_vec, height);
    proof {
        assert forall|k: Seq<char>|
            #[trigger] has_executor(st.executors@, k) == (has_executor(pre.executors@, k)
                || listed(new_list, k)) by {
            assert(contains_id(new_vec@, k) == listed(new_list, k));
            assert(has_executor(st.executors@, k) == has_executor(mid.executors@, k));
        }
        assert forall|k: Seq<char>|
            listed(old_list, k) && has_executor(st.executors@, k) implies !(
        #[trigger] executor_at(st.executors@, k)).is_active && executor_at(
            st.executors@,
            k,
        ).left_block == Some(height) by {
            assert(contains_id(old_vec@, k) == listed(old_list, k));
            assert(has_executor(mid.executors@, k));
        }
        assert forall|k: Seq<char>|
            listed(new_list, k) && !listed(old_list, k) implies (#[trigger] executor_at(
            st.executors@,
            k,
        )).is_active && executor_at(st.executors@, k).left_block is None by {
            assert(contains_id(new_vec@, k) == listed(new_list, k));
            assert(contains_id(old_vec@, k) == listed(old_list, k));
            assert(contains_id(new_vec@, k));
            assert(has_executor(mid.executors@, k));
            assert(executor_at(mid.executors@, k).is_active);
            assert(executor_at(mid.executors@, k).left_block is None);
            assert(executor_at(st.executors@, k) == executor_at(mid.executors@, k));
        }
        assert forall|k: Seq<char>|
            !listed(new_list, k) && !listed(old_list, k) && has_executor(pre.executors@, k)
                implies #[trigger] executor_at(st.executors@, k) == executor_at(
            pre.executors@,
            k,
        ) by {
            assert(contains_id(new_vec@, k) == listed(new_list, k));
            assert(contains_id(old_vec@, k) == listed(old_list, k));
            assert(executor_at(mid.executors@, k) == executor_at(pre.executors@, k));
            assert(has_executor(mid.executors@, k));
            assert(executor_at(st.executors@, k) == executor_at(mid.executors@, k));
        }
        assert forall|k: Seq<char>|
            #[trigger] has_executor(pre.executors@, k) implies executor_at(
            st.executors@,
            k,
        ).insertion_index == executor_at(pre.executors@, k).insertion_index by {
            assert(contains_id(new_vec@, k) == listed(new_list, k));
            assert(contains_id(old_vec@, k) == listed(old_list, k));
            assert(executor_at(mid.executors@, k).insertion_index == executor_at(
                pre.executors@,
                k,
            ).insertion_index);
            assert(has_executor(mid.executors@, k));
            if contains_id(old_vec@, k) {
                assert(executor_at(st.executors@, k).insertion_index == executor_at(
                    mid.executors@,
                    k,
                ).insertion_index);
            } else {
                assert(executor_at(st.executors@, k) == executor_at(mid.executors@, k));
            }
        }
    }
    Ok(Response::ConfigUpdated)
}

/// What a finished `handle_request` guarantees: the admission gate decides,
/// and an admitted request is appended under the next stage — strictly
/// increasing from 1 with no gaps over any sequence of calls.
pub open spec fn request_post(
    pre: State,
    post: State,
    sender: Seq<char>,
    height: u64,
    service: Seq<char>,
    input: Option<Vec<u8>>,
    threshold: u64,
    r: Result<Response, ContractError>,
) -> bool {
    &&& post.wf()
    &&& (r is Err ==> r->Err_0 == ContractError::InvalidThreshold && !admissible_spec(
        threshold,
        active_count(pre.executors@),
        pre.config.max_req_threshold,
    ) && post == pre)
    &&& (r is Ok ==> {
        &&& admissible_spec(threshold, active_count(pre.executors@), pre.config.max_req_threshold)
        &&& r->Ok_0 == (Response::RequestHandled { stage: (pre.latest_stage() + 1) as u64 })
        &&& post.latest_stage() == pre.latest_stage() + 1
        &&& post.requests@ == pre.requests@.push(post.requests@.last())
        &&& ({
            let nr = post.requests@.last();
            &&& nr.requester@ == sender
            &&& nr.request_height == height
            &&& nr.submit_merkle_height == 0
            &&& nr.merkle_root@ == Seq::<char>::empty()
            &&& nr.threshold == threshold
            &&& nr.service@ == service
            &&& nr.input == input
        })
        &&& post.config == pre.config
        &&& post.executors == pre.executors
        &&& post.next_executor_index == pre.next_executor_index
        &&& post.services == pre.services
    })
}

/// Open to any caller: appends a new pending request under the next stage
/// if its threshold passes the admission gate against the current number of
/// active executors.
pub fn handle_request(
    st: &mut State,
    sender: &str,
    height: u64,
    service: String,
    input: Option<Vec<u8>>,
    threshold: u64,
) -> (r: Result<Response, ContractError>)
    requires
        old(st).wf(),
        old(st).latest_stage() < u64::MAX,
    ensures
        request_post(*old(st), *final(st), sender@, height, service@, input, threshold, r),
{
    let size = query_executor_size(st);
    if !admissible(threshold, size, st.config.max_req_threshold) {
        return Err(ContractError::InvalidThreshold);
    }
    let req = Request {
        requester: sender.to_owned(),
        request_height: height,
        submit_merkle_height: 0,
        merkle_root: String::new(),
        threshold,
        service,
        input,
    };
    st.requests.push(req);
    Ok(Response::RequestHandled { stage: st.requests.len() as u64 })
}

/// Why `execute_register_merkle_root` fails, if it does; checks run in this
/// order.
pub open spec fn register_root_error(
    pre: State,
    sender: Seq<char>,
    stage: u64,
    mroot: Seq<char>,
    executors: Seq<String>,
) -> Option<ContractError> {
    if sender != pre.config.owner@ {
        Some(ContractError::Unauthorized)
    } else if exists|i: int|
        0 <= i < executors.len() && !valid_identity((#[trigger] executors[i])@) {
        Some(ContractError::InvalidIdentity)
    } else if hash_decode_error(mroot) is Some {
        hash_decode_error(mroot)
    } else if !pre.has_stage(stage as int) {
        Some(ContractError::NotFound)
    } else if pre.request_at(stage as int).merkle_root@.len() != 0 {
        Some(ContractError::AlreadyFinished)
    } else {
        None
    }
}

/// What a finished `execute_register_merkle_root` guarantees.
pub open spec fn register_root_post(
    pre: State,
    post: State,
    sender: Seq<char>,
    height: u64,
    stage: u64,
    mroot: Seq<char>,
    executors: Seq<String>,
    r: Result<Response, ContractError>,
) -> bool {
    &&& post.wf()
    &&& (r is Err <==> register_root_error(pre, sender, stage, mroot, executors) is Some)
    &&& (r is Err ==> r->Err_0 == register_root_error(pre, sender, stage, mroot, executors)->0
        && post == pre)
    &&& (r is Ok ==> {
        &&& r->Ok_0 == (Response::MerkleRootRegistered { stage })
        &&& post.requests@ == pre.requests@.update(stage - 1, post.requests@[stage - 1])
        &&& ({
            let nr = post.requests@[stage - 1];
            let or = pre.requests@[stage - 1];
            &&& nr.merkle_root@ == mroot
            &&& nr.submit_merkle_height == height
            &&& nr.requester == or.requester
            &&& nr.request_height == or.request_height
            &&& nr.threshold == or.threshold
            &&& nr.service == or.service
            &&& nr.input == or.input
        })
        &&& post.config == pre.config
        &&& post.executors == pre.executors
        &&& post.next_executor_index == pre.next_executor_index
        &&& post.services == pre.services
    })
}

/// Owner-only: anchors the agreed 32-byte root for a pending stage. A stage
/// whose root is already set is immutable: the call fails with
/// `AlreadyFinished` no matter what root is offered.
pub fn execute_register_merkle_root(
    st: &mut State,
    sender: &str,
    height: u64,
    stage: u64,
    mroot: String,
    executors: Vec<String>,
) -> (r: Result<Response, ContractError>)
    requires
        old(st).wf(),
    ensures
        register_root_post(
            *old(st),
            *final(st),
            sender@,
            height,
            stage,
            mroot@,
            executors@,
            r,
        ),
{
    let is_owner = match compare_keys(sender, st.config.owner.as_str()) {
        KeyOrder::Equal => true,
        _ => false,
    };
    if !is_owner {
        return Err(ContractError::Unauthorized);
    }
    let n = executors.len();
    let mut i: usize = 0;
    while i < n
        invariant
            0 <= i <= n,
            n == executors@.len(),
            *st == *old(st),
            st.wf(),
            sender@ == old(st).config.owner@,
            forall|j: int| 0 <= j < i ==> valid_identity((#[trigger] executors@[j])@),
        decreases n - i,
    {
        if executors[i].as_str().is_empty() {
            proof {
                assert(!valid_identity((executors@[i as int])@));
            }
            return Err(ContractError::InvalidIdentity);
        }
        i = i + 1;
    }
    match crate::merkle::decode_hash(mroot.as_str()) {
        Err(e) => {
            return Err(e);
        },
        Ok(_) => {},
    }
    let len = st.requests.len();
    if stage < 1 || stage > len as u64 {
        return Err(ContractError::NotFound);
    }
    let idx = (stage - 1) as usize;
    if !st.requests[idx].merkle_root.as_str().is_empty() {
        return Err(ContractError::AlreadyFinished);
    }
    let mut req = st.requests.remove(idx);
    req.merkle_root = mroot;
    req.submit_merkle_height = height;
    st.requests.insert(idx, req);
    proof {
        assert(st.requests@ =~= old(st).requests@.update(idx as int, st.requests@[idx as int]));
    }
    Ok(Response::MerkleRootRegistered { stage })
}

/// A stage whose root is set always rejects re-registration with
/// `AlreadyFinished`, regardless of whether the new root equals the old
/// one.
pub proof fn lemma_already_finished(
    pre: State,
    sender: Seq<char>,
    stage: u64,
    mroot: Seq<char>,
    executors: Seq<String>,
)
    requires
        sender == pre.config.owner@,
        forall|i: int| 0 <= i < executors.len() ==> valid_identity((#[trigger] executors[i])@),
        hash_decode_error(mroot) is None,
        pre.has_stage(stage as int),
        pre.request_at(stage as int).merkle_root@.len() != 0,
    ensures
        register_root_error(pre, sender, stage, mroot, executors) == Some(
            ContractError::AlreadyFinished,
        ),
{
}

/// The verification outcome, a pure function of the state's committed root
/// at that stage and the supplied leaf and proof path. A missing committed
/// root is reported as its own failure, never as a verification failure.
pub open spec fn verify_outcome(
    pre: State,
    stage: u64,
    data: Seq<u8>,
    proofs: Seq<Seq<char>>,
) -> Result<bool, ContractError> {
    if !pre.has_stage(stage as int) {
        Err(ContractError::NotFound)
    } else if pre.request_at(stage as int).merkle_root@.len() == 0 {
        Err(ContractError::NoCommittedRoot)
    } else {
        let root = pre.request_at(stage as int).merkle_root@;
        match verify_decode_error(root, proofs) {
            Some(e) => Err(e),
            None => Ok(proof_matches_root(root, data, proofs)),
        }
    }
}

pub open spec fn opt_proofs_view(p: Option<Vec<String>>) -> Seq<Seq<char>> {
    match p {
        Some(v) => v.deep_view(),
        None => Seq::empty(),
    }
}

/// Checks a leaf against the Merkle root committed for `stage`. Read-only.
pub fn verify_data(st: &State, stage: u64, data: &Vec<u8>, proofs: Option<Vec<String>>) -> (r:
    Result<bool, ContractError>)
    ensures
        r == verify_outcome(*st, stage, data@, opt_proofs_view(proofs)),
{
    let len = st.requests.len();
    if stage < 1 || stage > len as u64 {
        return Err(ContractError::NotFound);
    }
    let idx = (stage - 1) as usize;
    if st.requests[idx].merkle_root.as_str().is_empty() {
        return Err(ContractError::NoCommittedRoot);
    }
    let proof_vec: Vec<String> = match proofs {
        Some(p) => p,
        None => Vec::new(),
    };
    proof {
        assert(proof_vec.deep_view() =~= opt_proofs_view(proofs));
    }
    verify_proof(st.requests[idx].merkle_root.as_str(), data, &proof_vec)
}

/// Verification is idempotent and pure: it mutates nothing (it takes the
/// state by shared reference) and its outcome depends only on the committed
/// root, the leaf, and the proof path — any two calls over the same root
/// agree.
pub proof fn lemma_verify_pure(
    st1: State,
    stage1: u64,
    st2: State,
    stage2: u64,
    data: Seq<u8>,
    proofs: Seq<Seq<char>>,
)
    requires
        st1.has_stage(stage1 as int),
        st2.has_stage(stage2 as int),
        st1.request_at(stage1 as int).merkle_root@ == st2.request_at(stage2 as int).merkle_root@,
    ensures
        verify_outcome(st1, stage1, data, proofs) == verify_outcome(st2, stage2, data, proofs),
{
}

/// What a finished `handle_add_service` guarantees.
pub open spec fn add_service_post(
    pre: State,
    post: State,
    sender: Seq<char>,
    m: AddServiceMsg,
    r: Result<Response, ContractError>,
) -> bool {
    &&& post.wf()
    &&& (r is Err <==> has_service(pre.services@, m.service_name@))
    &&& (r is Err ==> r->Err_0 == ContractError::ServiceExists && post == pre)
    &&& (r is Ok ==> {
        &&& r->Ok_0 == Response::ServiceAdded
        &&& !has_service(pre.services@, m.service_name@)
        &&& has_service(post.services@, m.service_name@)
        &&& service_info_of(post.services@, m.service_name@).owner@ == sender
        &&& service_info_of(post.services@, m.service_name@).service == m.service
        &&& (forall|k: Seq<char>|
            k != m.service_name@ ==> #[trigger] has_service(post.services@, k) == has_service(
                pre.services@,
                k,
            ))
        &&& (forall|k: Seq<char>|
            k != m.service_name@ && has_service(pre.services@, k) ==> #[trigger] service_info_of(
                post.services@,
                k,
            ) == service_info_of(pre.services@, k))
        &&& post.config == pre.config
        &&& post.requests == pre.requests
        &&& post.executors == pre.executors
        &&& post.next_executor_index == pre.next_executor_index
    })
}

/// Adds a service record under a fresh name; the sender becomes its owner.
/// A taken name is refused with its own kind, so tooling can tell a
/// duplicate from an authorization failure.
pub fn handle_add_service(st: &mut State, sender: &str, service_msg: AddServiceMsg) -> (r: Result<
    Response,
    ContractError,
>)
    requires
        old(st).wf(),
    ensures
        add_service_post(*old(st), *final(st), sender@, service_msg, r),
{
    let AddServiceMsg { service_name, service } = service_msg;
    let (pos, found) = locate_service(&st.services, service_name.as_str());
    if found {
        proof {
            lemma_service_index_is(old(st).services@, service_name@, pos as int);
        }
        return Err(ContractError::ServiceExists);
    }
    store_service_info(
        st,
        service_name.as_str(),
        ServiceInfo { owner: sender.to_owned(), service },
    );
    Ok(Response::ServiceAdded)
}

/// Why `handle_update_service` fails, if it does; checks run in this order.
pub open spec fn update_service_error(pre: State, sender: Seq<char>, m: UpdateServiceMsg) -> Option<
    ContractError,
> {
    if !has_service(pre.services@, m.service_name@) {
        Some(ContractError::ServiceNotFound)
    } else if service_info_of(pre.services@, m.service_name@).owner@ != sender {
        Some(ContractError::Unauthorized)
    } else if m.new_owner matches Some(o) && !valid_identity(o@) {
        Some(ContractError::InvalidIdentity)
    } else {
        None
    }
}

/// What a finished `handle_update_service` guarantees.
pub open spec fn update_service_post(
    pre: State,
    post: State,
    sender: Seq<char>,
    m: UpdateServiceMsg,
    r: Result<Response, ContractError>,
) -> bool {
    &&& post.wf()
    &&& (r is Err <==> update_service_error(pre, sender, m) is Some)
    &&& (r is Err ==> r->Err_0 == update_service_error(pre, sender, m)->0 && post == pre)
    &&& (r is Ok ==> {
        let info0 = service_info_of(pre.services@, m.service_name@);
        let info1 = service_info_of(post.services@, m.service_name@);
        &&& r->Ok_0 == Response::ServiceUpdated
        &&& has_service(post.services@, m.service_name@)
        &&& info1.owner@ == (match m.new_owner {
            Some(o) => o@,
            None => info0.owner@,
        })
        &&& info1.service.dsources == (match m.dsources {
            Some(d) => d,
            None => info0.service.dsources,
        })
        &&& info1.service.tcases == (match m.tcases {
            Some(t) => t,
            None => info0.service.tcases,
        })
        &&& info1.service.oscript_url@ == (match m.oscript_url {
            Some(u) => u@,
            None => info0.service.oscript_url@,
        })
        &&& (forall|k: Seq<char>|
            k != m.service_name@ ==> #[trigger] has_service(post.services@, k) == has_service(
                pre.services@,
                k,
            ))
        &&& (forall|k: Seq<char>|
            k != m.service_name@ && has_service(pre.services@, k) ==> #[trigger] service_info_of(
                post.services@,
                k,
            ) == service_info_of(pre.services@, k))
        &&& post.config == pre.config
        &&& post.requests == pre.requests
        &&& post.executors == pre.executors
        &&& post.next_executor_index == pre.next_executor_index
    })
}

/// Updates an existing service record; only its owner may, and an owner
/// handover demands a well-formed identity.
pub fn handle_update_service(st: &mut State, sender: &str, service_msg: UpdateServiceMsg) -> (r:
    Result<Response, ContractError>)
    requires
        old(st).wf(),
    ensures
        update_service_post(*old(st), *final(st), sender@, service_msg, r),
{
    let ghost pre = *old(st);
    let (pos, found) = locate_service(&st.services, service_msg.service_name.as_str());
    if !found {
        return Err(ContractError::ServiceNotFound);
    }
    proof {
        lemma_service_index_is(pre.services@, service_msg.service_name@, pos as int);
    }
    let owner_ok = match compare_keys(sender, st.services[pos].info.owner.as_str()) {
        KeyOrder::Equal => true,
        _ => false,
    };
    if !owner_ok {
        return Err(ContractError::Unauthorized);
    }
    let UpdateServiceMsg { service_name, new_owner, dsources, tcases, oscript_url } = service_msg;
    match &new_owner {
        Some(o) => {
            if o.as_str().is_empty() {
                return Err(ContractError::InvalidIdentity);
            }
        },
        None => {},
    }
    let mut rec = st.services.remove(pos);
    match new_owner {
        Some(o) => {
            rec.info.owner = o;
        },
        None => {},
    }
    match dsources {
        Some(d) => {
            rec.info.service.dsources = d;
        },
        None => {},
    }
    match tcases {
        Some(t) => {
            rec.info.service.tcases = t;
        },
        None => {},
    }
    match oscript_url {
        Some(u) => {
            rec.info.service.oscript_url = u;
        },
        None => {},
    }
    st.services.insert(pos, rec);
    proof {
        let s1 = st.services@;
        let p = pos as int;
        assert(s1 =~= pre.services@.update(p, s1[p]));
        lemma_store_update_ok(pre.services@, s1, p, service_name@);
    }
    Ok(Response::ServiceUpdated)
}

/// Why `handle_delete_service` fails, if it does: an absent record is
/// not-found, a foreign record is unauthorized.
pub open spec fn delete_service_error(pre: State, sender: Seq<char>, service_name: Seq<char>)
    -> Option<ContractError> {
    if !has_service(pre.services@, service_name) {
        Some(ContractError::ServiceNotFound)
    } else if service_info_of(pre.services@, service_name).owner@ != sender {
        Some(ContractError::Unauthorized)
    } else {
        None
    }
}

/// What a finished `handle_delete_service` guarantees.
pub open spec fn delete_service_post(
    pre: State,
    post: State,
    sender: Seq<char>,
    service_name: Seq<char>,
    r: Result<Response, ContractError>,
) -> bool {
    &&& post.wf()
    &&& (r is Err <==> delete_service_error(pre, sender, service_name) is Some)
    &&& (r is Err ==> r->Err_0 == delete_service_error(pre, sender, service_name)->0 && post
        == pre)
    &&& (r is Ok ==> {
        &&& r->Ok_0 == Response::ServiceDeleted
        &&& !has_service(post.services@, service_name)
        &&& (forall|k: Seq<char>|
            k != service_name ==> #[trigger] has_service(post.services@, k) == has_service(
                pre.services@,
                k,
            ))
        &&& (forall|k: Seq<char>|
            k != service_name && has_service(pre.services@, k) ==> #[trigger] service_info_of(
                post.services@,
                k,
            ) == service_info_of(pre.services@, k))
        &&& post.config == pre.config
        &&& post.requests == pre.requests
        &&& post.executors == pre.executors
        &&& post.next_executor_index == pre.next_executor_index
    })
}

/// Deletes a service record; only its owner may.
pub fn handle_delete_service(st: &mut State, sender: &str, service_name: String) -> (r: Result<
    Response,
    ContractError,
>)
    requires
        old(st).wf(),
    ensures
        delete_service_post(*old(st), *final(st), sender@, service_name@, r),
{
    let ghost pre = *old(st);
    let (pos, found) = locate_service(&st.services, service_name.as_str());
    if !found {
        return Err(ContractError::ServiceNotFound);
    }
    proof {
        lemma_service_index_is(pre.services@, service_name@, pos as int);
    }
    let owner_ok = match compare_keys(sender, st.services[pos].info.owner.as_str()) {
        KeyOrder::Equal => true,
        _ => false,
    };
    if !owner_ok {
        return Err(ContractError::Unauthorized);
    }
    remove_service_info(st, service_name.as_str());
    Ok(Response::ServiceDeleted)
}

/// Dispatches one mutating command; each maps to one atomic transaction.
pub fn execute(st: &mut State, sender: &str, height: u64, msg: ExecuteMsg) -> (r: Result<
    Response,
    ContractError,
>)
    requires
        old(st).wf(),
        old(st).latest_stage() < u64::MAX,
        match msg {
            ExecuteMsg::UpdateConfig { update_config_msg: m } => match m.new_executors {
                Some(ids) => old(st).next_executor_index + ids@.len() <= u64::MAX,
                None => true,
            },
            _ => true,
        },
    ensures
        final(st).wf(),
        match msg {
            ExecuteMsg::UpdateConfig { update_config_msg: m } => update_config_post(
                *old(st),
                *final(st),
                sender@,
                height,
                m,
                r,
            ),
            ExecuteMsg::RegisterMerkleRoot { stage, merkle_root, executors } => register_root_post(
                *old(st),
                *final(st),
                sender@,
                height,
                stage,
                merkle_root@,
                executors@,
                r,
            ),
            ExecuteMsg::Request { service, input, threshold } => request_post(
                *old(st),
                *final(st),
                sender@,
                height,
                service@,
                input,
                threshold,
                r,
            ),
            ExecuteMsg::AddService(m) => add_service_post(*old(st), *final(st), sender@, m, r),
            ExecuteMsg::UpdateService(m) => update_service_post(
                *old(st),
                *final(st),
                sender@,
                m,
                r,
            ),
            ExecuteMsg::DeleteService { service_name } => delete_service_post(
                *old(st),
                *final(st),
                sender@,
                service_name@,
                r,
            ),
        },
{
    match msg {
        ExecuteMsg::UpdateConfig { update_config_msg } => execute_update_config(
            st,
            sender,
            height,
            update_config_msg,
        ),
        ExecuteMsg::RegisterMerkleRoot { stage, merkle_root, executors } =>
            execute_register_merkle_root(st, sender, height, stage, merkle_root, executors),
        ExecuteMsg::Request { service, input, threshold } => handle_request(
            st,
            sender,
            height,
            service,
            input,
            threshold,
        ),
        ExecuteMsg::AddService(m) => handle_add_service(st, sender, m),
        ExecuteMsg::UpdateService(m) => handle_update_service(st, sender, m),
        ExecuteMsg::DeleteService { service_name } => handle_delete_service(
            st,
            sender,
            service_name,
        ),
    }
}

/// Reads the configuration record out as a value.
pub fn query_config(st: &State) -> (r: Config)
    ensures
        r == st.config,
{
    Config { owner: st.config.owner.clone(), max_req_threshold: st.config.max_req_threshold }
}

/// What the query dispatcher answers for each query kind.
pub open spec fn query_post(st: State, msg: QueryMsg, r: Result<QueryResponse, ContractError>)
    -> bool {
    match msg {
        QueryMsg::Config {} => r == Result::<QueryResponse, ContractError>::Ok(
            QueryResponse::Config(st.config),
        ),
        QueryMsg::GetExecutors { start, end, order, limit } => r matches Ok(
            QueryResponse::Executors(v),
        ) && v.deep_view() == page(
            window_ids(
                st.executors@,
                start.deep_view(),
                end.deep_view(),
                chosen_order(order) == Order::Descending,
            ),
            chosen_order(order),
            clamped_limit(limit),
        ),
        QueryMsg::CheckExecutorInList { address } => r == Result::<
            QueryResponse,
            ContractError,
        >::Ok(QueryResponse::ExecutorInList(in_executor_list(st.executors@, address@))),
        QueryMsg::GetExecutorSize {} => r == Result::<QueryResponse, ContractError>::Ok(
            QueryResponse::ExecutorSize(active_count(st.executors@) as u64),
        ),
        QueryMsg::GetRequest { stage } => {
            if st.has_stage(stage as int) {
                r matches Ok(QueryResponse::Request(resp)) && resp@ == resp_of(
                    st.request_at(stage as int),
                    stage as int,
                )
            } else {
                r == Result::<QueryResponse, ContractError>::Err(ContractError::NotFound)
            }
        },
        QueryMsg::GetRequests { offset, limit, order } => r matches Ok(
            QueryResponse::Requests(v),
        ) && v.deep_view() == page(
            matching_resps(
                st.requests@,
                RequestSelector::All,
                offset,
                chosen_order(order) == Order::Descending,
            ),
            chosen_order(order),
            clamped_limit(limit),
        ),
        QueryMsg::GetRequestsByService { service, offset, limit, order } => r matches Ok(
            QueryResponse::Requests(v),
        ) && v.deep_view() == page(
            matching_resps(
                st.requests@,
                RequestSelector::ByService(service@),
                offset,
                chosen_order(order) == Order::Descending,
            ),
            chosen_order(order),
            clamped_limit(limit),
        ),
        QueryMsg::GetRequestsByMerkleRoot { merkle_root, offset, limit, order } => r matches Ok(
            QueryResponse::Requests(v),
        ) && v.deep_view() == page(
            matching_resps(
                st.requests@,
                RequestSelector::ByMerkleRoot(merkle_root@),
                offset,
                chosen_order(order) == Order::Descending,
            ),
            chosen_order(order),
            clamped_limit(limit),
        ),
        QueryMsg::LatestStage {} => r matches Ok(QueryResponse::LatestStage(x)) && x.latest_stage
            == st.latest_stage(),
        QueryMsg::VerifyData { stage, data, proof } => r == (match verify_outcome(
            st,
            stage,
            data@,
            opt_proofs_view(proof),
        ) {
            Ok(b) => Result::<QueryResponse, ContractError>::Ok(QueryResponse::Verified(b)),
            Err(e) => Result::<QueryResponse, ContractError>::Err(e),
        }),
    }
}

/// Dispatches one read-only query; queries never mutate and never fail on
/// empty results, only single-item lookups do.
pub fn query(st: &State, msg: QueryMsg) -> (r: Result<QueryResponse, ContractError>)
    requires
        st.wf(),
    ensures
        query_post(*st, msg, r),
{
    match msg {
        QueryMsg::Config {} => Ok(QueryResponse::Config(query_config(st))),
        QueryMsg::GetExecutors { start, end, order, limit } => Ok(
            QueryResponse::Executors(query_executors(st, start, end, order, limit)),
        ),
        QueryMsg::CheckExecutorInList { address } => {
            let present = match read_executor(st, address.as_str()) {
                Some(_) => true,
                None => false,
            };
            Ok(QueryResponse::ExecutorInList(present))
        },
        QueryMsg::GetExecutorSize {} => Ok(QueryResponse::ExecutorSize(query_executor_size(st))),
        QueryMsg::GetRequest { stage } => match query_request(st, stage) {
            Ok(resp) => Ok(QueryResponse::Request(resp)),
            Err(e) => Err(e),
        },
        QueryMsg::GetRequests { offset, limit, order } => Ok(
            QueryResponse::Requests(query_requests(st, offset, limit, order)),
        ),
        QueryMsg::GetRequestsByService { service, offset, limit, order } => Ok(
            QueryResponse::Requests(query_requests_by_service(st, service, offset, limit, order)),
        ),
        QueryMsg::GetRequestsByMerkleRoot { merkle_root, offset, limit, order } => Ok(
            QueryResponse::Requests(
                query_requests_by_merkle_root(st, merkle_root, offset, limit, order),
            ),
        ),
        QueryMsg::LatestStage {} => Ok(QueryResponse::LatestStage(query_latest_stage(st))),
        QueryMsg::VerifyData { stage, data, proof } => match verify_data(st, stage, &data, proof) {
            Ok(b) => Ok(QueryResponse::Verified(b)),
            Err(e) => Err(e),
        },
    }
}

} // verus!
