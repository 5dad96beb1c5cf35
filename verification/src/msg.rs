//! The external interface: one enumerated command type per direction,
//! matched exhaustively by the dispatchers, plus the response records that
//! queries hand back.

use vstd::prelude::*;
use crate::state::{Config, DataSourceState, Service, TestCaseState};

verus! {

pub struct ServiceMsg {
    pub service: String,
}

pub struct ServiceFeesMsg {
    pub addr: String,
}

pub struct InstantiateMsg {
    /// Owner; if none, the instantiating sender becomes owner.
    pub owner: Option<String>,
    pub executors: Option<Vec<String>>,
}

pub enum ExecuteMsg {
    UpdateConfig { update_config_msg: UpdateConfigMsg },
    RegisterMerkleRoot {
        /// The stage whose result is being anchored.
        stage: u64,
        /// Hex-encoded 32-byte Merkle root.
        merkle_root: String,
        /// Identities that took part; each must be well-formed.
        executors: Vec<String>,
    },
    Request { service: String, input: Option<Vec<u8>>, threshold: u64 },
    AddService(AddServiceMsg),
    UpdateService(UpdateServiceMsg),
    DeleteService { service_name: String },
}

pub struct UpdateServiceMsg {
    pub service_name: String,
    pub new_owner: Option<String>,
    pub dsources: Option<Vec<DataSourceState>>,
    pub tcases: Option<Vec<TestCaseState>>,
    pub oscript_url: Option<String>,
}

pub struct AddServiceMsg {
    pub service_name: String,
    pub service: Service,
}

pub enum QueryMsg {
    Config {},
    GetExecutors {
        start: Option<String>,
        end: Option<String>,
        order: Option<u8>,
        limit: Option<u8>,
    },
    CheckExecutorInList { address: String },
    GetExecutorSize {},
    GetRequest { stage: u64 },
    GetRequests { offset: Option<u64>, limit: Option<u8>, order: Option<u8> },
    GetRequestsByService {
        service: String,
        offset: Option<u64>,
        limit: Option<u8>,
        order: Option<u8>,
    },
    GetRequestsByMerkleRoot {
        merkle_root: String,
        offset: Option<u64>,
        limit: Option<u8>,
        order: Option<u8>,
    },
    LatestStage {},
    VerifyData { stage: u64, data: Vec<u8>, proof: Option<Vec<String>> },
}

#[derive(Debug)]
pub struct ConfigResponse {
    pub owner: Option<String>,
}

#[derive(Debug)]
pub struct ExecutorsResponse {
    pub pubkey: Vec<u8>,
    pub is_acitve: bool,
}

/// One ledger entry as queries report it: the stored record together with
/// its stage.
#[derive(Debug)]
pub struct RequestResponse {
    pub stage: u64,
    pub requester: String,
    pub request_height: u64,
    pub submit_merkle_height: u64,
    pub merkle_root: String,
    pub threshold: u64,
    pub service: String,
}

/// The mathematical image of a [`RequestResponse`].
pub struct RequestResponseView {
    pub stage: u64,
    pub requester: Seq<char>,
    pub request_height: u64,
    pub submit_merkle_height: u64,
    pub merkle_root: Seq<char>,
    pub threshold: u64,
    pub service: Seq<char>,
}

impl View for RequestResponse {
    type V = RequestResponseView;

    open spec fn view(&self) -> RequestResponseView {
        RequestResponseView {
            stage: self.stage,
            requester: self.requester@,
            request_height: self.request_height,
            submit_merkle_height: self.submit_merkle_height,
            merkle_root: self.merkle_root@,
            threshold: self.threshold,
            service: self.service@,
        }
    }
}

impl DeepView for RequestResponse {
    type V = RequestResponseView;

    open spec fn deep_view(&self) -> RequestResponseView {
        self.view()
    }
}

#[derive(Debug)]
pub struct LatestStageResponse {
    pub latest_stage: u64,
}

pub struct MigrateMsg {}

pub struct UpdateConfigMsg {
    pub new_owner: Option<String>,
    pub new_executors: Option<Vec<String>>,
    pub old_executors: Option<Vec<String>>,
    pub new_checkpoint: Option<u64>,
    pub new_checkpoint_threshold: Option<u64>,
    pub new_max_req_threshold: Option<u64>,
}

/// What a successful mutating call reports back.
#[derive(Debug, PartialEq, Eq, Structural)]
pub enum Response {
    ConfigUpdated,
    MerkleRootRegistered { stage: u64 },
    RequestHandled { stage: u64 },
    ServiceAdded,
    ServiceUpdated,
    ServiceDeleted,
}

/// What a query hands back, one variant per query kind.
#[derive(Debug)]
pub enum QueryResponse {
    Config(Config),
    Executors(Vec<String>),
    ExecutorInList(bool),
    ExecutorSize(u64),
    Request(RequestResponse),
    Requests(Vec<RequestResponse>),
    LatestStage(LatestStageResponse),
    Verified(bool),
}

} // verus!
