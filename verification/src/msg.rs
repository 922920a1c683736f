//! Messages at the boundary: what the host delivers into the entry
//! points, what crosses to the gateway, and what queries return. The
//! embedding layer moves these between the host's own encoding and the
//! plain values held here; every payload is already bytes.
use vstd::prelude::*;

use crate::state::Coin;

verus! {

/// Who invoked the entry point and what funds came along.
#[derive(Debug, Clone, PartialEq, Eq)]
pub struct MessageInfo {
    pub sender: String,
    pub funds: Vec<Coin>,
}

/// What the host tells the contract about itself.
#[derive(Debug, Clone, PartialEq, Eq)]
pub struct Env {
    pub contract_address: String,
}

#[derive(Debug, Clone, PartialEq, Eq)]
pub struct InstantiateMsg {
    pub purchase_price: Option<Coin>,
    pub transfer_price: Option<Coin>,
}

#[derive(Debug, Clone, PartialEq, Eq)]
pub enum ExecuteMsg {
    ISend {
        version: u64,
        route_amount: u64,
        route_recipient: String,
        dest_chain_id: String,
        request_metadata: Vec<u8>,
        gateway_address: String,
        handler_address: String,
        payload: Vec<u8>,
    },
    IReceive { src_chain_id: String, request_sender: String, packet: Vec<u8> },
    IAck { request_identifier: u64, exec_status: bool, exec_data: Vec<u8> },
    SetDappMetadata { fee_payer_address: String, gateway_address: String },
    Register { name: String },
    Transfer { name: String, to: String },
}

/// The closed set of application messages an inbound request payload may
/// carry.
#[derive(Debug, Clone, PartialEq, Eq)]
pub enum CustomExecuteMsg {
    Register { name: String },
    Transfer { name: String, to: String },
}

/// The two instructions the gateway collaborator accepts.
#[derive(Debug, Clone, PartialEq, Eq)]
pub enum GatewayMsg {
    ISend {
        version: u64,
        route_amount: u64,
        route_recipient: String,
        dest_chain_id: String,
        request_metadata: Vec<u8>,
        request_packet: Vec<u8>,
    },
    SetDappMetadata { fee_payer_address: String },
}

#[derive(Debug, Clone, PartialEq, Eq)]
pub enum QueryMsg {
    IQuery { packet: Vec<u8> },
    ResolveRecord { name: String },
    Config {},
    LoadStates {},
}

/// The closed set of application queries an inbound query payload may
/// carry.
#[derive(Debug, Clone, PartialEq, Eq)]
pub enum CustomQueryMsg {
    ResolveRecord { name: String },
    Config {},
}

/// We define a custom struct for each query response.
#[derive(Debug, Clone, PartialEq, Eq)]
pub struct ResolveRecordResponse {
    pub address: Option<String>,
}

#[derive(Debug, Clone, PartialEq, Eq)]
pub struct ConfigResponse {
    pub purchase_price: Option<Coin>,
    pub transfer_price: Option<Coin>,
}

impl From<crate::state::Config> for ConfigResponse {
    fn from(config: crate::state::Config) -> (r: ConfigResponse) {
        ConfigResponse {
            purchase_price: config.purchase_price,
            transfer_price: config.transfer_price,
        }
    }
}

impl vstd::std_specs::convert::FromSpecImpl<crate::state::Config> for ConfigResponse {
    open spec fn obeys_from_spec() -> bool {
        true
    }

    open spec fn from_spec(config: crate::state::Config) -> ConfigResponse {
        ConfigResponse {
            purchase_price: config.purchase_price,
            transfer_price: config.transfer_price,
        }
    }
}

#[derive(Debug, Clone, PartialEq, Eq)]
pub struct LoadStatesResponse {
    pub name_resolver: Vec<(String, String)>,
    pub request: Vec<u8>,
    pub result: Vec<u8>,
    pub nonce: u64,
    pub pending: Vec<u64>,
}

#[derive(Debug, Clone, PartialEq, Eq)]
pub struct ResolveResultResponse {
    pub result: Option<Vec<u8>>,
}

/// One key/value pair attached to a response; the value is kept as UTF-8
/// bytes.
#[derive(Debug, Clone, PartialEq, Eq)]
pub struct Attribute {
    pub key: String,
    pub value: Vec<u8>,
}

/// One event attached to a response.
#[derive(Debug, Clone, PartialEq, Eq)]
pub struct Event {
    pub ty: String,
    pub attributes: Vec<Attribute>,
}

/// When the host must deliver a continuation for a nested instruction.
#[derive(Debug, Clone, PartialEq, Eq)]
pub enum ReplyOn {
    Always,
    Success,
    Error,
    Never,
}

/// A nested execute instruction for another contract.
#[derive(Debug, Clone, PartialEq, Eq)]
pub struct WasmExecute {
    pub contract_addr: String,
    pub msg: GatewayMsg,
    pub funds: Vec<Coin>,
}

/// A nested instruction together with its continuation tag.
#[derive(Debug, Clone, PartialEq, Eq)]
pub struct SubMsg {
    pub id: u64,
    pub msg: WasmExecute,
    pub gas_limit: Option<u64>,
    pub reply_on: ReplyOn,
}

/// What an entry point hands back to the host: nested instructions,
/// attributes, events, and optional result data.
#[derive(Debug, Clone, PartialEq, Eq)]
pub struct Response {
    pub messages: Vec<SubMsg>,
    pub attributes: Vec<Attribute>,
    pub events: Vec<Event>,
    pub data: Option<Vec<u8>>,
}

impl Response {
    /// An empty response.
    pub fn new() -> (r: Response)
        ensures
            r.messages@ == Seq::<SubMsg>::empty(),
            r.attributes@ == Seq::<Attribute>::empty(),
            r.events@ == Seq::<Event>::empty(),
            r.data is None,
    {
        Response { messages: Vec::new(), attributes: Vec::new(), events: Vec::new(), data: None }
    }
}

/// What the embedding layer hands the correlator once the host delivers a
/// continuation: the nested call's own result data, or its failure as the
/// reply-parsing step classified it.
#[derive(Debug, Clone, PartialEq, Eq)]
pub enum GatewayReply {
    Data(Option<Vec<u8>>),
    SubMsgFailure(String),
    ParseFailure(String),
    BrokenUtf8,
}

/// A deferred continuation: the tag it was dispatched under and what came
/// back.
#[derive(Debug, Clone, PartialEq, Eq)]
pub struct Reply {
    pub id: u64,
    pub result: GatewayReply,
}

} // verus!
