//! The entry points: instantiation, the execute dispatch over the six
//! operations, and the read-only query dispatch.
use vstd::prelude::*;
use vstd::string::{StrSliceExecFns, StringExecFns};
use vstd::utf8::encode_utf8;

use crate::abi::{abi_decode_single, abi_single_dynamic, clone_bytes, decode_single_dynamic,
    encode_single_dynamic};
use crate::diag::{
    build_config_text, build_resolve_record_text, config_text, lemma_config_text_len,
    lemma_resolve_record_text_len, resolve_record_text,
};
use crate::error::ContractError;
use crate::execute::{
    execute_i_ack, execute_i_receive, execute_i_send, execute_register, execute_transfer,
    i_ack_rel, i_receive_rel, i_send_response, register_rel, set_dapp_metadata,
    set_dapp_metadata_response, transfer_rel,
};
use crate::msg::{
    ConfigResponse, CustomQueryMsg, Env, ExecuteMsg, InstantiateMsg, LoadStatesResponse,
    MessageInfo, QueryMsg, ResolveRecordResponse, Response,
};
use crate::state::{clone_opt_coin, lemma_name_idx_unique, Config, ContractState};

verus! {

/// Sets up the initial state: the configuration from the message and
/// nothing else.
pub fn instantiate(msg: InstantiateMsg) -> (r: (ContractState, Response))
    ensures
        r.0.config.purchase_price == msg.purchase_price,
        r.0.config.transfer_price == msg.transfer_price,
        r.0.name_resolver@.len() == 0,
        r.0.request is None,
        r.0.result is None,
        r.0.nonce is None,
        r.0.pending is None,
        r.0.wf(),
        r.1.messages@.len() == 0 && r.1.attributes@.len() == 0 && r.1.events@.len() == 0
            && r.1.data is None,
{
    let config = Config {
        purchase_price: msg.purchase_price,
        transfer_price: msg.transfer_price,
    };
    let state = ContractState {
        config,
        name_resolver: Vec::new(),
        request: None,
        result: None,
        nonce: None,
        pending: None,
    };
    (state, Response::new())
}

/// What one execute dispatch produced: a finished response, or the
/// decoded inner buffer of a receive, which the embedding layer must
/// deserialize and hand to [`crate::execute::execute_custom`].
#[derive(Debug)]
pub enum ExecOutcome {
    Done(Response),
    Inbound(Vec<u8>),
}

/// Dispatches one execute message over the closed operation set.
///
/// There are 6 execute msgs in this contract; 4 of them are used for
/// crosschain communication (IReceive, IAck, ISend, SetDappMetadata) and
/// 2 of them for debug (Register, Transfer).
pub fn execute(state: &mut ContractState, env: &Env, info: &MessageInfo, msg: ExecuteMsg) -> (r:
    Result<ExecOutcome, ContractError>)
    requires
        old(state).wf(),
        info.sender@.len() < 0x100_0000,
        env.contract_address@.len() < 0x100_0000,
        match msg {
            ExecuteMsg::Register { name } => name@.len() < 0x100_0000,
            ExecuteMsg::Transfer { name, to } => name@.len() < 0x100_0000 && to@.len()
                < 0x100_0000,
            ExecuteMsg::ISend { handler_address, payload, .. } => handler_address@.len()
                < 0x100_0000 && payload@.len() < 0x1000_0000,
            ExecuteMsg::IAck { exec_data, .. } => exec_data@.len() < 0x1000_0000,
            _ => true,
        },
    ensures
        match msg {
            ExecuteMsg::Register { name } => match r {
                Ok(o) => o matches ExecOutcome::Done(resp) && register_rel(
                    *old(state),
                    *final(state),
                    info.sender@,
                    info.funds@,
                    name@,
                    Ok(resp),
                ),
                Err(e) => register_rel(
                    *old(state),
                    *final(state),
                    info.sender@,
                    info.funds@,
                    name@,
                    Err(e),
                ),
            },
            ExecuteMsg::Transfer { name, to } => match r {
                Ok(o) => o matches ExecOutcome::Done(resp) && transfer_rel(
                    *old(state),
                    *final(state),
                    info.sender@,
                    info.funds@,
                    name@,
                    to@,
                    Ok(resp),
                ),
                Err(e) => transfer_rel(
                    *old(state),
                    *final(state),
                    info.sender@,
                    info.funds@,
                    name@,
                    to@,
                    Err(e),
                ),
            },
            ExecuteMsg::IReceive { packet, .. } => match r {
                Ok(o) => o matches ExecOutcome::Inbound(b) && i_receive_rel(
                    *old(state),
                    *final(state),
                    packet@,
                    Ok(b),
                ),
                Err(e) => i_receive_rel(*old(state), *final(state), packet@, Err(e)),
            },
            ExecuteMsg::IAck { request_identifier, exec_status, exec_data } => match r {
                Ok(o) => o matches ExecOutcome::Done(resp) && i_ack_rel(
                    *old(state),
                    *final(state),
                    env.contract_address@,
                    request_identifier,
                    exec_status,
                    exec_data@,
                    Ok(resp),
                ),
                Err(e) => i_ack_rel(
                    *old(state),
                    *final(state),
                    env.contract_address@,
                    request_identifier,
                    exec_status,
                    exec_data@,
                    Err(e),
                ),
            },
            ExecuteMsg::ISend {
                version,
                route_amount,
                route_recipient,
                dest_chain_id,
                request_metadata,
                gateway_address,
                handler_address,
                payload,
            } => *final(state) == *old(state) && (r matches Ok(o) && o matches ExecOutcome::Done(
                resp,
            ) && i_send_response(
                resp,
                version,
                route_amount,
                route_recipient@,
                dest_chain_id@,
                request_metadata@,
                gateway_address@,
                handler_address@,
                payload@,
            )),
            ExecuteMsg::SetDappMetadata { fee_payer_address, gateway_address } => *final(state)
                == *old(state) && (r matches Ok(o) && o matches ExecOutcome::Done(resp)
                && set_dapp_metadata_response(resp, fee_payer_address@, gateway_address@)),
        },
{
    match msg {
        ExecuteMsg::IReceive { src_chain_id: _, request_sender: _, packet } => {
            let inner = execute_i_receive(state, &packet)?;
            Ok(ExecOutcome::Inbound(inner))
        },
        ExecuteMsg::IAck { request_identifier, exec_status, exec_data } => {
            let resp = execute_i_ack(state, env, request_identifier, exec_status, &exec_data)?;
            Ok(ExecOutcome::Done(resp))
        },
        ExecuteMsg::ISend {
            version,
            route_amount,
            route_recipient,
            dest_chain_id,
            request_metadata,
            gateway_address,
            handler_address,
            payload,
        } => {
            let resp = execute_i_send(
                version,
                route_amount,
                route_recipient,
                dest_chain_id,
                request_metadata,
                gateway_address,
                handler_address,
                payload,
            )?;
            Ok(ExecOutcome::Done(resp))
        },
        ExecuteMsg::SetDappMetadata { fee_payer_address, gateway_address } => {
            let resp = set_dapp_metadata(fee_payer_address, gateway_address)?;
            Ok(ExecOutcome::Done(resp))
        },
        ExecuteMsg::Register { name } => {
            let resp = execute_register(state, info, name)?;
            Ok(ExecOutcome::Done(resp))
        },
        ExecuteMsg::Transfer { name, to } => {
            let resp = execute_transfer(state, info, name, to)?;
            Ok(ExecOutcome::Done(resp))
        },
    }
}

/// What a resolution response holds: the owner when the name is
/// registered, nothing otherwise.
pub open spec fn resolve_resp_rel(
    s: ContractState,
    name: Seq<char>,
    resp: ResolveRecordResponse,
) -> bool {
    if s.has_name(name) {
        resp.address matches Some(a) && a@ == s.owner_of(name)
    } else {
        resp.address is None
    }
}

/// Looks a name up in the registry.
pub fn query_resolver(state: &ContractState, name: &String) -> (r: ResolveRecordResponse)
    requires
        state.wf(),
    ensures
        resolve_resp_rel(*state, name@, r),
{
    let n = state.name_resolver.len();
    let mut i: usize = 0;
    while i < n
        invariant
            i <= n,
            n == state.name_resolver@.len(),
            state.wf(),
            forall|k: int|
                #![trigger state.name_resolver@[k]]
                0 <= k < i ==> state.name_resolver@[k].name@ != name@,
        decreases n - i,
    {
        if state.name_resolver[i].name == *name {
            proof {
                assert(state.name_resolver@[i as int].name@ == name@);
                assert(state.has_name(name@));
                lemma_name_idx_unique(*state, name@, i as int);
            }
            let owner = state.name_resolver[i].record.owner.clone();
            return ResolveRecordResponse { address: Some(owner) };
        }
        i = i + 1;
    }
    assert(!state.has_name(name@));
    ResolveRecordResponse { address: None }
}

/// What the bulk state dump holds: every registry pair in stored order,
/// both snapshots (a fixed text where one was never written), the nonce
/// cell with its fixed default, and the ledger.
pub open spec fn load_states_rel(s: ContractState, ls: LoadStatesResponse) -> bool {
    &&& ls.name_resolver@.len() == s.name_resolver@.len()
    &&& (forall|i: int|
        #![trigger ls.name_resolver@[i]]
        0 <= i < s.name_resolver@.len() ==> ls.name_resolver@[i].0@ == s.name_resolver@[i].name@
            && ls.name_resolver@[i].1@ == s.name_resolver@[i].record.owner@)
    &&& (match s.request {
        Some(v) => ls.request@ == v@,
        None => ls.request@ == encode_utf8("empty"@),
    })
    &&& (match s.result {
        Some(v) => ls.result@ == v@,
        None => ls.result@ == encode_utf8("empty"@),
    })
    &&& ls.nonce == (match s.nonce {
        Some(v) => v,
        None => 1000000000000000000u64,
    })
    &&& ls.pending@ == s.pending_seq()
}

/// This function is used for debug: it loads all variables from the
/// state store and returns them.
pub fn load_states(state: &ContractState) -> (r: LoadStatesResponse)
    ensures
        load_states_rel(*state, r),
{
    let mut name_resolver: Vec<(String, String)> = Vec::new();
    let n = state.name_resolver.len();
    let mut i: usize = 0;
    while i < n
        invariant
            i <= n,
            n == state.name_resolver@.len(),
            name_resolver@.len() == i,
            forall|k: int|
                #![trigger name_resolver@[k]]
                0 <= k < i ==> name_resolver@[k].0@ == state.name_resolver@[k].name@
                    && name_resolver@[k].1@ == state.name_resolver@[k].record.owner@,
        decreases n - i,
    {
        let name = state.name_resolver[i].name.clone();
        let owner = state.name_resolver[i].record.owner.clone();
        name_resolver.push((name, owner));
        i = i + 1;
    }
    let request: Vec<u8> = match &state.request {
        Some(v) => clone_bytes(v),
        None => "empty".as_bytes_vec(),
    };
    let result: Vec<u8> = match &state.result {
        Some(v) => clone_bytes(v),
        None => "empty".as_bytes_vec(),
    };
    let nonce: u64 = match &state.nonce {
        Some(v) => *v,
        None => 1000000000000000000,
    };
    let pending: Vec<u64> = match &state.pending {
        Some(p) => crate::reply::clone_pending_ids(&p.requests),
        None => Vec::new(),
    };
    LoadStatesResponse { name_resolver, request, result, nonce, pending }
}

/// Decodes an inbound query payload. The embedding layer deserializes
/// the returned buffer into a [`CustomQueryMsg`] and hands it to
/// [`query_custom`]; this path never writes state.
pub fn i_query(state: &ContractState, payload: &Vec<u8>) -> (r: Result<Vec<u8>, ContractError>)
    ensures
        r is Ok <==> abi_decode_single(payload@) is Some,
        r matches Ok(v) ==> abi_decode_single(payload@) == Some(v@),
        r matches Err(e) ==> (e matches ContractError::Std { msg } && msg@
            == "abi_decode_error"@),
{
    // first, decode the query payload, which was encoded by the request
    // sender
    match decode_single_dynamic(payload) {
        Some(decoded) => Ok(decoded),
        None => Err(
            ContractError::Std { msg: String::from_str("abi_decode_error") },
        ),
    }
}

/// Answers a decoded inbound query over the closed query set, as the
/// encoded text of the answer.
pub fn query_custom(state: &ContractState, msg: &CustomQueryMsg) -> (r: Vec<u8>)
    requires
        state.wf(),
        match state.config.purchase_price {
            Some(c) => c.denom@.len() < 0x100_0000,
            None => true,
        },
        match state.config.transfer_price {
            Some(c) => c.denom@.len() < 0x100_0000,
            None => true,
        },
        forall|i: int|
            0 <= i < state.name_resolver@.len()
                ==> #[trigger] state.name_resolver@[i].record.owner@.len() < 0x100_0000,
    ensures
        match msg {
            CustomQueryMsg::Config {  } => r@ == abi_single_dynamic(config_text(state.config)),
            CustomQueryMsg::ResolveRecord { name } => r@ == abi_single_dynamic(
                resolve_record_text(
                    if state.has_name(name@) {
                        Some(state.owner_of(name@))
                    } else {
                        None
                    },
                ),
            ),
        },
{
    match msg {
        CustomQueryMsg::Config {  } => {
            let config = Config {
                purchase_price: clone_opt_coin(&state.config.purchase_price),
                transfer_price: clone_opt_coin(&state.config.transfer_price),
            };
            let text = build_config_text(&config);
            proof {
                lemma_config_text_len(state.config);
            }
            // abi encode the result
            encode_single_dynamic(&text)
        },
        CustomQueryMsg::ResolveRecord { name } => {
            let resp = query_resolver(state, name);
            let text = build_resolve_record_text(&resp.address);
            proof {
                match resp.address {
                    Some(a) => lemma_resolve_record_text_len(Some(a@)),
                    None => lemma_resolve_record_text_len(None),
                }
            }
            // abi encode the result
            encode_single_dynamic(&text)
        },
    }
}

/// What one query dispatch produced: an answer value, or the decoded
/// inner buffer of an inbound query awaiting deserialization.
#[derive(Debug)]
pub enum QueryOutcome {
    Record(ResolveRecordResponse),
    Config(ConfigResponse),
    States(LoadStatesResponse),
    Inbound(Vec<u8>),
}

/// Dispatches one query message over the closed query set.
///
/// There are 4 query msgs in this contract; 1 for crosschain
/// communication (IQuery) and 3 for debug (ResolveRecord, Config,
/// LoadStates).
pub fn query(state: &ContractState, msg: &QueryMsg) -> (r: Result<QueryOutcome, ContractError>)
    requires
        state.wf(),
    ensures
        match msg {
            QueryMsg::IQuery { packet } => {
                &&& (r is Ok <==> abi_decode_single(packet@) is Some)
                &&& (r matches Ok(o) ==> o matches QueryOutcome::Inbound(b)
                    && abi_decode_single(packet@) == Some(b@))
                &&& (r matches Err(e) ==> (e matches ContractError::Std { msg } && msg@
                    == "abi_decode_error"@))
            },
            QueryMsg::ResolveRecord { name } => r matches Ok(o) && o matches QueryOutcome::Record(
                resp,
            ) && resolve_resp_rel(*state, name@, resp),
            QueryMsg::Config {  } => r matches Ok(o) && o matches QueryOutcome::Config(c)
                && c.purchase_price == state.config.purchase_price && c.transfer_price
                == state.config.transfer_price,
            QueryMsg::LoadStates {  } => r matches Ok(o) && o matches QueryOutcome::States(ls)
                && load_states_rel(*state, ls),
        },
{
    match msg {
        QueryMsg::IQuery { packet } => {
            let inner = i_query(state, packet)?;
            Ok(QueryOutcome::Inbound(inner))
        },
        QueryMsg::ResolveRecord { name } => Ok(QueryOutcome::Record(query_resolver(state, name))),
        QueryMsg::Config {  } => {
            let config = Config {
                purchase_price: clone_opt_coin(&state.config.purchase_price),
                transfer_price: clone_opt_coin(&state.config.transfer_price),
            };
            Ok(QueryOutcome::Config(ConfigResponse::from(config)))
        },
        QueryMsg::LoadStates {  } => Ok(QueryOutcome::States(load_states(state))),
    }
}

} // verus!
