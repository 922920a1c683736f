//! The execute flows: name registration and transfer, the inbound
//! receive and acknowledge paths, and the outbound gateway instructions.
use vstd::prelude::*;
use vstd::string::{StrSliceExecFns, StringExecFns};
use vstd::utf8::encode_utf8;

use crate::abi::{abi_decode_single, abi_single_dynamic, clone_bytes, encode_single_dynamic};
use crate::consts::ISEND_ID;
use crate::diag::{
    ack_text, base64_text, build_ack_text, build_register_result_text,
    build_transfer_result_text, lemma_ack_text_len, lemma_encode_utf8_len,
    lemma_register_result_text_len, lemma_transfer_result_text_len, register_result_text,
    transfer_result_text,
};
use crate::error::ContractError;
use crate::helper::{
    abi_decode_to_binary, assert_sent_sufficient_coin, get_request_packet, request_packet_spec,
    spec_invalid_char, spec_valid_name, sufficient_funds, valid_name_chars, validate_name,
    MAX_NAME_LENGTH, MIN_NAME_LENGTH,
};
use crate::msg::{
    Attribute, CustomExecuteMsg, Event, GatewayMsg, MessageInfo, Env, ReplyOn, Response, SubMsg,
    WasmExecute,
};
use crate::state::{
    clone_opt_coin, lemma_lex_lt_connected, lemma_lex_lt_neq, lemma_lex_lt_trans,
    lemma_name_idx_unique, lex_lt, str_lt, Coin, ContractState, NameEntry, NameRecord,
};

verus! {

/// When a registration succeeds: the name is acceptable, the funds cover
/// the purchase price, and the name is still free.
pub open spec fn can_register(pre: ContractState, funds: Seq<Coin>, name: Seq<char>) -> bool {
    spec_valid_name(name) && sufficient_funds(funds, pre.config.purchase_price) && !pre.has_name(
        name,
    )
}

/// The record for `name` and `sender` stands at `pos` of the registry,
/// everything else keeps its place.
pub open spec fn registered_at(
    pre: ContractState,
    post: ContractState,
    name: Seq<char>,
    sender: Seq<char>,
    pos: int,
) -> bool {
    &&& 0 <= pos <= pre.name_resolver@.len()
    &&& post.name_resolver@.len() == pre.name_resolver@.len() + 1
    &&& (forall|k: int|
        #![trigger post.name_resolver@[k]]
        0 <= k < pos ==> post.name_resolver@[k] == pre.name_resolver@[k])
    &&& (forall|k: int|
        #![trigger pre.name_resolver@[k]]
        pos <= k < pre.name_resolver@.len() ==> post.name_resolver@[k + 1]
            == pre.name_resolver@[k])
    &&& post.name_resolver@[pos].name@ == name
    &&& post.name_resolver@[pos].record.owner@ == sender
}

/// What a successful registration does to the state: one record for the
/// sender, placed at the name's position of the key order, the
/// confirmation text persisted, nothing else touched.
pub open spec fn register_ok_post(
    pre: ContractState,
    post: ContractState,
    name: Seq<char>,
    sender: Seq<char>,
) -> bool {
    &&& (exists|pos: int| #[trigger] registered_at(pre, post, name, sender, pos))
    &&& post.config == pre.config
    &&& post.request == pre.request
    &&& post.nonce == pre.nonce
    &&& post.pending == pre.pending
    &&& (post.result matches Some(v) && v@ == abi_single_dynamic(
        register_result_text(name, sender),
    ))
}

/// Which error a failing registration reports, in the order the checks
/// run: name validation, then funds, then availability.
pub open spec fn register_err(
    pre: ContractState,
    funds: Seq<Coin>,
    name: Seq<char>,
    e: ContractError,
) -> bool {
    if encode_utf8(name).len() < MIN_NAME_LENGTH {
        e matches ContractError::NameTooShort { length, min_length } && length == encode_utf8(
            name,
        ).len() && min_length == MIN_NAME_LENGTH
    } else if encode_utf8(name).len() > MAX_NAME_LENGTH {
        e matches ContractError::NameTooLong { length, max_length } && length == encode_utf8(
            name,
        ).len() && max_length == MAX_NAME_LENGTH
    } else if !valid_name_chars(name) {
        e matches ContractError::InvalidCharacter { c } && exists|i: int|
            0 <= i < name.len() && c == name[i] && spec_invalid_char(name[i]) && (forall|j: int|
                0 <= j < i ==> !spec_invalid_char(#[trigger] name[j]))
    } else if !sufficient_funds(funds, pre.config.purchase_price) {
        e matches ContractError::InsufficientFundsSend {  }
    } else {
        pre.has_name(name) && (e matches ContractError::NameTaken { name: n } && n@ == name)
    }
}

/// The whole behaviour of a registration call, related over the states
/// before and after and the returned value.
pub open spec fn register_rel(
    pre: ContractState,
    post: ContractState,
    sender: Seq<char>,
    funds: Seq<Coin>,
    name: Seq<char>,
    r: Result<Response, ContractError>,
) -> bool {
    &&& post.wf()
    &&& (r is Ok <==> can_register(pre, funds, name))
    &&& (r matches Ok(resp) ==> register_ok_post(pre, post, name, sender)
        && resp.messages@.len() == 0 && resp.attributes@.len() == 0 && resp.events@.len() == 0 && (
    resp.data matches Some(d) && d@ == abi_single_dynamic(register_result_text(name, sender))))
    &&& (r matches Err(e) ==> post == pre && register_err(pre, funds, name, e))
}

/// Registers `name` to the sender.
pub fn execute_register(state: &mut ContractState, info: &MessageInfo, name: String) -> (r: Result<
    Response,
    ContractError,
>)
    requires
        old(state).wf(),
        name@.len() < 0x100_0000,
        info.sender@.len() < 0x100_0000,
    ensures
        register_rel(*old(state), *final(state), info.sender@, info.funds@, name@, r),
{
    // we only need to check here - at point of registration
    validate_name(name.as_str())?;
    let purchase_price = clone_opt_coin(&state.config.purchase_price);
    assert_sent_sufficient_coin(&info.funds, purchase_price)?;

    // walk to the name's place in the key order
    let n = state.name_resolver.len();
    let mut pos: usize = 0;
    while pos < n && str_lt(state.name_resolver[pos].name.as_str(), name.as_str())
        invariant
            pos <= n,
            n == state.name_resolver@.len(),
            *state == *old(state),
            old(state).wf(),
            spec_valid_name(name@),
            sufficient_funds(info.funds@, old(state).config.purchase_price),
            name@.len() < 0x100_0000,
            info.sender@.len() < 0x100_0000,
            forall|k: int|
                #![trigger state.name_resolver@[k]]
                0 <= k < pos ==> lex_lt(state.name_resolver@[k].name@, name@),
        decreases n - pos,
    {
        pos = pos + 1;
    }
    if pos < n && state.name_resolver[pos].name == name {
        // name is already taken
        proof {
            assert(state.name_resolver@[pos as int].name@ == name@);
            assert(old(state).has_name(name@));
        }
        return Err(ContractError::NameTaken { name });
    }
    proof {
        assert forall|k: int| 0 <= k < n implies state.name_resolver@[k].name@ != name@ by {
            if k < pos {
                lemma_lex_lt_neq(state.name_resolver@[k].name@, name@);
            } else {
                assert(pos < n);
                let at_pos = state.name_resolver@[pos as int].name@;
                assert(at_pos != name@);
                lemma_lex_lt_connected(name@, at_pos);
                assert(lex_lt(name@, at_pos));
                if k == pos {
                    lemma_lex_lt_neq(name@, at_pos);
                } else {
                    assert(lex_lt(at_pos, state.name_resolver@[k].name@));
                    lemma_lex_lt_trans(name@, at_pos, state.name_resolver@[k].name@);
                    lemma_lex_lt_neq(name@, state.name_resolver@[k].name@);
                }
            }
        }
        assert(!old(state).has_name(name@));
    }

    // name is available: the record takes its place in the key order
    let record = NameRecord { owner: info.sender.clone() };
    let entry = NameEntry { name: name.clone(), record };
    let ghost pre_entries = state.name_resolver@;
    let ghost new_entry = entry;
    state.name_resolver.insert(pos, entry);
    proof {
        pre_entries.insert_ensures(pos as int, new_entry);
        assert(registered_at(*old(state), *state, name@, info.sender@, pos as int));
        let cur = state.name_resolver@;
        assert forall|a: int, b: int| 0 <= a < b < cur.len() implies cur[a].name@ != cur[b].name@
            && lex_lt(cur[a].name@, cur[b].name@) by {
            let p = pos as int;
            if b < p {
                assert(cur[a] == pre_entries[a] && cur[b] == pre_entries[b]);
            } else if a < p && b == p {
                assert(cur[a] == pre_entries[a]);
                assert(lex_lt(cur[a].name@, name@));
                lemma_lex_lt_neq(cur[a].name@, name@);
            } else if a < p && b > p {
                assert(cur[a] == pre_entries[a] && cur[b] == pre_entries[b - 1]);
            } else if a == p {
                assert(cur[b] == pre_entries[b - 1]);
                let later = pre_entries[b - 1].name@;
                if b - 1 == p {
                    assert(!lex_lt(later, name@));
                    assert(later != name@);
                    lemma_lex_lt_connected(name@, later);
                } else {
                    let at_pos = pre_entries[p].name@;
                    assert(!lex_lt(at_pos, name@));
                    assert(at_pos != name@);
                    lemma_lex_lt_connected(name@, at_pos);
                    assert(lex_lt(at_pos, later));
                    lemma_lex_lt_trans(name@, at_pos, later);
                }
                lemma_lex_lt_neq(name@, later);
            } else {
                assert(cur[a] == pre_entries[a - 1] && cur[b] == pre_entries[b - 1]);
            }
        }
        assert forall|k: int| 0 <= k < cur.len() implies crate::helper::valid_name_chars(
            #[trigger] cur[k].name@,
        ) by {
            let p = pos as int;
            if k < p {
                assert(cur[k] == pre_entries[k]);
            } else if k == p {
                assert(cur[k].name@ == name@);
            } else {
                assert(cur[k] == pre_entries[k - 1]);
            }
        }
    }
    let result_txt = build_register_result_text(&name, &info.sender);
    proof {
        lemma_register_result_text_len(name@, info.sender@);
    }
    let result = encode_single_dynamic(&result_txt);
    let result_data = clone_bytes(&result);
    state.result = Some(result);
    proof {
        assert(registered_at(*old(state), *state, name@, info.sender@, pos as int));
    }
    let response = Response {
        messages: Vec::new(),
        attributes: Vec::new(),
        events: Vec::new(),
        data: Some(result_data),
    };
    Ok(response)
}

/// When a transfer succeeds: the funds cover the transfer price, the
/// name exists, and the sender owns it.
pub open spec fn can_transfer(
    pre: ContractState,
    funds: Seq<Coin>,
    name: Seq<char>,
    sender: Seq<char>,
) -> bool {
    sufficient_funds(funds, pre.config.transfer_price) && pre.has_name(name) && pre.owner_of(name)
        == sender
}

/// What a successful transfer does to the state: the one record of the
/// name changes owner, the confirmation text is persisted, nothing else
/// is touched.
pub open spec fn transfer_ok_post(
    pre: ContractState,
    post: ContractState,
    name: Seq<char>,
    to: Seq<char>,
) -> bool {
    let idx = pre.name_idx(name);
    &&& post.name_resolver@.len() == pre.name_resolver@.len()
    &&& (forall|i: int|
        #![trigger post.name_resolver@[i]]
        0 <= i < pre.name_resolver@.len() && i != idx ==> post.name_resolver@[i]
            == pre.name_resolver@[i])
    &&& post.name_resolver@[idx].name@ == name
    &&& post.name_resolver@[idx].record.owner@ == to
    &&& post.config == pre.config
    &&& post.request == pre.request
    &&& post.nonce == pre.nonce
    &&& post.pending == pre.pending
    &&& (post.result matches Some(v) && v@ == abi_single_dynamic(transfer_result_text(name, to)))
}

/// Which error a failing transfer reports, in the order the checks run:
/// funds, then existence, then ownership.
pub open spec fn transfer_err(
    pre: ContractState,
    funds: Seq<Coin>,
    name: Seq<char>,
    sender: Seq<char>,
    e: ContractError,
) -> bool {
    if !sufficient_funds(funds, pre.config.transfer_price) {
        e matches ContractError::InsufficientFundsSend {  }
    } else if !pre.has_name(name) {
        e matches ContractError::NameNotExists { name: n } && n@ == name
    } else {
        pre.owner_of(name) != sender && (e matches ContractError::Unauthorized {  })
    }
}

/// The whole behaviour of a transfer call.
pub open spec fn transfer_rel(
    pre: ContractState,
    post: ContractState,
    sender: Seq<char>,
    funds: Seq<Coin>,
    name: Seq<char>,
    to: Seq<char>,
    r: Result<Response, ContractError>,
) -> bool {
    &&& post.wf()
    &&& (r is Ok <==> can_transfer(pre, funds, name, sender))
    &&& (r matches Ok(resp) ==> transfer_ok_post(pre, post, name, to) && resp.messages@.len() == 0
        && resp.attributes@.len() == 0 && resp.events@.len() == 0 && (resp.data matches Some(d)
        && d@ == abi_single_dynamic(transfer_result_text(name, to))))
    &&& (r matches Err(e) ==> post == pre && transfer_err(pre, funds, name, sender, e))
}

/// Moves `name` to the owner `to`; only the present owner may do so. The
/// embedding layer validates `to` as an address before the call.
pub fn execute_transfer(
    state: &mut ContractState,
    info: &MessageInfo,
    name: String,
    to: String,
) -> (r: Result<Response, ContractError>)
    requires
        old(state).wf(),
        name@.len() < 0x100_0000,
        to@.len() < 0x100_0000,
    ensures
        transfer_rel(*old(state), *final(state), info.sender@, info.funds@, name@, to@, r),
{
    let transfer_price = clone_opt_coin(&state.config.transfer_price);
    assert_sent_sufficient_coin(&info.funds, transfer_price)?;

    let n = state.name_resolver.len();
    let mut i: usize = 0;
    while i < n
        invariant
            i <= n,
            n == state.name_resolver@.len(),
            *state == *old(state),
            old(state).wf(),
            sufficient_funds(info.funds@, old(state).config.transfer_price),
            name@.len() < 0x100_0000,
            to@.len() < 0x100_0000,
            forall|k: int|
                #![trigger state.name_resolver@[k]]
                0 <= k < i ==> state.name_resolver@[k].name@ != name@,
        decreases n - i,
    {
        if state.name_resolver[i].name == name {
            proof {
                assert(state.name_resolver@[i as int].name@ == name@);
                assert(old(state).has_name(name@));
                lemma_name_idx_unique(*old(state), name@, i as int);
            }
            if state.name_resolver[i].record.owner == info.sender {
                let new_entry = NameEntry {
                    name: name.clone(),
                    record: NameRecord { owner: to.clone() },
                };
                let slot = &mut state.name_resolver[i];
                *slot = new_entry;
                proof {
                    let cur = state.name_resolver@;
                    let prev = old(state).name_resolver@;
                    assert forall|k: int|
                        0 <= k < cur.len() implies #[trigger] cur[k].name@ == prev[k].name@ by {
                        if k != i as int {
                            assert(cur[k] == prev[k]);
                        }
                    }
                    assert forall|a: int, b: int|
                        0 <= a < b < cur.len() implies cur[a].name@ != cur[b].name@ && lex_lt(
                            cur[a].name@,
                            cur[b].name@,
                        ) by {
                        assert(cur[a].name@ == prev[a].name@ && cur[b].name@ == prev[b].name@);
                        assert(old(state).wf());
                    }
                    assert forall|k: int|
                        0 <= k < cur.len() implies crate::helper::valid_name_chars(
                            #[trigger] cur[k].name@,
                        ) by {
                        assert(cur[k].name@ == prev[k].name@);
                    }
                }
                let result_txt = build_transfer_result_text(&name, &to);
                proof {
                    lemma_transfer_result_text_len(name@, to@);
                }
                let result = encode_single_dynamic(&result_txt);
                let result_data = clone_bytes(&result);
                state.result = Some(result);
                let response = Response {
                    messages: Vec::new(),
                    attributes: Vec::new(),
                    events: Vec::new(),
                    data: Some(result_data),
                };
                return Ok(response);
            } else {
                return Err(ContractError::Unauthorized {  });
            }
        }
        i = i + 1;
    }
    assert(!old(state).has_name(name@));
    Err(ContractError::NameNotExists { name })
}

/// The whole behaviour of the receive decode step: success exactly when
/// the payload carries the single-dynamic-element layout; the inner
/// buffer is returned and persisted as the request snapshot.
pub open spec fn i_receive_rel(
    pre: ContractState,
    post: ContractState,
    payload: Seq<u8>,
    r: Result<Vec<u8>, ContractError>,
) -> bool {
    &&& (r is Ok <==> abi_decode_single(payload) is Some)
    &&& (r matches Ok(v) ==> abi_decode_single(payload) == Some(v@) && (
    post.request matches Some(q) && q@ == v@) && post.config == pre.config && post.name_resolver
        == pre.name_resolver && post.result == pre.result && post.nonce == pre.nonce
        && post.pending == pre.pending)
    &&& (r matches Err(e) ==> post == pre && (e matches ContractError::Std { msg } && msg@
        == "error: abi_decode_to_binary"@))
}

/// Decodes an inbound request payload and persists the inner buffer as
/// the request snapshot. The embedding layer deserializes the returned
/// buffer into a [`CustomExecuteMsg`] and hands it to
/// [`execute_custom`]; errors of that deserialization propagate as the
/// host's own.
pub fn execute_i_receive(state: &mut ContractState, payload: &Vec<u8>) -> (r: Result<
    Vec<u8>,
    ContractError,
>)
    ensures
        i_receive_rel(*old(state), *final(state), payload@, r),
{
    // abi decode payload, which was encoded by the request sender
    let decoded = abi_decode_to_binary(payload)?;

    // save the request packet for debug
    state.request = Some(clone_bytes(&decoded));
    Ok(decoded)
}

/// Dispatches a decoded inbound application message over the closed
/// message set.
pub fn execute_custom(state: &mut ContractState, info: &MessageInfo, msg: CustomExecuteMsg) -> (r:
    Result<Response, ContractError>)
    requires
        old(state).wf(),
        info.sender@.len() < 0x100_0000,
        match msg {
            CustomExecuteMsg::Register { name } => name@.len() < 0x100_0000,
            CustomExecuteMsg::Transfer { name, to } => name@.len() < 0x100_0000 && to@.len()
                < 0x100_0000,
        },
    ensures
        match msg {
            CustomExecuteMsg::Register { name } => register_rel(
                *old(state),
                *final(state),
                info.sender@,
                info.funds@,
                name@,
                r,
            ),
            CustomExecuteMsg::Transfer { name, to } => transfer_rel(
                *old(state),
                *final(state),
                info.sender@,
                info.funds@,
                name@,
                to@,
                r,
            ),
        },
{
    match msg {
        CustomExecuteMsg::Register { name } => execute_register(state, info, name),
        CustomExecuteMsg::Transfer { name, to } => execute_transfer(state, info, name, to),
    }
}

/// The whole behaviour of the acknowledge flow: success exactly when the
/// result data decodes; the decoded buffer becomes the request snapshot
/// and the encoded audit text becomes the result snapshot and the
/// response data.
pub open spec fn i_ack_rel(
    pre: ContractState,
    post: ContractState,
    address: Seq<char>,
    request_identifier: u64,
    exec_status: bool,
    exec_data: Seq<u8>,
    r: Result<Response, ContractError>,
) -> bool {
    &&& (r is Ok <==> abi_decode_single(exec_data) is Some)
    &&& (r matches Ok(resp) ==> (abi_decode_single(exec_data) matches Some(d) && (
    post.request matches Some(q) && q@ == d) && (post.result matches Some(w) && w@
        == abi_single_dynamic(ack_text(address, request_identifier, exec_status, d))) && (
    resp.data matches Some(rd) && rd@ == abi_single_dynamic(
        ack_text(address, request_identifier, exec_status, d),
    )) && resp.messages@.len() == 0 && resp.attributes@.len() == 0 && resp.events@.len() == 0
        && post.config == pre.config && post.name_resolver == pre.name_resolver && post.nonce
        == pre.nonce && post.pending == pre.pending))
    &&& (r matches Err(e) ==> post == pre && (e matches ContractError::Std { msg } && msg@
        == "error: abi_decode_to_binary"@))
}

/// Decodes an inbound acknowledgment, persists the decoded data as the
/// request snapshot, and persists and returns the encoded audit text.
pub fn execute_i_ack(
    state: &mut ContractState,
    env: &Env,
    request_identifier: u64,
    exec_status: bool,
    exec_data: &Vec<u8>,
) -> (r: Result<Response, ContractError>)
    requires
        env.contract_address@.len() < 0x100_0000,
        exec_data@.len() < 0x1000_0000,
    ensures
        i_ack_rel(
            *old(state),
            *final(state),
            env.contract_address@,
            request_identifier,
            exec_status,
            exec_data@,
            r,
        ),
{
    // abi decode the payload, which was encoded by the handler side
    let decoded = abi_decode_to_binary(exec_data)?;

    // save the ack packet in the store for debug
    state.request = Some(clone_bytes(&decoded));

    let result_txt = build_ack_text(&env.contract_address, request_identifier, exec_status, &decoded);
    proof {
        lemma_ack_text_len(env.contract_address@, request_identifier, exec_status, decoded@);
    }
    let result = encode_single_dynamic(&result_txt);
    let result_data = clone_bytes(&result);

    // save the result in the store for debug
    state.result = Some(result);

    let response = Response {
        messages: Vec::new(),
        attributes: Vec::new(),
        events: Vec::new(),
        data: Some(result_data),
    };
    Ok(response)
}

/// What the outbound send hands the host: one tagged gateway instruction
/// carrying the request packet, and one audit event.
pub open spec fn i_send_response(
    resp: Response,
    version: u64,
    route_amount: u64,
    route_recipient: Seq<char>,
    dest_chain_id: Seq<char>,
    request_metadata: Seq<u8>,
    gateway_address: Seq<char>,
    handler_address: Seq<char>,
    payload: Seq<u8>,
) -> bool {
    &&& resp.messages@.len() == 1
    &&& resp.messages@[0].id == ISEND_ID
    &&& resp.messages@[0].reply_on == ReplyOn::Always
    &&& resp.messages@[0].gas_limit is None
    &&& resp.messages@[0].msg.contract_addr@ == gateway_address
    &&& resp.messages@[0].msg.funds@.len() == 0
    &&& (resp.messages@[0].msg.msg matches GatewayMsg::ISend {
        version: v,
        route_amount: ra,
        route_recipient: rr,
        dest_chain_id: d,
        request_metadata: rm,
        request_packet: rp,
    } && v == version && ra == route_amount && rr@ == route_recipient && d@ == dest_chain_id
        && rm@ == request_metadata && rp@ == request_packet_spec(handler_address, payload))
    &&& resp.attributes@.len() == 0
    &&& resp.events@.len() == 1
    &&& resp.events@[0].ty@ == "ISend"@
    &&& resp.events@[0].attributes@.len() == 4
    &&& resp.events@[0].attributes@[0].key@ == "dest_chain_id"@
    &&& resp.events@[0].attributes@[0].value@ == encode_utf8(dest_chain_id)
    &&& resp.events@[0].attributes@[1].key@ == "handler_address"@
    &&& resp.events@[0].attributes@[1].value@ == encode_utf8(handler_address)
    &&& resp.events@[0].attributes@[2].key@ == "payload"@
    &&& resp.events@[0].attributes@[2].value@ == base64_text(payload)
    &&& resp.events@[0].attributes@[3].key@ == "request_packet"@
    &&& resp.events@[0].attributes@[3].value@ == base64_text(
        request_packet_spec(handler_address, payload),
    )
    &&& resp.data is None
}

/// Builds the request packet for `(handler_address, payload)` and wraps
/// it in a gateway send instruction tagged for the reply correlator; the
/// audit event carries the chain, the handler and both payloads.
pub fn execute_i_send(
    version: u64,
    route_amount: u64,
    route_recipient: String,
    dest_chain_id: String,
    request_metadata: Vec<u8>,
    gateway_address: String,
    handler_address: String,
    payload: Vec<u8>,
) -> (r: Result<Response, ContractError>)
    requires
        handler_address@.len() < 0x100_0000,
        payload@.len() < 0x1000_0000,
    ensures
        r matches Ok(resp) && i_send_response(
            resp,
            version,
            route_amount,
            route_recipient@,
            dest_chain_id@,
            request_metadata@,
            gateway_address@,
            handler_address@,
            payload@,
        ),
{
    proof {
        lemma_encode_utf8_len(handler_address@);
    }
    // request_packet = abi encode(handler_address, payload)
    let request_packet = get_request_packet(&handler_address, &payload);

    let mut payload_b64: Vec<u8> = Vec::new();
    crate::diag::push_base64_text(&mut payload_b64, &payload);
    let mut packet_b64: Vec<u8> = Vec::new();
    crate::diag::push_base64_text(&mut packet_b64, &request_packet);

    let mut event_attrs: Vec<Attribute> = Vec::new();
    event_attrs.push(
        Attribute {
            key: String::from_str("dest_chain_id"),
            value: dest_chain_id.as_str().as_bytes_vec(),
        },
    );
    event_attrs.push(
        Attribute {
            key: String::from_str("handler_address"),
            value: handler_address.as_str().as_bytes_vec(),
        },
    );
    event_attrs.push(Attribute { key: String::from_str("payload"), value: payload_b64 });
    event_attrs.push(Attribute { key: String::from_str("request_packet"), value: packet_b64 });
    let event = Event { ty: String::from_str("ISend"), attributes: event_attrs };
    let mut events: Vec<Event> = Vec::new();
    events.push(event);

    // create the ISend instruction of the gateway contract
    let i_send_msg = GatewayMsg::ISend {
        version,
        route_amount,
        route_recipient,
        dest_chain_id,
        request_metadata,
        request_packet,
    };
    let gateway_send_msg = WasmExecute {
        contract_addr: gateway_address,
        msg: i_send_msg,
        funds: Vec::new(),
    };
    let submsg = SubMsg {
        id: ISEND_ID,
        gas_limit: None,
        reply_on: ReplyOn::Always,
        msg: gateway_send_msg,
    };
    let mut messages: Vec<SubMsg> = Vec::new();
    messages.push(submsg);

    let response = Response { messages, attributes: Vec::new(), events, data: None };
    Ok(response)
}

/// What the metadata instruction hands the host: one tagged gateway
/// instruction naming the fee payer, and one audit attribute.
pub open spec fn set_dapp_metadata_response(
    resp: Response,
    fee_payer_address: Seq<char>,
    gateway_address: Seq<char>,
) -> bool {
    &&& resp.messages@.len() == 1
    &&& resp.messages@[0].id == ISEND_ID
    &&& resp.messages@[0].reply_on == ReplyOn::Always
    &&& resp.messages@[0].gas_limit is None
    &&& resp.messages@[0].msg.contract_addr@ == gateway_address
    &&& resp.messages@[0].msg.funds@.len() == 0
    &&& (resp.messages@[0].msg.msg matches GatewayMsg::SetDappMetadata { fee_payer_address: f }
        && f@ == fee_payer_address)
    &&& resp.attributes@.len() == 1
    &&& resp.attributes@[0].key@ == "fee_payer_address"@
    &&& resp.attributes@[0].value@ == encode_utf8(fee_payer_address)
    &&& resp.events@.len() == 0
    &&& resp.data is None
}

/// Sends the configuration-only gateway instruction that names the fee
/// payer, under the same continuation tag as a send.
pub fn set_dapp_metadata(fee_payer_address: String, gateway_address: String) -> (r: Result<
    Response,
    ContractError,
>)
    ensures
        r matches Ok(resp) && set_dapp_metadata_response(
            resp,
            fee_payer_address@,
            gateway_address@,
        ),
{
    let fee_payer_bytes = fee_payer_address.as_str().as_bytes_vec();

    // create the SetDappMetadata instruction of the gateway contract
    let set_dapp_metadata_msg = GatewayMsg::SetDappMetadata { fee_payer_address };
    let gateway_send_msg = WasmExecute {
        contract_addr: gateway_address,
        msg: set_dapp_metadata_msg,
        funds: Vec::new(),
    };
    let submsg = SubMsg {
        id: ISEND_ID,
        gas_limit: None,
        reply_on: ReplyOn::Always,
        msg: gateway_send_msg,
    };
    let mut messages: Vec<SubMsg> = Vec::new();
    messages.push(submsg);

    let mut attributes: Vec<Attribute> = Vec::new();
    attributes.push(
        Attribute { key: String::from_str("fee_payer_address"), value: fee_payer_bytes },
    );

    let response = Response { messages, attributes, events: Vec::new(), data: None };
    Ok(response)
}

/// Registering the same name twice fails the second time with a
/// name-taken error, as long as the second call pays the fee; and after
/// the first call the name resolves to the registering identity.
pub proof fn lemma_register_twice_fails(
    pre: ContractState,
    mid: ContractState,
    post: ContractState,
    sender1: Seq<char>,
    funds1: Seq<Coin>,
    sender2: Seq<char>,
    funds2: Seq<Coin>,
    name: Seq<char>,
    resp1: Response,
    r2: Result<Response, ContractError>,
)
    requires
        register_rel(pre, mid, sender1, funds1, name, Ok(resp1)),
        register_rel(mid, post, sender2, funds2, name, r2),
        sufficient_funds(funds2, mid.config.purchase_price),
    ensures
        mid.has_name(name),
        mid.owner_of(name) == sender1,
        r2 is Err,
        r2 matches Err(e) && (e matches ContractError::NameTaken { name: n } && n@ == name),
        post == mid,
{
    let pos = choose|pos: int| registered_at(pre, mid, name, sender1, pos);
    assert(registered_at(pre, mid, name, sender1, pos));
    assert(mid.name_resolver@[pos].name@ == name);
    assert(mid.has_name(name));
    lemma_name_idx_unique(mid, name, pos);
    assert(mid.owner_of(name) == sender1);
    assert(!can_register(mid, funds2, name));
}

/// A transfer attempted by anyone but the present owner fails, with an
/// authorization error when the fee is paid, and leaves the record's
/// owner unchanged.
pub proof fn lemma_transfer_unauthorized(
    pre: ContractState,
    post: ContractState,
    sender: Seq<char>,
    funds: Seq<Coin>,
    name: Seq<char>,
    to: Seq<char>,
    r: Result<Response, ContractError>,
)
    requires
        transfer_rel(pre, post, sender, funds, name, to, r),
        pre.has_name(name),
        pre.owner_of(name) != sender,
    ensures
        r is Err,
        sufficient_funds(funds, pre.config.transfer_price) ==> (r matches Err(e)
            && e matches ContractError::Unauthorized {  }),
        post == pre,
        post.owner_of(name) == pre.owner_of(name),
{
    assert(!can_transfer(pre, funds, name, sender));
}

} // verus!
