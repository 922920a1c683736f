use cosmwasm_std::{from_binary, to_binary, Binary};
use crosschain_nameservice::contract::instantiate;
use crosschain_nameservice::error::ContractError;
use crosschain_nameservice::msg::{GatewayReply, InstantiateMsg, Reply};
use crosschain_nameservice::reply::{handle_i_send_reply, reply};
use crosschain_nameservice::state::ContractState;

fn setup() -> ContractState {
    instantiate(InstantiateMsg {
        purchase_price: None,
        transfer_price: None,
    })
    .0
}

fn data_reply(id: u64, data: &[u8]) -> Reply {
    Reply {
        id,
        result: GatewayReply::Data(Some(data.to_vec())),
    }
}

fn pending_of(state: &ContractState) -> Vec<u64> {
    state
        .pending
        .as_ref()
        .map(|p| p.requests.clone())
        .unwrap_or_default()
}

#[test]
fn successful_replies_grow_the_ledger_in_delivery_order() {
    let mut state = setup();
    assert!(pending_of(&state).is_empty());

    let r1 = reply(&mut state, data_reply(125, b"777")).unwrap();
    assert_eq!(pending_of(&state), vec![777]);

    // the confirmation data matches the host's own serialization of the
    // confirmation text
    let expected: Binary =
        to_binary(&"handle_i_send_reply, request_identifier: 777".to_string()).unwrap();
    assert_eq!(r1.data, Some(expected.as_slice().to_vec()));

    reply(&mut state, data_reply(125, b"888")).unwrap();
    reply(&mut state, data_reply(125, b"12")).unwrap();
    assert_eq!(pending_of(&state), vec![777, 888, 12]);
}

#[test]
fn identifier_parse_agrees_with_host_deserializer() {
    // bare spellings and whitespace-wrapped ones, as the host's
    // deserializer skips surrounding whitespace
    for case in [
        &b"0"[..],
        b"7",
        b"777",
        b"18446744073709551615",
        b" 777",
        b"777 ",
        b"\t12\r\n",
        b"\n 5 \t",
    ] {
        let mut state = setup();
        let host: u64 = from_binary(&Binary::from(case)).unwrap();
        reply(&mut state, data_reply(125, case)).unwrap();
        assert_eq!(pending_of(&state), vec![host]);
    }
}

#[test]
fn failed_correlations_leave_the_ledger_unchanged() {
    let mut state = setup();
    reply(&mut state, data_reply(125, b"1")).unwrap();

    let failure = Reply {
        id: 125,
        result: GatewayReply::SubMsgFailure("gateway reverted".to_string()),
    };
    match reply(&mut state, failure) {
        Err(ContractError::Std { msg }) => {
            assert_eq!(msg, "SubMsgFailure: gateway reverted");
        }
        r => panic!("Unexpected result: {:?}", r),
    }
    assert_eq!(pending_of(&state), vec![1]);

    let parse_failure = Reply {
        id: 125,
        result: GatewayReply::ParseFailure("bad protobuf".to_string()),
    };
    match reply(&mut state, parse_failure) {
        Err(ContractError::Std { msg }) => assert_eq!(msg, "ParseFailure: bad protobuf"),
        r => panic!("Unexpected result: {:?}", r),
    }

    let broken = Reply {
        id: 125,
        result: GatewayReply::BrokenUtf8,
    };
    match reply(&mut state, broken) {
        Err(ContractError::Std { msg }) => assert_eq!(msg, "BrokenUtf8"),
        r => panic!("Unexpected result: {:?}", r),
    }
    assert_eq!(pending_of(&state), vec![1]);
}

#[test]
fn undecodable_identifiers_are_decode_failures() {
    // not digits, non-canonical, and out of range: the host's own
    // deserializer rejects each of these byte strings as well
    for case in [&b"12x"[..], b"007", b"", b" ", b"7 7", b"18446744073709551616"] {
        let mut state = setup();
        assert!(from_binary::<u64>(&Binary::from(case)).is_err());
        match handle_i_send_reply(&mut state, data_reply(125, case)) {
            Err(ContractError::Std { msg }) => {
                assert_eq!(msg, "Error parsing into type u64");
            }
            r => panic!("Unexpected result: {:?}", r),
        }
        assert!(pending_of(&state).is_empty());
    }
}

#[test]
fn missing_reply_data_is_a_parse_failure() {
    let mut state = setup();
    let no_data = Reply {
        id: 125,
        result: GatewayReply::Data(None),
    };
    match reply(&mut state, no_data) {
        Err(ContractError::Std { msg }) => {
            assert_eq!(msg, "ParseFailure: Missing reply data");
        }
        r => panic!("Unexpected result: {:?}", r),
    }
    assert!(pending_of(&state).is_empty());
}

#[test]
fn unknown_continuation_tag_is_fatal() {
    let mut state = setup();
    match reply(&mut state, data_reply(7, b"1")) {
        Err(ContractError::Std { msg }) => {
            assert_eq!(
                msg,
                "=========================invalid reply id=========================="
            );
        }
        r => panic!("Unexpected result: {:?}", r),
    }
    assert!(pending_of(&state).is_empty());
}
