use cosmwasm_std::Binary;
use crosschain_nameservice::contract::{
    execute, instantiate, load_states, query, query_custom, query_resolver, ExecOutcome,
    QueryOutcome,
};
use crosschain_nameservice::error::ContractError;
use crosschain_nameservice::execute::{
    execute_custom, execute_i_ack, execute_i_send, execute_register, execute_transfer,
    set_dapp_metadata,
};
use crosschain_nameservice::msg::{
    CustomExecuteMsg, CustomQueryMsg, Env, ExecuteMsg, GatewayMsg, InstantiateMsg, MessageInfo,
    QueryMsg, ReplyOn,
};
use crosschain_nameservice::state::{Coin, ContractState};
use router_wasm_bindings::ethabi::{encode, Token};

fn free_setup() -> ContractState {
    let msg = InstantiateMsg {
        purchase_price: None,
        transfer_price: None,
    };
    instantiate(msg).0
}

fn info(sender: &str) -> MessageInfo {
    MessageInfo {
        sender: sender.to_string(),
        funds: vec![],
    }
}

fn env(addr: &str) -> Env {
    Env {
        contract_address: addr.to_string(),
    }
}

#[test]
fn instantiate_stores_config() {
    let msg = InstantiateMsg {
        purchase_price: Some(Coin {
            denom: "token".to_string(),
            amount: 7,
        }),
        transfer_price: None,
    };
    let (state, resp) = instantiate(msg);
    assert_eq!(
        state.config.purchase_price,
        Some(Coin {
            denom: "token".to_string(),
            amount: 7
        })
    );
    assert_eq!(state.config.transfer_price, None);
    assert!(state.name_resolver.is_empty());
    assert!(resp.data.is_none());
    assert!(resp.messages.is_empty());
}

#[test]
fn register_twice_fails_with_name_taken() {
    let mut state = free_setup();
    let first = execute_register(&mut state, &info("alice_key"), "alice".to_string());
    assert!(first.is_ok());
    let resolved = query_resolver(&state, &"alice".to_string());
    assert_eq!(resolved.address, Some("alice_key".to_string()));

    match execute_register(&mut state, &info("bob_key"), "alice".to_string()) {
        Err(ContractError::NameTaken { name }) => assert_eq!(name, "alice"),
        r => panic!("Unexpected result: {:?}", r),
    }
    // the first registration stands
    let resolved = query_resolver(&state, &"alice".to_string());
    assert_eq!(resolved.address, Some("alice_key".to_string()));
}

#[test]
fn register_result_data_is_encoded_confirmation() {
    let mut state = free_setup();
    let resp = execute_register(&mut state, &info("alice_key"), "alice".to_string()).unwrap();
    let expected = encode(&[Token::String(
        "execute_register, name: alice, owner: alice_key".to_string(),
    )]);
    assert_eq!(resp.data, Some(expected.clone()));
    assert_eq!(state.result, Some(expected));
}

#[test]
fn register_requires_purchase_price() {
    let msg = InstantiateMsg {
        purchase_price: Some(Coin {
            denom: "token".to_string(),
            amount: 5,
        }),
        transfer_price: None,
    };
    let (mut state, _) = instantiate(msg);

    match execute_register(&mut state, &info("alice_key"), "alice".to_string()) {
        Err(ContractError::InsufficientFundsSend {}) => {}
        r => panic!("Unexpected result: {:?}", r),
    }
    assert_eq!(query_resolver(&state, &"alice".to_string()).address, None);

    let paying = MessageInfo {
        sender: "alice_key".to_string(),
        funds: vec![Coin {
            denom: "token".to_string(),
            amount: 5,
        }],
    };
    assert!(execute_register(&mut state, &paying, "alice".to_string()).is_ok());
}

#[test]
fn register_validates_name_first() {
    let mut state = free_setup();
    match execute_register(&mut state, &info("k"), "ab".to_string()) {
        Err(ContractError::NameTooShort { length, min_length }) => {
            assert_eq!((length, min_length), (2, 3));
        }
        r => panic!("Unexpected result: {:?}", r),
    }
}

#[test]
fn transfer_by_non_owner_is_unauthorized() {
    let mut state = free_setup();
    execute_register(&mut state, &info("alice_key"), "alice".to_string()).unwrap();

    match execute_transfer(
        &mut state,
        &info("mallory_key"),
        "alice".to_string(),
        "mallory_key".to_string(),
    ) {
        Err(ContractError::Unauthorized {}) => {}
        r => panic!("Unexpected result: {:?}", r),
    }
    // the owner is unchanged
    let resolved = query_resolver(&state, &"alice".to_string());
    assert_eq!(resolved.address, Some("alice_key".to_string()));
}

#[test]
fn transfer_by_owner_moves_the_record() {
    let mut state = free_setup();
    execute_register(&mut state, &info("alice_key"), "alice".to_string()).unwrap();
    let resp = execute_transfer(
        &mut state,
        &info("alice_key"),
        "alice".to_string(),
        "bob_key".to_string(),
    )
    .unwrap();
    let resolved = query_resolver(&state, &"alice".to_string());
    assert_eq!(resolved.address, Some("bob_key".to_string()));
    let expected = encode(&[Token::String(
        "execute_register, name: alice, to: bob_key".to_string(),
    )]);
    assert_eq!(resp.data, Some(expected));
}

#[test]
fn transfer_of_missing_name_fails() {
    let mut state = free_setup();
    match execute_transfer(
        &mut state,
        &info("a"),
        "ghost".to_string(),
        "b".to_string(),
    ) {
        Err(ContractError::NameNotExists { name }) => assert_eq!(name, "ghost"),
        r => panic!("Unexpected result: {:?}", r),
    }
}

#[test]
fn i_receive_decodes_and_snapshots_then_dispatches() {
    let mut state = free_setup();
    let inner = b"{\"register\":{\"name\":\"bob\"}}".to_vec();
    let packet = encode(&[Token::Bytes(inner.clone())]);

    let outcome = execute(
        &mut state,
        &env("this_contract"),
        &info("gateway"),
        ExecuteMsg::IReceive {
            src_chain_id: "80001".to_string(),
            request_sender: "0xsender".to_string(),
            packet,
        },
    )
    .unwrap();
    let decoded = match outcome {
        ExecOutcome::Inbound(b) => b,
        ExecOutcome::Done(r) => panic!("Unexpected response: {:?}", r),
    };
    assert_eq!(decoded, inner);
    assert_eq!(state.request, Some(inner));

    // the embedding layer deserializes and hands the message back in
    let resp = execute_custom(
        &mut state,
        &info("gateway"),
        CustomExecuteMsg::Register {
            name: "bob".to_string(),
        },
    )
    .unwrap();
    assert!(resp.data.is_some());
    assert_eq!(
        query_resolver(&state, &"bob".to_string()).address,
        Some("gateway".to_string())
    );
}

#[test]
fn i_receive_rejects_malformed_packet() {
    let mut state = free_setup();
    let r = execute(
        &mut state,
        &env("c"),
        &info("g"),
        ExecuteMsg::IReceive {
            src_chain_id: "1".to_string(),
            request_sender: "s".to_string(),
            packet: vec![1, 2, 3],
        },
    );
    match r {
        Err(ContractError::Std { msg }) => assert_eq!(msg, "error: abi_decode_to_binary"),
        r => panic!("Unexpected result: {:?}", r),
    }
    assert_eq!(state.request, None);
}

#[test]
fn i_ack_formats_the_audit_text() {
    let mut state = free_setup();
    let inner = vec![0xde, 0xad, 0xbe];
    let exec_data = encode(&[Token::Bytes(inner.clone())]);
    let resp = execute_i_ack(&mut state, &env("contract1"), 42, true, &exec_data).unwrap();

    let expected_txt = format!(
        "Ack from handler contract:\naddress: {}\nrequest_identifier: {}\nexec_status:{}\nexec_data:{:?}",
        "contract1",
        42,
        true,
        Binary::from(inner.clone())
    );
    let expected = encode(&[Token::String(expected_txt)]);
    assert_eq!(resp.data, Some(expected.clone()));
    assert_eq!(state.result, Some(expected));
    assert_eq!(state.request, Some(inner));
}

#[test]
fn i_send_builds_packet_event_and_submessage() {
    let payload = vec![0x01, 0x02];
    let metadata = vec![9u8; 5];
    let resp = execute_i_send(
        1,
        0,
        "router_recipient".to_string(),
        "80001".to_string(),
        metadata.clone(),
        "gateway_addr".to_string(),
        "H".to_string(),
        payload.clone(),
    )
    .unwrap();

    let expected_packet = encode(&[Token::String("H".to_string()), Token::Bytes(payload.clone())]);

    assert_eq!(resp.messages.len(), 1);
    let sub = &resp.messages[0];
    assert_eq!(sub.id, 125);
    assert_eq!(sub.reply_on, ReplyOn::Always);
    assert_eq!(sub.gas_limit, None);
    assert_eq!(sub.msg.contract_addr, "gateway_addr");
    assert!(sub.msg.funds.is_empty());
    match &sub.msg.msg {
        GatewayMsg::ISend {
            version,
            route_amount,
            route_recipient,
            dest_chain_id,
            request_metadata,
            request_packet,
        } => {
            assert_eq!(*version, 1);
            assert_eq!(*route_amount, 0);
            assert_eq!(route_recipient, "router_recipient");
            assert_eq!(dest_chain_id, "80001");
            assert_eq!(request_metadata, &metadata);
            assert_eq!(request_packet, &expected_packet);
        }
        m => panic!("Unexpected message: {:?}", m),
    }

    assert_eq!(resp.events.len(), 1);
    let ev = &resp.events[0];
    assert_eq!(ev.ty, "ISend");
    assert_eq!(ev.attributes.len(), 4);
    assert_eq!(ev.attributes[0].key, "dest_chain_id");
    assert_eq!(ev.attributes[0].value, b"80001");
    assert_eq!(ev.attributes[1].key, "handler_address");
    assert_eq!(ev.attributes[1].value, b"H");
    assert_eq!(ev.attributes[2].key, "payload");
    assert_eq!(
        ev.attributes[2].value,
        Binary::from(payload.clone()).to_base64().into_bytes()
    );
    assert_eq!(ev.attributes[3].key, "request_packet");
    assert_eq!(
        ev.attributes[3].value,
        Binary::from(expected_packet).to_base64().into_bytes()
    );
    assert!(resp.data.is_none());
}

#[test]
fn set_dapp_metadata_names_the_fee_payer() {
    let resp = set_dapp_metadata("payer1".to_string(), "gateway_addr".to_string()).unwrap();
    assert_eq!(resp.messages.len(), 1);
    assert_eq!(resp.messages[0].id, 125);
    assert_eq!(resp.messages[0].msg.contract_addr, "gateway_addr");
    match &resp.messages[0].msg.msg {
        GatewayMsg::SetDappMetadata { fee_payer_address } => {
            assert_eq!(fee_payer_address, "payer1");
        }
        m => panic!("Unexpected message: {:?}", m),
    }
    assert_eq!(resp.attributes.len(), 1);
    assert_eq!(resp.attributes[0].key, "fee_payer_address");
    assert_eq!(resp.attributes[0].value, b"payer1");
}

#[test]
fn query_config_and_resolve() {
    let msg = InstantiateMsg {
        purchase_price: Some(Coin {
            denom: "token".to_string(),
            amount: 5,
        }),
        transfer_price: None,
    };
    let (mut state, _) = instantiate(msg);
    let paying = MessageInfo {
        sender: "alice_key".to_string(),
        funds: vec![Coin {
            denom: "token".to_string(),
            amount: 5,
        }],
    };
    execute_register(&mut state, &paying, "alice".to_string()).unwrap();

    match query(&state, &QueryMsg::Config {}).unwrap() {
        QueryOutcome::Config(c) => {
            assert_eq!(
                c.purchase_price,
                Some(Coin {
                    denom: "token".to_string(),
                    amount: 5
                })
            );
            assert_eq!(c.transfer_price, None);
        }
        o => panic!("Unexpected outcome: {:?}", fmt_outcome(&o)),
    }

    match query(
        &state,
        &QueryMsg::ResolveRecord {
            name: "alice".to_string(),
        },
    )
    .unwrap()
    {
        QueryOutcome::Record(r) => assert_eq!(r.address, Some("alice_key".to_string())),
        o => panic!("Unexpected outcome: {:?}", fmt_outcome(&o)),
    }
}

fn fmt_outcome(o: &QueryOutcome) -> &'static str {
    match o {
        QueryOutcome::Record(_) => "record",
        QueryOutcome::Config(_) => "config",
        QueryOutcome::States(_) => "states",
        QueryOutcome::Inbound(_) => "inbound",
    }
}

#[test]
fn i_query_decodes_and_custom_answers_render_debug_text() {
    let msg = InstantiateMsg {
        purchase_price: Some(Coin {
            denom: "token".to_string(),
            amount: 5,
        }),
        transfer_price: None,
    };
    let (state, _) = instantiate(msg);

    let inner = b"{\"config\": {}}".to_vec();
    let packet = encode(&[Token::Bytes(inner.clone())]);
    match query(&state, &QueryMsg::IQuery { packet }).unwrap() {
        QueryOutcome::Inbound(b) => assert_eq!(b, inner),
        o => panic!("Unexpected outcome: {:?}", fmt_outcome(&o)),
    }

    // the rendered configuration matches the host types' own debug form
    #[derive(Debug)]
    #[allow(dead_code)]
    struct Config {
        purchase_price: Option<cosmwasm_std::Coin>,
        transfer_price: Option<cosmwasm_std::Coin>,
    }
    let reference = Config {
        purchase_price: Some(cosmwasm_std::coin(5, "token")),
        transfer_price: None,
    };
    let expected = encode(&[Token::String(format!("{:?}", reference))]);
    let answer = query_custom(&state, &CustomQueryMsg::Config {});
    assert_eq!(answer, expected);
}

#[test]
fn custom_resolve_answer_renders_debug_text() {
    let mut state = free_setup();
    execute_register(&mut state, &info("alice_key"), "alice".to_string()).unwrap();

    #[derive(Debug)]
    #[allow(dead_code)]
    struct ResolveRecordResponse {
        address: Option<String>,
    }
    let found = ResolveRecordResponse {
        address: Some("alice_key".to_string()),
    };
    let expected = encode(&[Token::String(format!("{:?}", found))]);
    let answer = query_custom(
        &state,
        &CustomQueryMsg::ResolveRecord {
            name: "alice".to_string(),
        },
    );
    assert_eq!(answer, expected);

    let missing = ResolveRecordResponse { address: None };
    let expected = encode(&[Token::String(format!("{:?}", missing))]);
    let answer = query_custom(
        &state,
        &CustomQueryMsg::ResolveRecord {
            name: "ghost".to_string(),
        },
    );
    assert_eq!(answer, expected);
}

#[test]
fn i_query_rejects_malformed_packet_with_fixed_message() {
    let state = free_setup();
    match query(&state, &QueryMsg::IQuery { packet: vec![7] }) {
        Err(ContractError::Std { msg }) => assert_eq!(msg, "abi_decode_error"),
        r => panic!("Unexpected result: {:?}", r.is_ok()),
    }
}

#[test]
fn registry_dump_is_in_ascending_key_order() {
    let mut state = free_setup();
    execute_register(&mut state, &info("k3"), "charlie".to_string()).unwrap();
    execute_register(&mut state, &info("k1"), "alice".to_string()).unwrap();
    execute_register(&mut state, &info("k2"), "bob".to_string()).unwrap();
    let ls = load_states(&state);
    assert_eq!(
        ls.name_resolver,
        vec![
            ("alice".to_string(), "k1".to_string()),
            ("bob".to_string(), "k2".to_string()),
            ("charlie".to_string(), "k3".to_string()),
        ]
    );
}

#[test]
fn load_states_reports_defaults_and_contents() {
    let mut state = free_setup();
    let ls = load_states(&state);
    assert_eq!(ls.request, b"empty");
    assert_eq!(ls.result, b"empty");
    assert_eq!(ls.nonce, 1000000000000000000);
    assert!(ls.pending.is_empty());
    assert!(ls.name_resolver.is_empty());

    execute_register(&mut state, &info("alice_key"), "alice".to_string()).unwrap();
    let ls = load_states(&state);
    assert_eq!(
        ls.name_resolver,
        vec![("alice".to_string(), "alice_key".to_string())]
    );
    assert_eq!(ls.request, b"empty");
    assert_ne!(ls.result, b"empty");
}
