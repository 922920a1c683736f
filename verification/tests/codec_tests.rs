use crosschain_nameservice::helper::{
    abi_decode_to_binary, abi_encode_string, get_request_metadata, get_request_packet,
};
use router_wasm_bindings::ethabi::ethereum_types::U256;
use router_wasm_bindings::ethabi::{decode, encode, ParamType, Token};

#[test]
fn request_packet_is_byte_exact_tuple_encoding() {
    // handler "H" with payload [0x01, 0x02]: two head words, then the
    // string and the bytes, each a length word plus one padded word.
    let packet = get_request_packet(&"H".to_string(), &vec![0x01, 0x02]);

    let mut expected = vec![0u8; 31];
    expected.push(0x40); // offset of the string
    expected.extend(vec![0u8; 31]);
    expected.push(0x80); // offset of the bytes: two head words, then the two words of the string
    expected.extend(vec![0u8; 31]);
    expected.push(0x01); // string length
    expected.push(b'H');
    expected.extend(vec![0u8; 31]); // string padding
    expected.extend(vec![0u8; 31]);
    expected.push(0x02); // bytes length
    expected.push(0x01);
    expected.push(0x02);
    expected.extend(vec![0u8; 30]); // bytes padding
    assert_eq!(packet.len(), 192);
    assert_eq!(packet, expected);

    // the bytes component decodes back out of its tail position
    let bytes_offset = packet[63] as usize;
    let len = packet[bytes_offset + 31] as usize;
    assert_eq!(&packet[bytes_offset + 32..bytes_offset + 32 + len], &[0x01, 0x02]);
}

#[test]
fn request_packet_matches_foreign_abi_encoder() {
    let packet = get_request_packet(&"handler.addr".to_string(), &vec![9, 8, 7, 6]);
    let reference = encode(&[
        Token::String("handler.addr".to_string()),
        Token::Bytes(vec![9, 8, 7, 6]),
    ]);
    assert_eq!(packet, reference);

    let tokens = decode(&[ParamType::String, ParamType::Bytes], &packet).unwrap();
    assert_eq!(tokens[0], Token::String("handler.addr".to_string()));
    assert_eq!(tokens[1], Token::Bytes(vec![9, 8, 7, 6]));
}

#[test]
fn decode_inverts_foreign_abi_bytes_encoding() {
    // round-trip through the foreign encoder: their bytes tuple, our
    // decoder
    let payload: Vec<u8> = (0u8..77).collect();
    let buf = encode(&[Token::Bytes(payload.clone())]);
    let decoded = abi_decode_to_binary(&buf).unwrap();
    assert_eq!(decoded, payload);

    let empty = encode(&[Token::Bytes(vec![])]);
    assert_eq!(abi_decode_to_binary(&empty).unwrap(), Vec::<u8>::new());
}

#[test]
fn encode_string_matches_foreign_abi_encoder() {
    let text = "{\"config\": {}}".to_string();
    let ours = abi_encode_string(&text);
    let reference = encode(&[Token::String(text.clone())]);
    assert_eq!(ours, reference);
}

#[test]
fn encoded_string_round_trips_as_bytes() {
    // the acknowledge path reads the inner payload back with the
    // single-bytes decoder; the string layout is the same shape
    let text = "hello over there".to_string();
    let enc = abi_encode_string(&text);
    let dec = abi_decode_to_binary(&enc).unwrap();
    assert_eq!(dec, text.as_bytes());
}

#[test]
fn decode_rejects_malformed_buffers() {
    // too short for a head word
    assert!(abi_decode_to_binary(&vec![0u8; 31]).is_err());
    // offset word points past the buffer
    let mut bad_offset = vec![0u8; 31];
    bad_offset.push(0x80);
    bad_offset.extend(vec![0u8; 32]);
    assert!(abi_decode_to_binary(&bad_offset).is_err());
    // length word asks for more payload than the buffer holds
    let mut truncated = vec![0u8; 31];
    truncated.push(0x20);
    truncated.extend(vec![0u8; 31]);
    truncated.push(0x40);
    truncated.extend(vec![0u8; 16]);
    assert!(abi_decode_to_binary(&truncated).is_err());
    // a huge offset that does not fit a machine word
    let mut huge = vec![0xffu8; 32];
    huge.extend(vec![0u8; 32]);
    assert!(abi_decode_to_binary(&huge).is_err());
}

#[test]
fn packed_metadata_matches_u256_truncation_reference() {
    // the big-endian word of each field, keeping only its low-order bytes
    fn take_last(n: U256, bits: usize) -> Vec<u8> {
        let mut buf = [0u8; 32];
        n.to_big_endian(&mut buf);
        buf[32 - bits / 8..].to_vec()
    }

    let gas_limit: u64 = 21_000;
    let gas_price: u64 = 30;
    let ack_gas_limit: u64 = 100_000;
    let ack_gas_price: u64 = 7;
    let relayer_fees: u128 = 0x1_0000_0000_0000_0001;
    let ack_type: u8 = 7;

    let mut expected = take_last(U256::from(gas_limit), 64);
    expected.extend(take_last(U256::from(gas_price), 64));
    expected.extend(take_last(U256::from(ack_gas_limit), 64));
    expected.extend(take_last(U256::from(ack_gas_price), 64));
    expected.extend(take_last(U256::from(relayer_fees), 128));
    expected.extend(take_last(U256::from(ack_type), 8));
    expected.push(1);
    expected.extend(b"asm_addr");

    let metadata = get_request_metadata(
        gas_limit,
        gas_price,
        ack_gas_limit,
        ack_gas_price,
        relayer_fees,
        ack_type,
        true,
        "asm_addr".to_string(),
    );
    assert_eq!(metadata, expected);
}

#[test]
fn decode_error_is_the_fixed_message() {
    match abi_decode_to_binary(&vec![]) {
        Err(crosschain_nameservice::ContractError::Std { msg }) => {
            assert_eq!(msg, "error: abi_decode_to_binary");
        }
        r => panic!("Unexpected result: {:?}", r),
    }
}
