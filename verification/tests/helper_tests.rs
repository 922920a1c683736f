use crosschain_nameservice::error::ContractError;
use crosschain_nameservice::helper::{
    abi_decode_to_binary, abi_encode_string, assert_sent_sufficient_coin, encode_packed,
    get_request_metadata, invalid_char, validate_name, SolidityDataType, TakeLastXBytes,
};
use crosschain_nameservice::state::Coin;

fn coin(amount: u128, denom: &str) -> Coin {
    Coin {
        denom: denom.to_string(),
        amount,
    }
}

fn coins(amount: u128, denom: &str) -> Vec<Coin> {
    vec![coin(amount, denom)]
}

#[test]
fn assert_sent_sufficient_coin_works() {
    match assert_sent_sufficient_coin(&vec![], Some(coin(0, "token"))) {
        Ok(()) => {}
        Err(e) => panic!("Unexpected error: {:?}", e),
    };

    match assert_sent_sufficient_coin(&vec![], Some(coin(5, "token"))) {
        Ok(()) => panic!("Should have raised insufficient funds error"),
        Err(ContractError::InsufficientFundsSend {}) => {}
        Err(e) => panic!("Unexpected error: {:?}", e),
    };

    match assert_sent_sufficient_coin(&coins(10, "smokin"), Some(coin(5, "token"))) {
        Ok(()) => panic!("Should have raised insufficient funds error"),
        Err(ContractError::InsufficientFundsSend {}) => {}
        Err(e) => panic!("Unexpected error: {:?}", e),
    };

    match assert_sent_sufficient_coin(&coins(10, "token"), Some(coin(5, "token"))) {
        Ok(()) => {}
        Err(e) => panic!("Unexpected error: {:?}", e),
    };

    let sent_coins = vec![coin(2, "smokin"), coin(5, "token"), coin(1, "earth")];
    match assert_sent_sufficient_coin(&sent_coins, Some(coin(5, "token"))) {
        Ok(()) => {}
        Err(e) => panic!("Unexpected error: {:?}", e),
    };
}

#[test]
fn encode_string1() {
    let stri = "{\"resolve_record\": {\"name\": \"test5\"}}".to_string();
    let enc = abi_encode_string(&stri);
    println!("enc: {:?}", enc);
}

#[test]
fn decode_to_binary() {
    let bin = cosmwasm_std::Binary::from_base64("AAAAAAAAAAAAAAAAAAAAAAAAAAAAAAAAAAAAAAAAACAAAAAAAAAAAAAAAAAAAAAAAAAAAAAAAAAAAAAAAAAAJXsicmVzb2x2ZV9yZWNvcmQiOiB7Im5hbWUiOiAidGVzdDUifX0AAAAAAAAAAAAAAAAAAAAAAAAAAAAAAAAAAAA=").unwrap();
    let dec = abi_decode_to_binary(&bin.as_slice().to_vec()).unwrap();
    println!("{:?}", dec);
}

#[test]
fn get_metadata() {
    let metadata = get_request_metadata(0, 0, 0, 0, 0, 3, false, "".to_string());
    println!("{:?}", metadata);
}

#[test]
fn get_metadata_exact_bytes() {
    // Four 8-byte gas fields, a 16-byte fee, the ack type, the flag, and
    // no address text: 50 bytes in a fixed order.
    let metadata = get_request_metadata(0, 0, 0, 0, 0, 3, false, "".to_string());
    let mut expected = vec![0u8; 48];
    expected.push(3);
    expected.push(0);
    assert_eq!(metadata, expected);
}

#[test]
fn metadata_is_deterministic_and_length_counts_fields() {
    let a = get_request_metadata(21_000, 30, 100_000, 7, 5_000_000, 1, true, "asm1".to_string());
    let b = get_request_metadata(21_000, 30, 100_000, 7, 5_000_000, 1, true, "asm1".to_string());
    assert_eq!(a, b);
    assert_eq!(a.len(), 50 + "asm1".len());
    // the flag byte and the address text sit at the fixed tail offsets
    assert_eq!(a[48], 1);
    assert_eq!(&a[50..], b"asm1");
}

#[test]
fn packed_truncation_drops_high_bits() {
    // 65 bits of significance truncated to a declared width of 64 bits:
    // the overflow bit is silently dropped, leaving only the low word.
    let value: u128 = 0x1_0000_0000_0000_0001;
    let items = vec![SolidityDataType::NumberWithShift(value, TakeLastXBytes(64))];
    let (bytes, hexed) = encode_packed(&items);
    assert_eq!(bytes, vec![0, 0, 0, 0, 0, 0, 0, 1]);
    assert_eq!(hexed, "0000000000000001");
}

#[test]
fn packed_bool_string_and_full_number() {
    let items = vec![
        SolidityDataType::Bool(true),
        SolidityDataType::String("ab".to_string()),
        SolidityDataType::Number(0x0102),
    ];
    let (bytes, hexed) = encode_packed(&items);
    let mut expected = vec![1u8, b'a', b'b'];
    expected.extend(vec![0u8; 30]);
    expected.push(1);
    expected.push(2);
    assert_eq!(bytes, expected);
    assert_eq!(hexed, hex::encode(&expected));
}

#[test]
fn validate_name_accepts_and_rejects() {
    assert!(validate_name("my-name_0").is_ok());
    assert!(validate_name("abc").is_ok());

    match validate_name("ab") {
        Err(ContractError::NameTooShort { length, min_length }) => {
            assert_eq!(length, 2);
            assert_eq!(min_length, 3);
        }
        r => panic!("Unexpected result: {:?}", r),
    }

    let long = "a".repeat(65);
    match validate_name(&long) {
        Err(ContractError::NameTooLong { length, max_length }) => {
            assert_eq!(length, 65);
            assert_eq!(max_length, 64);
        }
        r => panic!("Unexpected result: {:?}", r),
    }

    match validate_name("ab#d") {
        Err(ContractError::InvalidCharacter { c }) => assert_eq!(c, '#'),
        r => panic!("Unexpected result: {:?}", r),
    }

    match validate_name("aBcd") {
        Err(ContractError::InvalidCharacter { c }) => assert_eq!(c, 'B'),
        r => panic!("Unexpected result: {:?}", r),
    }
}

#[test]
fn validate_name_counts_bytes_not_characters() {
    // two characters but four UTF-8 bytes: long enough, so the first
    // invalid character is reported, not a too-short length
    match validate_name("\u{e9}\u{e9}") {
        Err(ContractError::InvalidCharacter { c }) => assert_eq!(c, '\u{e9}'),
        r => panic!("Unexpected result: {:?}", r),
    }

    // 33 two-byte characters: 66 bytes, over the 64-byte cap
    let wide = "\u{e9}".repeat(33);
    assert_eq!(wide.len(), 66);
    match validate_name(&wide) {
        Err(ContractError::NameTooLong { length, max_length }) => {
            assert_eq!((length, max_length), (66, 64));
        }
        r => panic!("Unexpected result: {:?}", r),
    }
}

#[test]
fn packed_zero_width_contributes_nothing() {
    let items = vec![
        SolidityDataType::NumberWithShift(0xdead, TakeLastXBytes(0)),
        SolidityDataType::Bool(true),
    ];
    let (bytes, hexed) = encode_packed(&items);
    assert_eq!(bytes, vec![1u8]);
    assert_eq!(hexed, "01");
}

#[test]
fn invalid_char_matches_alphabet() {
    assert!(!invalid_char('a'));
    assert!(!invalid_char('z'));
    assert!(!invalid_char('0'));
    assert!(!invalid_char('9'));
    assert!(!invalid_char('.'));
    assert!(!invalid_char('-'));
    assert!(!invalid_char('_'));
    assert!(invalid_char('A'));
    assert!(invalid_char(' '));
    assert!(invalid_char('é'));
}
