//! Packed and tuple encoding of the wire values, name validation, and the
//! funds check.
use vstd::prelude::*;
use vstd::string::StrSliceExecFns;
use vstd::utf8::encode_utf8;

use crate::abi::{
    abi_decode_single, abi_single_dynamic, abi_two_dynamic, be_bytes, decode_single_dynamic,
    encode_single_dynamic, encode_two_dynamic, lemma_be_bytes_len, push_be_u128,
    push_bytes,
};
use crate::error::ContractError;
use crate::state::Coin;

verus! {

pub const MIN_NAME_LENGTH: u64 = 3;

pub const MAX_NAME_LENGTH: u64 = 64;

/// A truncation width in bits for the packed encoding.
pub struct TakeLastXBytes(pub usize);

/// A 20-byte account identifier of the foreign environment.
pub struct Address(pub [u8; 20]);

/// One value the packed encoding accepts. Numbers are held in 128 bits,
/// which covers every field this protocol packs; `Number` still encodes
/// over the full 32-byte width of the foreign word size.
pub enum SolidityDataType {
    String(String),
    Address(Address),
    Bytes(Vec<u8>),
    Bool(bool),
    Number(u128),
    NumberWithShift(u128, TakeLastXBytes),
}

/// A truncation width must name whole bytes within the 32-byte word; a
/// wider request would ask for bytes the value representation lacks.
/// Width zero is allowed and contributes nothing.
pub open spec fn valid_data_type(t: SolidityDataType) -> bool {
    match t {
        SolidityDataType::NumberWithShift(n, w) => w.0 % 8 == 0 && w.0 <= 256,
        _ => true,
    }
}

/// The packed bytes of one value: raw big-endian representation, no
/// padding, no headers. A truncated number keeps only its low-order
/// `w/8` bytes.
pub open spec fn pack_spec(t: SolidityDataType) -> Seq<u8> {
    match t {
        SolidityDataType::String(s) => encode_utf8(s@),
        SolidityDataType::Address(a) => a.0@,
        SolidityDataType::Bytes(b) => b@,
        SolidityDataType::Bool(b) => seq![if b { 1u8 } else { 0u8 }],
        SolidityDataType::Number(n) => be_bytes(n as nat, 32),
        SolidityDataType::NumberWithShift(n, w) => be_bytes(n as nat, (w.0 / 8) as nat),
    }
}

/// The packed bytes of a whole item list, in order.
pub open spec fn packed_spec(items: Seq<SolidityDataType>) -> Seq<u8>
    decreases items.len(),
{
    if items.len() == 0 {
        Seq::empty()
    } else {
        packed_spec(items.drop_last()) + pack_spec(items.last())
    }
}

/// Pack a single `SolidityDataType` into bytes.
fn pack(data_type: &SolidityDataType) -> (r: Vec<u8>)
    requires
        valid_data_type(*data_type),
    ensures
        r@ == pack_spec(*data_type),
{
    let mut res: Vec<u8> = Vec::new();
    match data_type {
        SolidityDataType::String(s) => {
            res = s.as_str().as_bytes_vec();
        },
        SolidityDataType::Address(a) => {
            let mut i: usize = 0;
            while i < 20
                invariant
                    i <= 20,
                    res@ == a.0@.take(i as int),
                decreases 20 - i,
            {
                res.push(a.0[i]);
                assert(a.0@.take(i as int).push(a.0@[i as int]) =~= a.0@.take(i + 1));
                i = i + 1;
            }
            assert(a.0@.take(20) =~= a.0@);
        },
        SolidityDataType::Number(n) => {
            push_be_u128(&mut res, *n, 32);
            assert(res@ =~= be_bytes(*n as nat, 32));
        },
        SolidityDataType::Bytes(b) => {
            push_bytes(&mut res, b);
            assert(res@ =~= b@);
        },
        SolidityDataType::Bool(b) => {
            if *b {
                res.push(1);
            } else {
                res.push(0);
            }
            assert(res@ =~= pack_spec(*data_type));
        },
        SolidityDataType::NumberWithShift(n, to_take) => {
            push_be_u128(&mut res, *n, to_take.0 / 8);
            assert(res@ =~= be_bytes(*n as nat, (to_take.0 / 8) as nat));
        },
    }
    res
}

/// The character of a hexadecimal digit, lower case.
pub open spec fn hex_digit_char(n: u8) -> char
    recommends
        n < 16,
{
    if n < 10 {
        ((48 + n) as u8) as char
    } else {
        ((87 + n) as u8) as char
    }
}

/// The lower-case hexadecimal text of a byte string, two digits a byte.
pub open spec fn hex_chars(s: Seq<u8>) -> Seq<char> {
    Seq::new(
        2 * s.len(),
        |i: int|
            if i % 2 == 0 {
                hex_digit_char(s[i / 2] / 16)
            } else {
                hex_digit_char(s[i / 2] % 16)
            },
    )
}

/// Relies on `hex::encode`: lower-case hexadecimal, two digits for each
/// input byte, in input order.
#[verifier::external_body]
fn hex_encode(bytes: &Vec<u8>) -> (r: String)
    ensures
        r@ == hex_chars(bytes@),
{
    hex::encode(bytes.as_slice())
}

/// Packs every item and appends the results in order; the second
/// component is the hexadecimal rendering of the first.
pub fn encode_packed(items: &Vec<SolidityDataType>) -> (r: (Vec<u8>, String))
    requires
        forall|i: int| 0 <= i < items@.len() ==> valid_data_type(#[trigger] items@[i]),
    ensures
        r.0@ == packed_spec(items@),
        r.1@ == hex_chars(packed_spec(items@)),
{
    let mut res: Vec<u8> = Vec::new();
    let mut i: usize = 0;
    while i < items.len()
        invariant
            i <= items@.len(),
            forall|k: int| 0 <= k < items@.len() ==> valid_data_type(#[trigger] items@[k]),
            res@ == packed_spec(items@.take(i as int)),
        decreases items@.len() - i,
    {
        let packed = pack(&items[i]);
        push_bytes(&mut res, &packed);
        assert(items@.take(i + 1).drop_last() =~= items@.take(i as int));
        assert(items@.take(i + 1).last() == items@[i as int]);
        i = i + 1;
    }
    assert(items@.take(items@.len() as int) =~= items@);
    let hexed = hex_encode(&res);
    (res, hexed)
}

/// The request packet: the foreign tuple encoding of the handler
/// identifier and the opaque payload.
pub open spec fn request_packet_spec(handler: Seq<char>, payload: Seq<u8>) -> Seq<u8> {
    abi_two_dynamic(encode_utf8(handler), payload)
}

/// Builds the request packet for one outbound send.
pub fn get_request_packet(handler_address: &String, payload: &Vec<u8>) -> (r: Vec<u8>)
    requires
        encode_utf8(handler_address@).len() + payload@.len() + 200 <= usize::MAX,
    ensures
        r@ == request_packet_spec(handler_address@, payload@),
{
    let handler_bytes = handler_address.as_str().as_bytes_vec();
    encode_two_dynamic(&handler_bytes, payload)
}

/// The request metadata: every numeric field truncated to its width and
/// laid end to end, then the flag byte, then the address text verbatim.
pub open spec fn request_metadata_spec(
    gas_limit: u64,
    gas_price: u64,
    ack_gas_limit: u64,
    ack_gas_price: u64,
    relayer_fees: u128,
    ack_type: u8,
    is_read_call: bool,
    asm_address: Seq<char>,
) -> Seq<u8> {
    be_bytes(gas_limit as nat, 8) + be_bytes(gas_price as nat, 8) + be_bytes(
        ack_gas_limit as nat,
        8,
    ) + be_bytes(ack_gas_price as nat, 8) + be_bytes(relayer_fees as nat, 16) + be_bytes(
        ack_type as nat,
        1,
    ) + seq![if is_read_call { 1u8 } else { 0u8 }] + encode_utf8(asm_address)
}

/// Packed-encodes the metadata fields in their fixed order. The relayer
/// fee keeps 128 bits; the four gas fields keep 64 bits each.
pub fn get_request_metadata(
    gas_limit: u64,
    gas_price: u64,
    ack_gas_limit: u64,
    ack_gas_price: u64,
    relayer_fees: u128,
    ack_type: u8,
    is_read_call: bool,
    asm_address: String,
) -> (r: Vec<u8>)
    ensures
        r@ == request_metadata_spec(
            gas_limit,
            gas_price,
            ack_gas_limit,
            ack_gas_price,
            relayer_fees,
            ack_type,
            is_read_call,
            asm_address@,
        ),
{
    let ghost addr_chars: Seq<char> = asm_address@;
    let mut input: Vec<SolidityDataType> = Vec::new();
    input.push(SolidityDataType::NumberWithShift(gas_limit as u128, TakeLastXBytes(64)));
    input.push(SolidityDataType::NumberWithShift(gas_price as u128, TakeLastXBytes(64)));
    input.push(SolidityDataType::NumberWithShift(ack_gas_limit as u128, TakeLastXBytes(64)));
    input.push(SolidityDataType::NumberWithShift(ack_gas_price as u128, TakeLastXBytes(64)));
    input.push(SolidityDataType::NumberWithShift(relayer_fees, TakeLastXBytes(128)));
    input.push(SolidityDataType::NumberWithShift(ack_type as u128, TakeLastXBytes(8)));
    input.push(SolidityDataType::Bool(is_read_call));
    input.push(SolidityDataType::String(asm_address));
    let (enc, _) = encode_packed(&input);
    proof {
        let items = input@;
        assert(items.len() == 8);
        lemma_packed_spec_unfold(items);
        assert(enc@ =~= request_metadata_spec(
            gas_limit,
            gas_price,
            ack_gas_limit,
            ack_gas_price,
            relayer_fees,
            ack_type,
            is_read_call,
            addr_chars,
        ));
    }
    enc
}

/// Spells out the packed encoding of an eight-item list.
proof fn lemma_packed_spec_unfold(items: Seq<SolidityDataType>)
    requires
        items.len() == 8,
    ensures
        packed_spec(items) == pack_spec(items[0]) + pack_spec(items[1]) + pack_spec(items[2])
            + pack_spec(items[3]) + pack_spec(items[4]) + pack_spec(items[5]) + pack_spec(
            items[6],
        ) + pack_spec(items[7]),
{
    let s7 = items.drop_last();
    let s6 = s7.drop_last();
    let s5 = s6.drop_last();
    let s4 = s5.drop_last();
    let s3 = s4.drop_last();
    let s2 = s3.drop_last();
    let s1 = s2.drop_last();
    let s0 = s1.drop_last();
    assert(s0 =~= Seq::empty());
    assert(packed_spec(s1) == packed_spec(s0) + pack_spec(items[0]));
    assert(packed_spec(s2) == packed_spec(s1) + pack_spec(items[1]));
    assert(packed_spec(s3) == packed_spec(s2) + pack_spec(items[2]));
    assert(packed_spec(s4) == packed_spec(s3) + pack_spec(items[3]));
    assert(packed_spec(s5) == packed_spec(s4) + pack_spec(items[4]));
    assert(packed_spec(s6) == packed_spec(s5) + pack_spec(items[5]));
    assert(packed_spec(s7) == packed_spec(s6) + pack_spec(items[6]));
    assert(packed_spec(items) == packed_spec(s7) + pack_spec(items[7]));
    assert(packed_spec(s0) + pack_spec(items[0]) =~= pack_spec(items[0]));
}

/// The metadata is a pure function of its inputs: any two buffers meeting
/// the contract are byte-identical.
pub proof fn lemma_metadata_deterministic(
    gas_limit: u64,
    gas_price: u64,
    ack_gas_limit: u64,
    ack_gas_price: u64,
    relayer_fees: u128,
    ack_type: u8,
    is_read_call: bool,
    asm_address: Seq<char>,
    r1: Seq<u8>,
    r2: Seq<u8>,
)
    requires
        r1 == request_metadata_spec(
            gas_limit,
            gas_price,
            ack_gas_limit,
            ack_gas_price,
            relayer_fees,
            ack_type,
            is_read_call,
            asm_address,
        ),
        r2 == request_metadata_spec(
            gas_limit,
            gas_price,
            ack_gas_limit,
            ack_gas_price,
            relayer_fees,
            ack_type,
            is_read_call,
            asm_address,
        ),
    ensures
        r1 == r2,
{
}

/// The metadata's length is the sum of the declared field widths plus the
/// length of the address text.
pub proof fn lemma_metadata_len(
    gas_limit: u64,
    gas_price: u64,
    ack_gas_limit: u64,
    ack_gas_price: u64,
    relayer_fees: u128,
    ack_type: u8,
    is_read_call: bool,
    asm_address: Seq<char>,
)
    ensures
        request_metadata_spec(
            gas_limit,
            gas_price,
            ack_gas_limit,
            ack_gas_price,
            relayer_fees,
            ack_type,
            is_read_call,
            asm_address,
        ).len() == 50 + encode_utf8(asm_address).len(),
{
    lemma_be_bytes_len(gas_limit as nat, 8);
    lemma_be_bytes_len(gas_price as nat, 8);
    lemma_be_bytes_len(ack_gas_limit as nat, 8);
    lemma_be_bytes_len(ack_gas_price as nat, 8);
    lemma_be_bytes_len(relayer_fees as nat, 16);
    lemma_be_bytes_len(ack_type as nat, 1);
}

/// Parses the single dynamic-bytes parameter out of a buffer, or reports
/// the buffer as malformed.
pub fn abi_decode_to_binary(enc: &Vec<u8>) -> (r: Result<Vec<u8>, ContractError>)
    ensures
        match r {
            Ok(v) => abi_decode_single(enc@) == Some(v@),
            Err(e) => abi_decode_single(enc@) is None && (e matches ContractError::Std { msg }
                && msg@ == "error: abi_decode_to_binary"@),
        },
{
    match decode_single_dynamic(enc) {
        Some(payload) => Ok(payload),
        None => Err(
            ContractError::Std { msg: String::from_str("error: abi_decode_to_binary") },
        ),
    }
}

/// The tuple encoding of one dynamic string, used to send diagnostic text
/// across the boundary as application data.
pub open spec fn abi_string_spec(s: Seq<char>) -> Seq<u8> {
    abi_single_dynamic(encode_utf8(s))
}

/// Encodes a string as a one-element foreign tuple.
pub fn abi_encode_string(stri: &String) -> (r: Vec<u8>)
    requires
        encode_utf8(stri@).len() + 100 <= usize::MAX,
    ensures
        r@ == abi_string_spec(stri@),
{
    let bytes = stri.as_str().as_bytes_vec();
    encode_single_dynamic(&bytes)
}

/// Whether the funds sent cover the required price: no price or a zero
/// price asks nothing, otherwise some sent coin of the required
/// denomination must reach the required amount.
pub open spec fn sufficient_funds(sent: Seq<Coin>, required: Option<Coin>) -> bool {
    match required {
        None => true,
        Some(rc) => rc.amount == 0 || exists|i: int|
            #![trigger sent[i]]
            0 <= i < sent.len() && sent[i].denom@ == rc.denom@ && sent[i].amount >= rc.amount,
    }
}

/// Accepts when the sent funds cover the required price.
pub fn assert_sent_sufficient_coin(sent: &Vec<Coin>, required: Option<Coin>) -> (r: Result<
    (),
    ContractError,
>)
    ensures
        r is Ok <==> sufficient_funds(sent@, required),
        r is Err ==> r matches Err(ContractError::InsufficientFundsSend {  }),
{
    match required {
        Some(required_coin) => {
            let required_amount = required_coin.amount;
            if required_amount > 0 {
                let mut i: usize = 0;
                while i < sent.len()
                    invariant
                        i <= sent@.len(),
                        required == Some(required_coin),
                        required_amount == required_coin.amount,
                        required_amount > 0,
                        forall|k: int|
                            0 <= k < i ==> !(#[trigger] sent@[k].denom@ == required_coin.denom@
                                && sent@[k].amount >= required_amount),
                    decreases sent@.len() - i,
                {
                    if sent[i].denom == required_coin.denom && sent[i].amount >= required_amount {
                        proof {
                            let k: int = i as int;
                            assert(0 <= k < sent@.len());
                            assert(sent@[k].denom@ == required_coin.denom@);
                            assert(sent@[k].amount >= required_amount);
                            assert(exists|j: int|
                                #![trigger sent@[j]]
                                0 <= j < sent@.len() && sent@[j].denom@ == required_coin.denom@
                                    && sent@[j].amount >= required_coin.amount);
                            assert(sufficient_funds(sent@, Some(required_coin)));
                        }
                        return Ok(());
                    }
                    i = i + 1;
                }
                Err(ContractError::InsufficientFundsSend {  })
            } else {
                Ok(())
            }
        },
        None => Ok(()),
    }
}

/// A character a name may not hold: anything but lower-case ASCII
/// letters, digits, `.`, `-` and `_`.
pub open spec fn spec_invalid_char(c: char) -> bool {
    !((c as u32 >= 48 && c as u32 <= 57) || (c as u32 >= 97 && c as u32 <= 122) || c == '.' || c
        == '-' || c == '_')
}

// let's not import a regexp library and just do these checks by hand
pub fn invalid_char(c: char) -> (r: bool)
    ensures
        r == spec_invalid_char(c),
{
    let u = c as u32;
    let is_valid = (u >= 48 && u <= 57) || (u >= 97 && u <= 122) || (c == '.' || c == '-' || c
        == '_');
    !is_valid
}

/// Every character of `s` is acceptable in a name.
pub open spec fn valid_name_chars(s: Seq<char>) -> bool {
    forall|i: int| 0 <= i < s.len() ==> !spec_invalid_char(#[trigger] s[i])
}

/// A name is acceptable when its UTF-8 form has 3 to 64 bytes, all of
/// its characters acceptable. On the accepted alphabet the byte count is
/// the character count.
pub open spec fn spec_valid_name(s: Seq<char>) -> bool {
    MIN_NAME_LENGTH <= encode_utf8(s).len() <= MAX_NAME_LENGTH && valid_name_chars(s)
}

/// validate_name returns an error if the name is invalid
/// (we require 3-64 lowercase ascii letters, numbers, or . - _).
/// Length is counted in UTF-8 bytes.
pub fn validate_name(name: &str) -> (r: Result<(), ContractError>)
    ensures
        r is Ok <==> spec_valid_name(name@),
        encode_utf8(name@).len() < MIN_NAME_LENGTH ==> (r matches Err(
            ContractError::NameTooShort { length, min_length },
        ) && length == encode_utf8(name@).len() && min_length == MIN_NAME_LENGTH),
        encode_utf8(name@).len() > MAX_NAME_LENGTH ==> (r matches Err(
            ContractError::NameTooLong { length, max_length },
        ) && length == encode_utf8(name@).len() && max_length == MAX_NAME_LENGTH),
        (MIN_NAME_LENGTH <= encode_utf8(name@).len() <= MAX_NAME_LENGTH && !valid_name_chars(
            name@,
        )) ==> (r matches Err(ContractError::InvalidCharacter { c }) && exists|i: int|
            0 <= i < name@.len() && c == name@[i] && spec_invalid_char(name@[i]) && (forall|j: int|
                0 <= j < i ==> !spec_invalid_char(#[trigger] name@[j]))),
{
    let bytes = name.as_bytes_vec();
    let length = bytes.len() as u64;
    if length < MIN_NAME_LENGTH {
        Err(ContractError::NameTooShort { length, min_length: MIN_NAME_LENGTH })
    } else if length > MAX_NAME_LENGTH {
        Err(ContractError::NameTooLong { length, max_length: MAX_NAME_LENGTH })
    } else {
        let char_count = name.unicode_len();
        let mut i: usize = 0;
        while i < char_count
            invariant
                i <= char_count,
                char_count == name@.len(),
                MIN_NAME_LENGTH <= encode_utf8(name@).len() <= MAX_NAME_LENGTH,
                forall|j: int| 0 <= j < i ==> !spec_invalid_char(#[trigger] name@[j]),
            decreases char_count - i,
        {
            let c = name.get_char(i);
            if invalid_char(c) {
                proof {
                    assert(name@[i as int] == c && spec_invalid_char(c));
                }
                return Err(ContractError::InvalidCharacter { c });
            }
            i = i + 1;
        }
        Ok(())
    }
}

} // verus!
