use serde_json_helper::decode;
use serde_json_helper::decode_array;
use serde_json_helper::decode_base64;
use serde_json_helper::decode_hex;
use serde_json_helper::encode;
use serde_json_helper::encode_array;
use serde_json_helper::encode_base64;
use serde_json_helper::encode_hex;
use serde_json_helper::ArrayElem;
use serde_json_helper::Config;
use serde_json_helper::DecodeError;
use serde_json_helper::Encoded;

fn str_repr(s: &str) -> Encoded {
    Encoded::Str(String::from(s))
}

fn int_repr(values: &[i128]) -> Encoded {
    Encoded::Arr(values.iter().map(|v| ArrayElem::Int(*v)).collect())
}

#[test]
fn hex_with_prefix_scenario() {
    let config = Config::default().set_bytes_hex().enable_hex_prefix();
    assert_eq!(encode(&vec![1, 2, 3], &config), str_repr("0x010203"));
    assert_eq!(decode(&str_repr("0x010203"), &config), Ok(vec![1, 2, 3]));
    assert_eq!(decode(&str_repr("010203"), &config), Ok(vec![1, 2, 3]));
}

#[test]
fn hex_without_prefix() {
    let config = Config::default().set_bytes_hex();
    assert_eq!(encode(&vec![0xab, 0xcd], &config), str_repr("abcd"));
    assert_eq!(decode(&str_repr("abcd"), &config), Ok(vec![0xab, 0xcd]));
    assert_eq!(decode(&str_repr("0xabcd"), &config), Ok(vec![0xab, 0xcd]));
}

#[test]
fn hex_input_is_case_insensitive() {
    assert_eq!(decode_hex("0XAB"), Ok(vec![0xab]));
    assert_eq!(decode_hex("aBcD"), Ok(vec![0xab, 0xcd]));
}

#[test]
fn hex_odd_length_fails() {
    assert_eq!(decode_hex("0x0"), Err(DecodeError::OddLength));
    assert_eq!(decode_hex("1"), Err(DecodeError::OddLength));
}

#[test]
fn hex_invalid_digit_fails() {
    assert_eq!(decode_hex("0xZZ"), Err(DecodeError::InvalidHexDigit));
    assert_eq!(decode_hex("0g"), Err(DecodeError::InvalidHexDigit));
}

#[test]
fn non_ascii_input_is_rejected() {
    assert_eq!(decode_hex("0xæø"), Err(DecodeError::InvalidHexDigit));
    assert_eq!(decode_base64("æøåæ"), Err(DecodeError::InvalidBase64));
}

#[test]
fn array_extreme_values_are_out_of_range() {
    assert_eq!(decode_array(&vec![ArrayElem::Int(i128::MAX)]), Err(DecodeError::ValueOutOfRange));
    assert_eq!(decode_array(&vec![ArrayElem::Int(i128::MIN)]), Err(DecodeError::ValueOutOfRange));
}

#[test]
fn hex_empty_inputs() {
    let plain = Config::default().set_bytes_hex();
    let prefixed = Config::default().set_bytes_hex().enable_hex_prefix();
    assert_eq!(encode(&vec![], &plain), str_repr(""));
    assert_eq!(encode(&vec![], &prefixed), str_repr("0x"));
    assert_eq!(decode(&str_repr(""), &plain), Ok(vec![]));
    assert_eq!(decode(&str_repr("0x"), &plain), Ok(vec![]));
}

#[test]
fn base64_scenario() {
    let config = Config::default().set_bytes_base64();
    assert_eq!(encode(&vec![255, 254, 253], &config), str_repr("//79"));
    assert_eq!(decode(&str_repr("//79"), &config), Ok(vec![255, 254, 253]));
}

#[test]
fn base64_padding_shapes() {
    assert_eq!(encode_base64(&vec![1]), "AQ==");
    assert_eq!(encode_base64(&vec![1, 2]), "AQI=");
    assert_eq!(encode_base64(&vec![1, 2, 3]), "AQID");
    assert_eq!(encode_base64(&vec![]), "");
    assert_eq!(decode_base64("AQ=="), Ok(vec![1]));
    assert_eq!(decode_base64("AQI="), Ok(vec![1, 2]));
    assert_eq!(decode_base64("AQID"), Ok(vec![1, 2, 3]));
    assert_eq!(decode_base64(""), Ok(vec![]));
}

#[test]
fn base64_malformed_inputs_fail() {
    assert_eq!(decode_base64("A"), Err(DecodeError::InvalidBase64));
    assert_eq!(decode_base64("AQIDA"), Err(DecodeError::InvalidBase64));
    assert_eq!(decode_base64("A==="), Err(DecodeError::InvalidBase64));
    assert_eq!(decode_base64("AB=A"), Err(DecodeError::InvalidBase64));
    assert_eq!(decode_base64("===="), Err(DecodeError::InvalidBase64));
    assert_eq!(decode_base64("AQ!D"), Err(DecodeError::InvalidBase64));
}

#[test]
fn array_scenario() {
    let config = Config::default();
    assert_eq!(encode(&vec![10, 20], &config), int_repr(&[10, 20]));
    assert_eq!(decode(&int_repr(&[10, 20]), &config), Ok(vec![10, 20]));
}

#[test]
fn array_element_errors() {
    // 256 lies outside a byte's range; 1.5 would arrive as a non-integer.
    assert_eq!(decode_array(&vec![ArrayElem::Int(256)]), Err(DecodeError::ValueOutOfRange));
    assert_eq!(decode_array(&vec![ArrayElem::Int(-1)]), Err(DecodeError::ValueOutOfRange));
    assert_eq!(decode_array(&vec![ArrayElem::NonInt]), Err(DecodeError::NotAnInteger));
    // The first offending element decides.
    assert_eq!(
        decode_array(&vec![ArrayElem::Int(0), ArrayElem::NonInt, ArrayElem::Int(256)]),
        Err(DecodeError::NotAnInteger)
    );
    assert_eq!(
        decode_array(&vec![ArrayElem::Int(256), ArrayElem::NonInt]),
        Err(DecodeError::ValueOutOfRange)
    );
}

#[test]
fn array_empty_round_trip() {
    let config = Config::default();
    assert_eq!(encode(&vec![], &config), int_repr(&[]));
    assert_eq!(decode(&int_repr(&[]), &config), Ok(vec![]));
}

#[test]
fn wrong_shape_is_rejected() {
    let array_config = Config::default();
    let hex_config = Config::default().set_bytes_hex();
    let base64_config = Config::default().set_bytes_base64();
    assert_eq!(decode(&str_repr("0102"), &array_config), Err(DecodeError::WrongShape));
    assert_eq!(decode(&int_repr(&[1, 2]), &hex_config), Err(DecodeError::WrongShape));
    assert_eq!(decode(&int_repr(&[1, 2]), &base64_config), Err(DecodeError::WrongShape));
}

#[test]
fn round_trip_under_every_configuration() {
    let buffers: Vec<Vec<u8>> = vec![
        vec![],
        vec![0],
        vec![0, 255],
        vec![1, 2, 3],
        vec![13, 10, 0, 127, 128, 255, 64],
    ];
    let configs = vec![
        Config::default(),
        Config::default().set_bytes_hex(),
        Config::default().set_bytes_hex().enable_hex_prefix(),
        Config::default().set_bytes_base64(),
        Config::default().set_bytes_base64().enable_hex_prefix(),
    ];
    for b in &buffers {
        for c in &configs {
            assert_eq!(decode(&encode(b, c), c), Ok(b.clone()));
        }
    }
}

#[test]
fn encode_hex_is_lowercase_and_prefix_driven() {
    assert_eq!(encode_hex(&vec![0xde, 0xad], false), "dead");
    assert_eq!(encode_hex(&vec![0xde, 0xad], true), "0xdead");
}

#[test]
fn encode_array_emits_the_bytes_unchanged() {
    let r = encode_array(&vec![0, 128, 255]);
    assert_eq!(r, vec![ArrayElem::Int(0), ArrayElem::Int(128), ArrayElem::Int(255)]);
}

#[test]
fn base64_accepts_every_alphabet_range() {
    // 'A'..'Z', 'a'..'z', '0'..'9', '+', '/' all appear across these.
    assert_eq!(decode_base64("AZaz09+/"), decode_base64("AZaz09+/"));
    assert!(decode_base64("AZaz09+/").is_ok());
    let bytes = decode_base64("+/+/").unwrap();
    assert_eq!(encode_base64(&bytes), "+/+/");
}
