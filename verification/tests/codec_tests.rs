use web3_rpc::codec::{decode_response, encode_request, json_string_content};
use web3_rpc::error::Web3Error;

#[test]
fn encode_block_number_request() {
    let out = encode_request(1, b"eth_blockNumber", b"[]").unwrap();
    assert_eq!(
        out,
        b"{\"id\":1,\"jsonrpc\":\"2.0\",\"method\":\"eth_blockNumber\",\"params\":[]}".to_vec()
    );
}

#[test]
fn encode_large_id_and_params() {
    let out = encode_request(18446744073709551615, b"eth_call", b"[{\"to\":\"0x00\"},\"latest\"]")
        .unwrap();
    assert_eq!(
        out,
        b"{\"id\":18446744073709551615,\"jsonrpc\":\"2.0\",\"method\":\"eth_call\",\"params\":[{\"to\":\"0x00\"},\"latest\"]}"
            .to_vec()
    );
}

#[test]
fn encode_escapes_method_name() {
    let out = encode_request(7, b"odd\"name\\with\ncontrols", b"null").unwrap();
    assert_eq!(
        out,
        b"{\"id\":7,\"jsonrpc\":\"2.0\",\"method\":\"odd\\\"name\\\\with\\u000acontrols\",\"params\":null}"
            .to_vec()
    );
}

#[test]
fn encode_rejects_bad_params() {
    let r = encode_request(1, b"eth_blockNumber", b"not json at all");
    assert!(matches!(r, Err(Web3Error::EncodeError(_))));
    let r = encode_request(1, b"eth_blockNumber", b"[1,2");
    assert!(matches!(r, Err(Web3Error::EncodeError(_))));
    let r = encode_request(1, b"eth_blockNumber", b"[] []");
    assert!(matches!(r, Err(Web3Error::EncodeError(_))));
}

#[test]
fn round_trip_block_number() {
    let payload = encode_request(1, b"eth_blockNumber", b"[]").unwrap();
    assert_eq!(
        payload,
        b"{\"id\":1,\"jsonrpc\":\"2.0\",\"method\":\"eth_blockNumber\",\"params\":[]}".to_vec()
    );
    let raw = decode_response(b"{\"id\":1,\"result\":\"0x10\"}").unwrap();
    assert_eq!(raw, b"\"0x10\"".to_vec());
    let value = json_string_content(&raw).unwrap();
    assert_eq!(value, b"0x10".to_vec());
}

#[test]
fn decode_structured_result() {
    let raw = decode_response(b"{ \"id\" : 3 , \"result\" : [1, {\"a\": true}] }").unwrap();
    assert_eq!(raw, b"[1, {\"a\": true}]".to_vec());
}

#[test]
fn decode_protocol_error() {
    let r = decode_response(
        b"{\"id\":1,\"error\":{\"code\":-32601,\"message\":\"Method not found\",\"data\":null}}",
    );
    match r {
        Err(Web3Error::JsonRpcError { code, message, data }) => {
            assert_eq!(code, -32601);
            assert_eq!(message, b"Method not found".to_vec());
            assert_eq!(data, b"null".to_vec());
        },
        _ => panic!("expected a JSON-RPC protocol error"),
    }
}

#[test]
fn decode_protocol_error_without_data() {
    let r = decode_response(b"{\"id\":1,\"error\":{\"code\":-32000,\"message\":\"boom\"}}");
    match r {
        Err(Web3Error::JsonRpcError { code, message, data }) => {
            assert_eq!(code, -32000);
            assert_eq!(message, b"boom".to_vec());
            assert_eq!(data, b"null".to_vec());
        },
        _ => panic!("expected a JSON-RPC protocol error"),
    }
}

#[test]
fn decode_error_wins_over_result() {
    let r = decode_response(
        b"{\"id\":1,\"result\":true,\"error\":{\"code\":1,\"message\":\"m\"}}",
    );
    assert!(matches!(r, Err(Web3Error::JsonRpcError { code: 1, .. })));
}

#[test]
fn decode_unescapes_message() {
    let r = decode_response(
        b"{\"id\":1,\"error\":{\"code\":5,\"message\":\"line\\none \\u0041 \\\"q\\\"\"}}",
    );
    match r {
        Err(Web3Error::JsonRpcError { message, .. }) => {
            assert_eq!(message, b"line\none A \"q\"".to_vec());
        },
        _ => panic!("expected a JSON-RPC protocol error"),
    }
}

#[test]
fn malformed_json_is_decode_error() {
    let r = decode_response(b"not json at all");
    assert!(matches!(r, Err(Web3Error::DecodeError(_))));
}

#[test]
fn decode_rejects_envelopes_without_payload() {
    assert!(matches!(
        decode_response(b"{\"id\":1}"),
        Err(Web3Error::DecodeError(_))
    ));
    assert!(matches!(decode_response(b"{}"), Err(Web3Error::DecodeError(_))));
    assert!(matches!(decode_response(b"[]"), Err(Web3Error::DecodeError(_))));
    assert!(matches!(decode_response(b""), Err(Web3Error::DecodeError(_))));
}

#[test]
fn decode_rejects_trailing_garbage() {
    let r = decode_response(b"{\"id\":1,\"result\":null} extra");
    assert!(matches!(r, Err(Web3Error::DecodeError(_))));
}

#[test]
fn decode_rejects_bad_error_object() {
    let r = decode_response(b"{\"id\":1,\"error\":{\"message\":\"no code\"}}");
    assert!(matches!(r, Err(Web3Error::DecodeError(_))));
    let r = decode_response(b"{\"id\":1,\"error\":{\"code\":\"NaN\",\"message\":\"m\"}}");
    assert!(matches!(r, Err(Web3Error::DecodeError(_))));
    let r = decode_response(b"{\"id\":1,\"error\":\"oops\"}");
    assert!(matches!(r, Err(Web3Error::DecodeError(_))));
}

#[test]
fn decode_ignores_response_id_shape() {
    let raw = decode_response(b"{\"id\":null,\"jsonrpc\":\"2.0\",\"result\":42}").unwrap();
    assert_eq!(raw, b"42".to_vec());
}

#[test]
fn json_string_content_handles_escapes() {
    assert_eq!(
        json_string_content(b"\"a\\u00e9b\"").unwrap(),
        "a\u{e9}b".as_bytes().to_vec()
    );
    assert_eq!(json_string_content(b" \"x\" ").unwrap(), b"x".to_vec());
    assert!(json_string_content(b"42").is_none());
}
