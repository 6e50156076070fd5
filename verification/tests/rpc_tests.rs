use skein_rpc::json::Json;
use skein_rpc::rpc::{ErrorResponse, Request, Response, RpcError};

fn s(x: &str) -> String {
    x.to_string()
}

#[test]
fn test_request_new() {
    let request = Request::new(s("0ff0"), s("echo"), None);

    assert_eq!(request.id().as_str(), "0ff0");
    assert_eq!(request.method().as_str(), "echo");
    assert_eq!(request.params(), None);
}

#[test]
fn test_request_serialize_no_params() {
    let request = Request::new(s("0ff0"), s("echo"), None);

    assert_eq!(
        request.encode(),
        "{\"jsonrpc\":\"2.0\",\"id\":\"0ff0\",\"method\":\"echo\"}"
    );
}

#[test]
fn test_request_serialize_with_params() {
    let params = Json::Obj(vec![(s("example"), Json::Bool(true))]);
    let request = Request::new(s("0ff0"), s("echo"), Some(params));

    assert_eq!(
        request.encode(),
        "{\"jsonrpc\":\"2.0\",\"id\":\"0ff0\",\"method\":\"echo\",\"params\":{\"example\":true}}"
    );
}

#[test]
fn test_request_deserialize_no_params() {
    let request = Request::decode(
        "{\"jsonrpc\":\"2.0\",\"id\":\"0ff0\",\"method\":\"echo\"}".as_bytes(),
    )
    .unwrap();

    assert_eq!(request.id().as_str(), "0ff0");
    assert_eq!(request.method().as_str(), "echo");
    assert_eq!(request.params(), None);
}

#[test]
fn test_request_deserialize_with_params() {
    let request = Request::decode(
        "{\"jsonrpc\":\"2.0\",\"id\":\"0ff0\",\"method\":\"echo\",\"params\":{\"example\":true}}"
            .as_bytes(),
    )
    .unwrap();

    assert_eq!(request.id().as_str(), "0ff0");
    assert_eq!(request.method().as_str(), "echo");
    let expected = Json::Obj(vec![(s("example"), Json::Bool(true))]);
    assert_eq!(request.params(), Some(&expected));
}

#[test]
fn test_response_new() {
    let response = Response::new_result(s("0ff1"), Json::Str(s("echoed")));

    assert_eq!(response.id().as_str(), "0ff1");
    assert_eq!(response.result(), Some(&Json::Str(s("echoed"))));
}

#[test]
fn test_response_serialize() {
    let nested = Json::Obj(vec![(
        s("nested"),
        Json::Obj(vec![(s("structure"), Json::Bool(true))]),
    )]);
    let response = Response::new_result(s("0ff1"), nested);

    assert_eq!(
        response.encode(),
        "{\"jsonrpc\":\"2.0\",\"id\":\"0ff1\",\"result\":{\"nested\":{\"structure\":true}}}"
    );
}

#[test]
fn test_response_deserialize() {
    let response = Response::decode(
        "{\"jsonrpc\":\"2.0\",\"id\":\"0ff1\",\"result\":{\"nested\":{\"structure\":true}}}"
            .as_bytes(),
    )
    .unwrap();

    assert_eq!(response.id().as_str(), "0ff1");
    let expected = Json::Obj(vec![(
        s("nested"),
        Json::Obj(vec![(s("structure"), Json::Bool(true))]),
    )]);
    assert_eq!(response.result(), Some(&expected));
}

#[test]
fn test_error_serialize() {
    let error = ErrorResponse::new(-32000, s("Test message"), None);

    assert_eq!(error.encode(), "{\"code\":-32000,\"message\":\"Test message\"}");
}

#[test]
fn test_error_deserialize() {
    let error =
        ErrorResponse::decode("{\"code\":-32000,\"message\":\"Test message\"}".as_bytes()).unwrap();

    assert_eq!(error.code, -32000);
    assert_eq!(error.message.as_str(), "Test message");
    assert_eq!(error.data, None);
}

#[test]
fn request_round_trip_with_params() {
    let params = Json::Arr(vec![Json::Str(s("hi")), Json::Int(-7), Json::Null]);
    let request = Request::new(s("a1"), s("echo"), Some(params));
    let bytes = request.encode_bytes();
    let back = Request::decode(&bytes).unwrap();
    assert_eq!(back, request);
}

#[test]
fn request_round_trip_no_params() {
    let request = Request::new(s("a2"), s("poke"), None);
    let back = Request::decode(&request.encode_bytes()).unwrap();
    assert_eq!(back, request);
}

#[test]
fn response_round_trip_both_variants() {
    let ok = Response::new_result(s("r1"), Json::Arr(vec![Json::Int(1), Json::Bool(false)]));
    assert_eq!(Response::decode(&ok.encode_bytes()).unwrap(), ok);

    let err = Response::new_error(
        s("r2"),
        ErrorResponse::new(-32601, s("Method not found"), Some(Json::Int(3))),
    );
    assert_eq!(Response::decode(&err.encode_bytes()).unwrap(), err);
}

#[test]
fn params_absent_and_null_are_distinct() {
    let absent = Request::new(s("x"), s("m"), None);
    assert!(!absent.encode().contains("params"));

    let null = Request::new(s("x"), s("m"), Some(Json::Null));
    assert_eq!(
        null.encode(),
        "{\"jsonrpc\":\"2.0\",\"id\":\"x\",\"method\":\"m\",\"params\":null}"
    );

    let absent_back = Request::decode(&absent.encode_bytes()).unwrap();
    let null_back = Request::decode(&null.encode_bytes()).unwrap();
    assert_eq!(absent_back.params(), None);
    assert_eq!(null_back.params(), Some(&Json::Null));
    assert_ne!(absent_back, null_back);
}

#[test]
fn version_always_present_on_encode() {
    let request = Request::new(s("v"), s("m"), None);
    assert!(request.encode().starts_with("{\"jsonrpc\":\"2.0\","));

    let response = Response::new_result(s("v"), Json::Int(0));
    assert!(response.encode().starts_with("{\"jsonrpc\":\"2.0\","));
}

#[test]
fn version_ignored_on_decode() {
    let with_20 = Request::decode(
        "{\"jsonrpc\":\"2.0\",\"id\":\"a\",\"method\":\"m\"}".as_bytes(),
    );
    let with_10 = Request::decode(
        "{\"jsonrpc\":\"1.0\",\"id\":\"a\",\"method\":\"m\"}".as_bytes(),
    );
    let absent = Request::decode("{\"id\":\"a\",\"method\":\"m\"}".as_bytes());
    assert!(with_20.is_ok());
    assert!(with_10.is_ok());
    assert!(absent.is_ok());
    assert_eq!(with_20.unwrap(), absent.unwrap());
}

#[test]
fn request_decode_parse_errors() {
    assert_eq!(Request::decode("not json".as_bytes()), Err(RpcError::ParseError));
    assert_eq!(Request::decode(&[0xffu8, 0xfe]), Err(RpcError::ParseError));
    assert_eq!(Request::decode("[1,2]".as_bytes()), Err(RpcError::ParseError));
    assert_eq!(Request::decode("42".as_bytes()), Err(RpcError::ParseError));
}

#[test]
fn request_decode_invalid_shapes() {
    // id missing
    assert_eq!(
        Request::decode("{\"jsonrpc\":\"2.0\",\"method\":\"m\"}".as_bytes()),
        Err(RpcError::InvalidRequest)
    );
    // method missing
    assert_eq!(
        Request::decode("{\"jsonrpc\":\"2.0\",\"id\":\"a\"}".as_bytes()),
        Err(RpcError::InvalidRequest)
    );
    // id of the wrong shape
    assert_eq!(
        Request::decode("{\"id\":7,\"method\":\"m\"}".as_bytes()),
        Err(RpcError::InvalidRequest)
    );
    // duplicate field
    assert_eq!(
        Request::decode("{\"id\":\"a\",\"id\":\"b\",\"method\":\"m\"}".as_bytes()),
        Err(RpcError::InvalidRequest)
    );
    // unknown field
    assert_eq!(
        Request::decode("{\"id\":\"a\",\"method\":\"m\",\"extra\":1}".as_bytes()),
        Err(RpcError::InvalidRequest)
    );
}

#[test]
fn response_decode_invalid_shapes() {
    // neither result nor error
    assert_eq!(
        Response::decode("{\"jsonrpc\":\"2.0\",\"id\":\"a\"}".as_bytes()),
        Err(RpcError::InvalidResponse)
    );
    // both result and error
    assert_eq!(
        Response::decode(
            "{\"id\":\"a\",\"result\":1,\"error\":{\"code\":1,\"message\":\"m\"}}".as_bytes()
        ),
        Err(RpcError::InvalidResponse)
    );
    // unknown top-level field
    assert_eq!(
        Response::decode("{\"id\":\"a\",\"result\":1,\"extra\":2}".as_bytes()),
        Err(RpcError::InvalidResponse)
    );
    // error member with a code outside i32
    assert_eq!(
        Response::decode(
            "{\"id\":\"a\",\"error\":{\"code\":3000000000,\"message\":\"m\"}}".as_bytes()
        ),
        Err(RpcError::InvalidResponse)
    );
}

#[test]
fn decode_accepts_whitespace_and_any_member_order() {
    let request = Request::decode(
        " { \"method\" : \"m\" , \"id\" : \"a\" } ".as_bytes(),
    )
    .unwrap();
    assert_eq!(request.id().as_str(), "a");
    assert_eq!(request.method().as_str(), "m");
}

#[test]
fn string_escapes_round_trip() {
    let tricky = s("a\"b\\c\nd\te\u{8}f/g");
    let request = Request::new(s("e1"), tricky.clone(), None);
    let back = Request::decode(&request.encode_bytes()).unwrap();
    assert_eq!(back.method().as_str(), tricky.as_str());
}

#[test]
fn unicode_content_round_trips() {
    let request = Request::new(s("café"), s("méthode"), Some(Json::Str(s("héllo ☃"))));
    let back = Request::decode(&request.encode_bytes()).unwrap();
    assert_eq!(back, request);
}

#[test]
fn unicode_escape_decodes() {
    let request = Request::decode(
        "{\"id\":\"\\u0041\\u00e9\",\"method\":\"m\"}".as_bytes(),
    )
    .unwrap();
    assert_eq!(request.id().as_str(), "Aé");
}

#[test]
fn integer_bounds_round_trip() {
    let params = Json::Arr(vec![
        Json::Int(0),
        Json::Int(-1),
        Json::Int(i64::MAX),
        Json::Int(i64::MIN),
    ]);
    let request = Request::new(s("n"), s("m"), Some(params));
    let text = request.encode();
    assert!(text.contains("9223372036854775807"));
    assert!(text.contains("-9223372036854775808"));
    let back = Request::decode(text.as_bytes()).unwrap();
    assert_eq!(back, request);
}

#[test]
fn numbers_outside_the_model_are_rejected() {
    // a fractional number
    assert_eq!(
        Request::decode("{\"id\":\"a\",\"method\":\"m\",\"params\":1.5}".as_bytes()),
        Err(RpcError::ParseError)
    );
    // a leading zero
    assert_eq!(
        Request::decode("{\"id\":\"a\",\"method\":\"m\",\"params\":01}".as_bytes()),
        Err(RpcError::ParseError)
    );
    // beyond i64
    assert_eq!(
        Request::decode(
            "{\"id\":\"a\",\"method\":\"m\",\"params\":9223372036854775808}".as_bytes()
        ),
        Err(RpcError::ParseError)
    );
}

#[test]
fn version_key_may_repeat_but_must_be_a_string() {
    let repeated = Request::decode(
        "{\"jsonrpc\":\"2.0\",\"jsonrpc\":\"2.0\",\"id\":\"a\",\"method\":\"m\"}".as_bytes(),
    );
    assert!(repeated.is_ok());

    let numeric = Request::decode("{\"jsonrpc\":2,\"id\":\"a\",\"method\":\"m\"}".as_bytes());
    assert_eq!(numeric, Err(RpcError::InvalidRequest));
}

#[test]
fn response_duplicate_id_is_rejected() {
    assert_eq!(
        Response::decode("{\"id\":\"a\",\"id\":\"a\",\"result\":1}".as_bytes()),
        Err(RpcError::InvalidResponse)
    );
}

#[test]
fn empty_containers_round_trip() {
    let request = Request::new(
        s("c"),
        s("m"),
        Some(Json::Arr(vec![Json::Obj(vec![]), Json::Arr(vec![])])),
    );
    assert_eq!(
        request.encode(),
        "{\"jsonrpc\":\"2.0\",\"id\":\"c\",\"method\":\"m\",\"params\":[{},[]]}"
    );
    assert_eq!(Request::decode(&request.encode_bytes()).unwrap(), request);
}

#[test]
fn error_data_omitted_only_when_absent() {
    let with_data = ErrorResponse::new(-1, s("m"), Some(Json::Int(9)));
    assert_eq!(with_data.encode(), "{\"code\":-1,\"message\":\"m\",\"data\":9}");

    let unknown_keys_ignored =
        ErrorResponse::decode("{\"code\":-1,\"message\":\"m\",\"other\":true}".as_bytes())
            .unwrap();
    assert_eq!(unknown_keys_ignored.code, -1);
    assert_eq!(unknown_keys_ignored.data, None);
}
