//! Serialization of responses: the exact wire text, and the wire
//! round trip.

use verification::response::{VerificationResponse, VerificationResult, VerificationStatus};
use verification::json::{encode_response, decode_response};

fn sample_result() -> VerificationResult {
    VerificationResult {
        file_name: "File.sol".to_string(),
        contract_name: "contract_name".to_string(),
        compiler_version: "compiler_version".to_string(),
        evm_version: "evm_version".to_string(),
        constructor_arguments: Some(vec![0xca, 0xfe]),
        optimization: Some(false),
        optimization_runs: Some(200),
        contract_libraries: vec![("some_library".to_string(), "some_address".to_string())],
        abi: "abi".to_string(),
        sources: vec![("source.sol".to_string(), "content".to_string())],
    }
}

#[test]
fn parse_response() {
    let ok_response = VerificationResponse::ok(sample_result());
    let produced: serde_json::Value =
        serde_json::from_str(&ok_response.to_json_string()).unwrap();
    let expected: serde_json::Value = serde_json::from_str(
        r#"{
            "message": "OK",
            "status": "0",
            "result": {
                "file_name": "File.sol",
                "contract_name": "contract_name",
                "compiler_version": "compiler_version",
                "evm_version": "evm_version",
                "constructor_arguments": "0xcafe",
                "contract_libraries": {
                    "some_library": "some_address"
                },
                "optimization": false,
                "optimization_runs": 200,
                "abi": "abi",
                "sources": {
                    "source.sol": "content"
                }
            }
        }"#,
    )
    .unwrap();
    assert_eq!(produced, expected);

    let err_response = VerificationResponse::err("Parse error".to_string());
    let produced: serde_json::Value =
        serde_json::from_str(&err_response.to_json_string()).unwrap();
    let expected: serde_json::Value = serde_json::from_str(
        r#"{
            "message": "Parse error",
            "status": "1",
            "result": null
        }"#,
    )
    .unwrap();
    assert_eq!(produced, expected);
}

#[test]
fn ok_and_err_keep_status_and_result_consistent() {
    let ok = VerificationResponse::ok(sample_result());
    assert_eq!(ok.status, VerificationStatus::Success);
    assert!(ok.result.is_some());
    assert_eq!(ok.message, "OK");

    let err = VerificationResponse::err("boom".to_string());
    assert_eq!(err.status, VerificationStatus::Failed);
    assert!(err.result.is_none());
    assert_eq!(err.message, "boom");
}

#[test]
fn wire_round_trip_ok() {
    let response = VerificationResponse::ok(sample_result());
    let wire = encode_response(&response);
    assert_eq!(wire.status, "0");
    let back = decode_response(wire).unwrap();
    assert_eq!(back.status, VerificationStatus::Success);
    let result = back.result.unwrap();
    assert_eq!(result.file_name, "File.sol");
    assert_eq!(result.contract_name, "contract_name");
    assert_eq!(result.constructor_arguments, Some(vec![0xca, 0xfe]));
    assert_eq!(result.optimization, Some(false));
    assert_eq!(result.optimization_runs, Some(200));
    assert_eq!(
        result.contract_libraries,
        vec![("some_library".to_string(), "some_address".to_string())]
    );
    assert_eq!(result.sources, vec![("source.sol".to_string(), "content".to_string())]);
    assert_eq!(back.message, "OK");
}

#[test]
fn wire_round_trip_failed() {
    let response = VerificationResponse::err("nothing matched".to_string());
    let wire = encode_response(&response);
    assert_eq!(wire.status, "1");
    let back = decode_response(wire).unwrap();
    assert_eq!(back.status, VerificationStatus::Failed);
    assert!(back.result.is_none());
    assert_eq!(back.message, "nothing matched");
}

#[test]
fn decode_rejects_inconsistent_wire_forms() {
    let response = VerificationResponse::ok(sample_result());
    let mut wire = encode_response(&response);
    wire.status = "1".to_string();
    assert!(decode_response(wire).is_none());

    let response = VerificationResponse::err("x".to_string());
    let mut wire = encode_response(&response);
    wire.status = "2".to_string();
    assert!(decode_response(wire).is_none());
}

#[test]
fn json_escapes_quotes_and_newlines() {
    let err_response = VerificationResponse::err("a \"b\"\nc\\d".to_string());
    let produced: serde_json::Value =
        serde_json::from_str(&err_response.to_json_string()).unwrap();
    assert_eq!(produced["message"], serde_json::Value::String("a \"b\"\nc\\d".to_string()));
}

#[test]
fn empty_maps_render_as_empty_objects() {
    let result = VerificationResult {
        file_name: String::new(),
        contract_name: String::new(),
        compiler_version: String::new(),
        evm_version: String::new(),
        constructor_arguments: None,
        optimization: None,
        optimization_runs: None,
        contract_libraries: Vec::new(),
        abi: String::new(),
        sources: Vec::new(),
    };
    let response = VerificationResponse::ok(result);
    let produced: serde_json::Value =
        serde_json::from_str(&response.to_json_string()).unwrap();
    let expected: serde_json::Value = serde_json::from_str(
        r#"{
            "message": "OK",
            "status": "0",
            "result": {
                "file_name": "",
                "contract_name": "",
                "compiler_version": "",
                "evm_version": "",
                "constructor_arguments": null,
                "contract_libraries": {},
                "optimization": null,
                "optimization_runs": null,
                "abi": "",
                "sources": {}
            }
        }"#,
    )
    .unwrap();
    assert_eq!(produced, expected);
}
