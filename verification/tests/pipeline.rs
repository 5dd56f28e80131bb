//! End-to-end verification scenarios through the orchestrator, and the
//! remote path's retry policy.

use verification::catalog::{VersionCatalog, DownloadDescriptor};
use verification::input::{MultiPartFiles, build_from_multi_part};
use verification::matcher::CompiledContract;
use verification::orchestrator::{
    CompilationOutcome, RequestError, resolve_request_version, verify_compilation,
};
use verification::remote::{AttemptOutcome, RemoteClientConfig, RemoteStep, remote_step};
use verification::response::{VerificationResponse, VerificationStatus};
use verification::version::CompilerVersion;

fn known_version() -> CompilerVersion {
    CompilerVersion { major: 0, minor: 8, patch: 17, commit: "8df45f5f".to_string() }
}

fn catalog() -> VersionCatalog {
    VersionCatalog::new(vec![(
        known_version(),
        DownloadDescriptor { url: "u".to_string(), checksum: vec![1] },
    )])
}

fn trivial_content() -> MultiPartFiles {
    MultiPartFiles {
        sources: vec![(
            "Trivial.sol".to_string(),
            "contract Trivial {}".to_string(),
        )],
        evm_version: None,
        optimization: Some(false),
        optimization_runs: None,
        contract_libraries: Vec::new(),
    }
}

/// What compiling the trivial contract with the known version produces:
/// the compiler runs outside the library, and its output is handed in.
fn compiled_trivial() -> CompiledContract {
    CompiledContract {
        file_path: "Trivial.sol".to_string(),
        contract_name: "Trivial".to_string(),
        creation_code: vec![0x60, 0x80, 0x60, 0x40, 0xff, 0xff],
        deployed_code: vec![0x60, 0x80, 0x00, 0xfe, 0xff, 0xff],
        abi: "[]".to_string(),
        source_map: String::new(),
        creation_link_references: Vec::new(),
        deployed_link_references: Vec::new(),
        immutable_references: Vec::new(),
    }
}

#[test]
fn trivial_contract_verifies() {
    let catalog = catalog();
    let i = resolve_request_version(&catalog, &"v0.8.17+commit.8df45f5f".to_string()).unwrap();
    let version = catalog.version_at(i);
    let input = build_from_multi_part(trivial_content());
    let deployed = compiled_trivial().deployed_code;
    let response = verify_compilation(
        input,
        version,
        CompilationOutcome::Contracts(vec![compiled_trivial()]),
        None,
        deployed,
    );
    assert_eq!(response.status, VerificationStatus::Success);
    let json: serde_json::Value = serde_json::from_str(&response.to_json_string()).unwrap();
    assert_eq!(json["status"], serde_json::Value::String("0".to_string()));
    assert_eq!(json["result"]["contract_name"], serde_json::Value::String("Trivial".to_string()));
    let result = response.result.unwrap();
    assert_eq!(result.contract_name, "Trivial");
    assert_eq!(result.file_name, "Trivial.sol");
    assert_eq!(result.compiler_version, "v0.8.17+commit.8df45f5f");
    assert_eq!(result.evm_version, "default");
    assert_eq!(result.optimization, Some(false));
    assert_eq!(result.sources, vec![(
        "Trivial.sol".to_string(),
        "contract Trivial {}".to_string(),
    )]);
}

#[test]
fn corrupted_deployed_bytecode_fails() {
    let catalog = catalog();
    let i = resolve_request_version(&catalog, &"v0.8.17+commit.8df45f5f".to_string()).unwrap();
    let version = catalog.version_at(i);
    let input = build_from_multi_part(trivial_content());
    let mut deployed = compiled_trivial().deployed_code;
    deployed[0] ^= 0x01;
    let response = verify_compilation(
        input,
        version,
        CompilationOutcome::Contracts(vec![compiled_trivial()]),
        None,
        deployed,
    );
    assert_eq!(response.status, VerificationStatus::Failed);
    assert!(response.result.is_none());
    let json: serde_json::Value =
        serde_json::from_str(&response.to_json_string()).unwrap();
    assert_eq!(json["status"], serde_json::Value::String("1".to_string()));
    assert_eq!(json["result"], serde_json::Value::Null);
}

#[test]
fn unknown_version_is_a_client_error() {
    let catalog = catalog();
    let err = resolve_request_version(&catalog, &"v9.9.9+commit.ffffffff".to_string());
    match err {
        Err(RequestError::UnknownVersion(s)) => {
            assert_eq!(s, "v9.9.9+commit.ffffffff");
        },
        other => panic!("expected an unknown-version error, got {:?}", other),
    }
}

#[test]
fn compiler_diagnostics_become_a_failed_response() {
    let catalog = catalog();
    let i = resolve_request_version(&catalog, &"v0.8.17+commit.8df45f5f".to_string()).unwrap();
    let version = catalog.version_at(i);
    let input = build_from_multi_part(trivial_content());
    let response = verify_compilation(
        input,
        version,
        CompilationOutcome::CompilerError("ParserError: expected ';'".to_string()),
        None,
        vec![0x00],
    );
    assert_eq!(response.status, VerificationStatus::Failed);
    assert_eq!(response.message, "ParserError: expected ';'");
    assert!(response.result.is_none());
}

#[test]
fn compilation_timeout_becomes_a_failed_response() {
    let catalog = catalog();
    let i = resolve_request_version(&catalog, &"v0.8.17+commit.8df45f5f".to_string()).unwrap();
    let version = catalog.version_at(i);
    let input = build_from_multi_part(trivial_content());
    let response =
        verify_compilation(input, version, CompilationOutcome::Timeout, None, vec![0x00]);
    assert_eq!(response.status, VerificationStatus::Failed);
    assert_eq!(response.message, "Compilation timed out");
}

#[test]
fn remote_retries_then_fails_as_a_response() {
    let config = RemoteClientConfig {
        api_url: "https://remote.example/verify".to_string(),
        request_timeout: 10,
        verification_attempts: 3,
    };
    assert!(matches!(
        remote_step(0, &config, AttemptOutcome::NetworkError("timeout".to_string())),
        RemoteStep::Retry
    ));
    assert!(matches!(
        remote_step(1, &config, AttemptOutcome::NetworkError("timeout".to_string())),
        RemoteStep::Retry
    ));
    match remote_step(2, &config, AttemptOutcome::NetworkError("timeout".to_string())) {
        RemoteStep::Done(resp) => {
            assert_eq!(resp.status, VerificationStatus::Failed);
            assert_eq!(resp.message, "timeout");
        },
        other => panic!("expected a final response, got {:?}", other),
    }

    let answered = VerificationResponse::err("remote says no".to_string());
    match remote_step(0, &config, AttemptOutcome::Answered(answered)) {
        RemoteStep::Done(resp) => assert_eq!(resp.message, "remote says no"),
        other => panic!("expected the answer through, got {:?}", other),
    }
}
