//! Per-request verification pipeline: resolve the requested version,
//! have the compiler run (the surrounding runtime spawns it and hands
//! the outcome back), match the produced contracts against the claimed
//! bytecode, and assemble the response. Request-shape and
//! unknown-version errors fail fast, before any compiler runs; every
//! later failure — diagnostics, a timeout, no matching contract — is a
//! domain-level `Failed` response, never a transport error.

use vstd::prelude::*;
use crate::bytes::{spec_bytes_of_hex, bytes_of_hex_chars};
use crate::catalog::VersionCatalog;
use crate::input::{CompilationInput, spec_flat_libs, flatten_libraries};
use crate::matcher::{
    CompiledContract, VerificationSuccess, find_match, spec_candidate_matches,
    spec_candidate_args, spec_opt_bytes, spec_libs_views,
};
use crate::response::{VerificationResponse, VerificationResult, VerificationStatus,
    status_matches_result};
use crate::strings::{chars_to_string, str_chars};
use crate::version::{CompilerVersion, spec_version_chars, spec_parse_version};

verus! {

/// Errors that cross the boundary as client errors, before any
/// compiler is spawned.
#[derive(Debug)]
pub enum RequestError {
    /// The requested compiler version string matches no known version.
    UnknownVersion(String),
    /// The request body was structurally malformed.
    InvalidInput(String),
}

/// What running the compiler came to.
#[derive(Debug)]
pub enum CompilationOutcome {
    /// The compiler produced these contracts.
    Contracts(Vec<CompiledContract>),
    /// The compiler reported diagnostics or exited abnormally.
    CompilerError(String),
    /// The compiler exceeded the wall-clock budget and was killed.
    Timeout,
}

/// Name-to-address text pairs as character sequences.
pub open spec fn spec_pairs_views(s: Seq<(String, String)>) -> Seq<(Seq<char>, Seq<char>)> {
    s.map_values(|p: (String, String)| (p.0@, p.1@))
}

/// Views distribute over concatenation of pair lists.
pub proof fn lemma_pairs_views_concat(a: Seq<(String, String)>, b: Seq<(String, String)>)
    ensures
        spec_pairs_views(a + b) =~= spec_pairs_views(a) + spec_pairs_views(b),
{
}

/// Bytes of a library address given as hex text, with or without a
/// leading `0x`.
pub open spec fn spec_addr_bytes(s: Seq<char>) -> Option<Seq<u8>> {
    let t = if s.len() >= 2 && s[0] == '0' && s[1] == 'x' { s.skip(2) } else { s };
    spec_bytes_of_hex(t)
}

/// The linkable addresses among the given name-to-address text pairs:
/// pairs whose address is valid hex, decoded; the rest dropped.
pub open spec fn spec_decode_views(pairs: Seq<(Seq<char>, Seq<char>)>) -> Seq<(Seq<char>, Seq<u8>)>
    decreases pairs.len(),
{
    if pairs.len() == 0 {
        Seq::empty()
    } else {
        (match spec_addr_bytes(pairs[0].1) {
            Some(b) => seq![(pairs[0].0, b)],
            None => Seq::empty(),
        }) + spec_decode_views(pairs.drop_first())
    }
}

/// Decodes library addresses from hex text, dropping pairs whose
/// address is not valid hex.
pub fn decode_addresses(libs: &Vec<(String, String)>) -> (r: Vec<(String, Vec<u8>)>)
    ensures
        spec_libs_views(r@) == spec_decode_views(spec_pairs_views(libs@)),
{
    let ghost pv = spec_pairs_views(libs@);
    let mut r: Vec<(String, Vec<u8>)> = Vec::new();
    proof {
        assert(pv.skip(0) =~= pv);
        assert(spec_libs_views(r@) + spec_decode_views(pv) =~= spec_decode_views(pv));
    }
    let n = libs.len();
    let mut i: usize = 0;
    while i < n
        invariant
            n == libs.len(),
            pv == spec_pairs_views(libs@),
            i <= n,
            spec_libs_views(r@) + spec_decode_views(pv.skip(i as int)) == spec_decode_views(pv),
        decreases n - i,
    {
        proof {
            assert(pv.skip(i as int)[0] == pv[i as int]);
            assert(pv[i as int] == (libs@[i as int].0@, libs@[i as int].1@));
            assert(pv.skip(i as int).drop_first() =~= pv.skip(i + 1));
        }
        let addr_chars = str_chars(libs[i].1.as_str());
        let stripped = if addr_chars.len() >= 2 {
            let c0 = addr_chars[0];
            let c1 = addr_chars[1];
            if c0 == '0' && c1 == 'x' {
                crate::version::sub_chars(&addr_chars, 2, addr_chars.len())
            } else {
                addr_chars
            }
        } else {
            addr_chars
        };
        proof {
            assert(spec_addr_bytes(libs@[i as int].1@) == spec_bytes_of_hex(stripped@));
        }
        let ghost r_old = r@;
        match bytes_of_hex_chars(&stripped) {
            Some(b) => {
                let name = chars_to_string(&str_chars(libs[i].0.as_str()));
                r.push((name, b));
                proof {
                    assert(spec_libs_views(r@)
                        =~= spec_libs_views(r_old) + seq![(libs@[i as int].0@,
                            spec_addr_bytes(libs@[i as int].1@).unwrap())]);
                }
            },
            None => {},
        }
        proof {
            assert(spec_libs_views(r@) + spec_decode_views(pv.skip(i + 1))
                =~= spec_decode_views(pv));
        }
        i += 1;
    }
    proof {
        assert(pv.skip(n as int) =~= Seq::<(Seq<char>, Seq<char>)>::empty());
        assert(spec_libs_views(r@) + spec_decode_views(pv.skip(n as int)) =~= spec_libs_views(r@));
    }
    r
}

/// The decoded library addresses a compilation input supplies for
/// linking.
pub open spec fn spec_input_libs(input: CompilationInput) -> Seq<(Seq<char>, Seq<u8>)> {
    spec_decode_views(spec_pairs_views(spec_flat_libs(input.settings.libraries@)))
}

/// Resolves the requested version string against the catalog, failing
/// fast — before any compiler is spawned — when it names no known
/// version.
pub fn resolve_request_version(catalog: &VersionCatalog, requested: &String)
    -> (r: Result<usize, RequestError>)
    ensures
        match r {
            Ok(i) => {
                &&& i < catalog.spec_entries().len()
                &&& spec_parse_version(requested@) matches Some((m, n, p, c))
                    && crate::catalog::spec_version_has_components(
                        catalog.spec_entries()[i as int].0, m, n, p, c)
            },
            Err(e) => {
                &&& e matches RequestError::UnknownVersion(s) && s@ == requested@
                &&& (spec_parse_version(requested@) is None
                    || (spec_parse_version(requested@) matches Some((m, n, p, c))
                        && forall|k: int| 0 <= k < catalog.spec_entries().len()
                            ==> !crate::catalog::spec_version_has_components(
                                catalog.spec_entries()[k].0, m, n, p, c)))
            },
        },
{
    match catalog.resolve(requested.as_str()) {
        Some(i) => Ok(i),
        None => Err(RequestError::UnknownVersion(
            chars_to_string(&str_chars(requested.as_str())))),
    }
}

impl VerificationResult {
    /// Assembles the user-facing result from the compilation input, the
    /// resolved version, and the matched contract: the sources are
    /// echoed back verbatim for provenance, the library scopes are
    /// flattened into one name-to-address list, and a missing EVM
    /// version reads `default`.
    pub fn from_parts(input: CompilationInput, version: &CompilerVersion,
        success: VerificationSuccess) -> (r: Self)
        ensures
            r.file_name == success.file_path,
            r.contract_name == success.contract_name,
            r.abi == success.abi,
            r.constructor_arguments == success.constructor_args,
            r.compiler_version@ == spec_version_chars(*version),
            r.evm_version@ == (match input.settings.evm_version {
                Some(s) => s@,
                None => "default"@,
            }),
            r.optimization == input.settings.optimizer.enabled,
            r.optimization_runs == input.settings.optimizer.runs,
            r.contract_libraries@ == spec_flat_libs(input.settings.libraries@),
            r.sources == input.sources,
    {
        let evm_version = match input.settings.evm_version {
            Some(s) => s,
            None => "default".to_owned(),
        };
        VerificationResult {
            file_name: success.file_path,
            contract_name: success.contract_name,
            compiler_version: version.to_version_string(),
            evm_version,
            constructor_arguments: success.constructor_args,
            optimization: input.settings.optimizer.enabled,
            optimization_runs: input.settings.optimizer.runs,
            contract_libraries: flatten_libraries(input.settings.libraries),
            abi: success.abi,
            sources: input.sources,
        }
    }
}

/// Copies the flattened name-to-address text pairs of the input's
/// library scopes.
fn flat_pairs_of(scopes: &Vec<(String, Vec<(String, String)>)>) -> (r: Vec<(String, String)>)
    ensures
        spec_pairs_views(r@) == spec_pairs_views(spec_flat_libs(scopes@)),
{
    let mut r: Vec<(String, String)> = Vec::new();
    let n = scopes.len();
    proof {
        assert(scopes@.skip(0) =~= scopes@);
        assert(spec_pairs_views(r@) + spec_pairs_views(spec_flat_libs(scopes@))
            =~= spec_pairs_views(spec_flat_libs(scopes@)));
    }
    let mut i: usize = 0;
    while i < n
        invariant
            n == scopes.len(),
            i <= n,
            spec_pairs_views(r@) + spec_pairs_views(spec_flat_libs(scopes@.skip(i as int)))
                == spec_pairs_views(spec_flat_libs(scopes@)),
        decreases n - i,
    {
        proof {
            assert(scopes@.skip(i as int)[0] == scopes@[i as int]);
            assert(scopes@.skip(i as int).drop_first() =~= scopes@.skip(i + 1));
            lemma_pairs_views_concat(
                scopes@[i as int].1@,
                spec_flat_libs(scopes@.skip(i + 1)),
            );
        }
        proof {
            let sv = spec_pairs_views(spec_flat_libs(scopes@.skip(i as int)));
            assert(sv.skip(0) =~= sv);
        }
        let m = scopes[i].1.len();
        let mut k: usize = 0;
        while k < m
            invariant
                n == scopes.len(),
                i < n,
                m == scopes@[i as int].1@.len(),
                k <= m,
                spec_pairs_views(r@) + spec_pairs_views(spec_flat_libs(scopes@.skip(i as int))).skip(k as int)
                    == spec_pairs_views(spec_flat_libs(scopes@)),
            decreases m - k,
        {
            let name = chars_to_string(&str_chars(scopes[i].1[k].0.as_str()));
            let addr = chars_to_string(&str_chars(scopes[i].1[k].1.as_str()));
            let ghost r_old = r@;
            r.push((name, addr));
            proof {
                let fv = spec_pairs_views(spec_flat_libs(scopes@));
                let sv = spec_pairs_views(spec_flat_libs(scopes@.skip(i as int)));
                assert(sv[k as int] == (scopes@[i as int].1@[k as int].0@,
                    scopes@[i as int].1@[k as int].1@)) by {
                    lemma_pairs_views_concat(
                        scopes@[i as int].1@,
                        spec_flat_libs(scopes@.skip(i + 1)),
                    );
                }
                assert(spec_pairs_views(r@) =~= spec_pairs_views(r_old) + seq![sv[k as int]]);
                assert(sv.skip(k as int)[0] == sv[k as int]);
                assert(sv.skip(k as int).drop_first() =~= sv.skip(k + 1));
                assert(spec_pairs_views(r@) + sv.skip(k + 1) =~= fv);
            }
            k += 1;
        }
        proof {
            let sv = spec_pairs_views(spec_flat_libs(scopes@.skip(i as int)));
            assert(sv.skip(m as int) =~= spec_pairs_views(spec_flat_libs(scopes@.skip(i + 1))));
            assert(spec_pairs_views(r@) + spec_pairs_views(spec_flat_libs(scopes@.skip(i + 1)))
                =~= spec_pairs_views(spec_flat_libs(scopes@)));
        }
        i += 1;
    }
    proof {
        assert(spec_flat_libs(scopes@.skip(n as int)) =~= Seq::<(String, String)>::empty());
        assert(spec_pairs_views(r@) + spec_pairs_views(spec_flat_libs(scopes@.skip(n as int)))
            =~= spec_pairs_views(r@));
    }
    r
}

/// Assembles the response once the compiler has run: diagnostics and
/// timeouts become `Failed` responses carrying the message; produced
/// contracts are matched against the claimed bytecode, the first match
/// in production order winning. Success exactly when some candidate
/// matches.
pub fn verify_compilation(
    input: CompilationInput,
    version: &CompilerVersion,
    outcome: CompilationOutcome,
    creation_bytecode: Option<Vec<u8>>,
    deployed_bytecode: Vec<u8>,
) -> (r: VerificationResponse)
    ensures
        status_matches_result(r),
        match outcome {
            CompilationOutcome::CompilerError(d) => r.status == VerificationStatus::Failed
                && r.message == d,
            CompilationOutcome::Timeout => r.status == VerificationStatus::Failed
                && r.message@ == "Compilation timed out"@,
            CompilationOutcome::Contracts(cs) => {
                &&& (r.status == VerificationStatus::Success <==> exists|i: int|
                    0 <= i < cs@.len() && spec_candidate_matches(
                        cs@[i], spec_input_libs(input), creation_bytecode, deployed_bytecode@))
                &&& match r.result {
                    Some(res) => exists|i: int|
                        {
                            &&& 0 <= i < cs@.len()
                            &&& #[trigger] spec_candidate_matches(
                                cs@[i], spec_input_libs(input), creation_bytecode,
                                deployed_bytecode@)
                            &&& forall|k: int| 0 <= k < i ==> !spec_candidate_matches(
                                cs@[k], spec_input_libs(input), creation_bytecode,
                                deployed_bytecode@)
                            &&& res.file_name@ == cs@[i].file_path@
                            &&& res.contract_name@ == cs@[i].contract_name@
                            &&& res.abi@ == cs@[i].abi@
                            &&& spec_opt_bytes(res.constructor_arguments) == spec_candidate_args(
                                cs@[i], spec_input_libs(input), creation_bytecode)
                            &&& res.compiler_version@ == spec_version_chars(*version)
                            &&& res.evm_version@ == (match input.settings.evm_version {
                                Some(s) => s@,
                                None => "default"@,
                            })
                            &&& res.optimization == input.settings.optimizer.enabled
                            &&& res.optimization_runs == input.settings.optimizer.runs
                            &&& res.contract_libraries@ == spec_flat_libs(input.settings.libraries@)
                            &&& res.sources == input.sources
                        },
                    None => r.message@ == "No contract matched the given bytecode"@,
                }
            },
        },
{
    match outcome {
        CompilationOutcome::CompilerError(d) => VerificationResponse::err(d),
        CompilationOutcome::Timeout => {
            VerificationResponse::err("Compilation timed out".to_owned())
        },
        CompilationOutcome::Contracts(cs) => {
            let flat = flat_pairs_of(&input.settings.libraries);
            let decoded = decode_addresses(&flat);
            match find_match(&cs, &decoded, &creation_bytecode, &deployed_bytecode) {
                Some(success) => {
                    let result = VerificationResult::from_parts(input, version, success);
                    VerificationResponse::ok(result)
                },
                None => VerificationResponse::err(
                    "No contract matched the given bytecode".to_owned()),
            }
        },
    }
}

} // verus!
