//! User-facing outcome of a verification request.
//!
//! A response is either `Ok` with a populated result, or `Failed` with an
//! explanatory message and no result; the two never mix.

use vstd::prelude::*;

verus! {

/// Outcome marker carried on the wire as `"0"` (success) or `"1"` (failure).
#[derive(Debug, PartialEq, Eq, Structural, Clone, Copy)]
pub enum VerificationStatus {
    Success,
    Failed,
}

/// Flattened, user-facing projection of a successful verification: which
/// contract matched, under which compiler settings, and the original
/// sources echoed back for provenance.
#[derive(Debug, Clone)]
pub struct VerificationResult {
    pub file_name: String,
    pub contract_name: String,
    pub compiler_version: String,
    pub evm_version: String,
    pub constructor_arguments: Option<Vec<u8>>,
    pub optimization: Option<bool>,
    pub optimization_runs: Option<usize>,
    pub contract_libraries: Vec<(String, String)>,
    pub abi: String,
    pub sources: Vec<(String, String)>,
}

/// Envelope returned for every verification request that reaches the
/// domain logic, failures included.
#[derive(Debug, Clone)]
pub struct VerificationResponse {
    pub message: String,
    pub result: Option<VerificationResult>,
    pub status: VerificationStatus,
}

/// Mathematical image of a result: every text as its characters.
pub ghost struct ResultV {
    pub file_name: Seq<char>,
    pub contract_name: Seq<char>,
    pub compiler_version: Seq<char>,
    pub evm_version: Seq<char>,
    pub constructor_arguments: Option<Seq<u8>>,
    pub optimization: Option<bool>,
    pub optimization_runs: Option<usize>,
    pub contract_libraries: Seq<(Seq<char>, Seq<char>)>,
    pub abi: Seq<char>,
    pub sources: Seq<(Seq<char>, Seq<char>)>,
}

/// Mathematical image of a response.
pub ghost struct ResponseV {
    pub message: Seq<char>,
    pub result: Option<ResultV>,
    pub status: VerificationStatus,
}

impl View for VerificationResult {
    type V = ResultV;

    open spec fn view(&self) -> ResultV {
        ResultV {
            file_name: self.file_name@,
            contract_name: self.contract_name@,
            compiler_version: self.compiler_version@,
            evm_version: self.evm_version@,
            constructor_arguments: match self.constructor_arguments {
                Some(b) => Some(b@),
                None => None,
            },
            optimization: self.optimization,
            optimization_runs: self.optimization_runs,
            contract_libraries: self.contract_libraries@.map_values(
                |p: (String, String)| (p.0@, p.1@)),
            abi: self.abi@,
            sources: self.sources@.map_values(|p: (String, String)| (p.0@, p.1@)),
        }
    }
}

impl View for VerificationResponse {
    type V = ResponseV;

    open spec fn view(&self) -> ResponseV {
        ResponseV {
            message: self.message@,
            result: match self.result {
                Some(r) => Some(r@),
                None => None,
            },
            status: self.status,
        }
    }
}

/// The status and the presence of a result agree, at the level of the
/// mathematical image.
pub open spec fn spec_status_matches(v: ResponseV) -> bool {
    &&& v.status == VerificationStatus::Success <==> v.result is Some
    &&& v.status == VerificationStatus::Failed <==> v.result is None
}

/// Structural invariant of every response the library builds: the status
/// and the presence of a result always agree.
pub open spec fn status_matches_result(r: VerificationResponse) -> bool {
    &&& r.status == VerificationStatus::Success <==> r.result is Some
    &&& r.status == VerificationStatus::Failed <==> r.result is None
}

impl VerificationResponse {
    /// Successful response: status `Ok`, fixed message, result present.
    pub fn ok(result: VerificationResult) -> (r: Self)
        ensures
            r.status == VerificationStatus::Success,
            r.result == Some(result),
            r.message@ == "OK"@,
            status_matches_result(r),
    {
        VerificationResponse {
            message: "OK".to_owned(),
            result: Some(result),
            status: VerificationStatus::Success,
        }
    }

    /// Failed response: status `Failed`, no result, the given message kept
    /// verbatim.
    pub fn err(message: String) -> (r: Self)
        ensures
            r.status == VerificationStatus::Failed,
            r.result is None,
            r.message == message,
            status_matches_result(r),
    {
        VerificationResponse {
            message,
            result: None,
            status: VerificationStatus::Failed,
        }
    }
}

} // verus!
