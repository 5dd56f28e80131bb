//! Alternate verification path: a request is forwarded to an external
//! verification service. The surrounding runtime performs each network
//! attempt; this module decides, attempt by attempt, whether to retry
//! or what to answer, with bounded retries and a `Failed` response —
//! not a transport error — once they are exhausted.

use vstd::prelude::*;
use crate::response::{VerificationResponse, VerificationStatus, status_matches_result};

verus! {

/// How the remote service is reached: its URL, the timeout per attempt,
/// and how many attempts are allowed.
#[derive(Debug)]
pub struct RemoteClientConfig {
    pub api_url: String,
    pub request_timeout: u64,
    pub verification_attempts: usize,
}

/// What one network attempt came to.
#[derive(Debug)]
pub enum AttemptOutcome {
    /// The service answered; its answer, already mapped into the
    /// response shape.
    Answered(VerificationResponse),
    /// The attempt failed on the network, with its message.
    NetworkError(String),
}

/// What to do after an attempt.
#[derive(Debug)]
pub enum RemoteStep {
    /// Answer the caller with this response.
    Done(VerificationResponse),
    /// Idempotent network failure with attempts left: try again.
    Retry,
}

/// Decides the next step after attempt number `attempts_made + 1`: an
/// answer from the service is final, whatever it says; a network
/// failure is retried while attempts remain, and becomes a `Failed`
/// response carrying the failure message once they are exhausted.
pub fn remote_step(attempts_made: usize, config: &RemoteClientConfig, outcome: AttemptOutcome)
    -> (r: RemoteStep)
    requires
        attempts_made < config.verification_attempts,
    ensures
        match outcome {
            AttemptOutcome::Answered(resp) => r matches RemoteStep::Done(x) && x == resp,
            AttemptOutcome::NetworkError(e) => {
                if attempts_made + 1 < config.verification_attempts {
                    r is Retry
                } else {
                    r matches RemoteStep::Done(x) && x.status == VerificationStatus::Failed
                        && x.message == e && status_matches_result(x)
                }
            },
        },
{
    match outcome {
        AttemptOutcome::Answered(resp) => RemoteStep::Done(resp),
        AttemptOutcome::NetworkError(e) => {
            if attempts_made + 1 < config.verification_attempts {
                RemoteStep::Retry
            } else {
                RemoteStep::Done(VerificationResponse::err(e))
            }
        },
    }
}

} // verus!
