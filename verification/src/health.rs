//! The liveness answer of the service.
use vstd::prelude::*;
use vstd::string::*;
use crate::models::HealthResponse;

verus! {

/// The answer to a liveness probe: the status `ok`, and the version that
/// the service runs.
pub fn health(version: &str) -> (r: HealthResponse)
    ensures
        r.status@ == "ok"@,
        r.version@ == version@,
{
    HealthResponse { status: "ok".to_owned(), version: version.to_owned() }
}

} // verus!
