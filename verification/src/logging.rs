//! What the service decides about its logs.

use crate::error::{HandlerError, HandlerErrorKind, HandlerResult};
use vstd::prelude::*;
use vstd::string::*;

verus! {

/// Whether the logs are written as JSON, from what the configuration
/// holds under `json_logging`: nothing, a truth value, or a value that is
/// none, given as what is wrong with it. The logs are JSON unless told
/// otherwise.
pub fn json_logging(configured: Option<Result<bool, String>>) -> (r: HandlerResult<bool>)
    ensures
        match configured {
            None => r == Ok::<bool, HandlerError>(true),
            Some(Ok(wanted)) => r == Ok::<bool, HandlerError>(wanted),
            Some(Err(said)) => {
                &&& r matches Err(e)
                &&& e.kind() matches HandlerErrorKind::InternalError(msg)
                &&& msg@ == "Invalid ROCKET_JSON_LOGGING: "@ + said@
            },
        },
{
    match configured {
        None => Ok(true),
        Some(Ok(wanted)) => Ok(wanted),
        Some(Err(said)) => Err(
            HandlerError::internal(
                String::from_str("Invalid ROCKET_JSON_LOGGING: ").concat(said.as_str()),
            ),
        ),
    }
}

} // verus!
