//! The broadcasts and the table that holds their versions.

use crate::error::{HandlerError, HandlerErrorKind, HandlerResult};
use vstd::prelude::*;
use vstd::string::*;

pub mod laws;
pub mod models;
pub mod store;

verus! {

/// How the pool of connections to the database is set up.
#[derive(Debug)]
pub struct PoolSettings {
    pub database_url: String,
    /// The greatest number of connections that the pool holds.
    pub max_size: u32,
    /// Whether each connection begins a transaction that is never
    /// committed, as the tests of a server want it.
    pub use_test_transactions: bool,
}

/// The settings of the pool, from what the configuration holds under
/// `database_url`, `database_pool_max_size` and
/// `database_use_test_transactions`. The url has to be there. A pool holds
/// ten connections and commits its transactions unless told otherwise. A
/// size that does not fit 32 bits is cut down to its lowest 32 bits.
pub fn pool_settings(
    database_url: Option<String>,
    database_pool_max_size: Option<i64>,
    database_use_test_transactions: Option<bool>,
) -> (r: HandlerResult<PoolSettings>)
    ensures
        match r {
            Ok(settings) => {
                &&& database_url == Some(settings.database_url)
                &&& settings.max_size == match database_pool_max_size {
                    Some(size) => size as u32,
                    None => 10u32,
                }
                &&& settings.use_test_transactions == match database_use_test_transactions {
                    Some(wanted) => wanted,
                    None => false,
                }
            },
            Err(e) => {
                &&& database_url is None
                &&& e.kind() matches HandlerErrorKind::InternalError(msg)
                &&& msg@ == "Invalid or undefined ROCKET_DATABASE_URL"@
            },
        },
{
    let database_url = match database_url {
        None => {
            return Err(
                HandlerError::internal(
                    String::from_str("Invalid or undefined ROCKET_DATABASE_URL"),
                ),
            );
        },
        Some(database_url) => database_url,
    };
    let max_size = match database_pool_max_size {
        Some(size) => #[verifier::truncate]
        (size as u32),
        None => 10,
    };
    let use_test_transactions = match database_use_test_transactions {
        Some(wanted) => wanted,
        None => false,
    };
    Ok(PoolSettings { database_url, max_size, use_test_transactions })
}

} // verus!
