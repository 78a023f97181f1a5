//! What the service answers: a status, the one header that it sets, and the
//! fields of the JSON body.

use crate::error::Status;
use crate::string_map::StringMap;
use vstd::prelude::*;

verus! {

/// The fields of the body of an answer.
#[derive(Debug)]
pub enum Body {
    /// No body.
    Empty,
    /// `{"code": ..}`: a version was set.
    Code { code: u16 },
    /// `{"code": .., "errno": .., "error": ..}`: the request failed.
    Error { code: u16, errno: i32, error: String },
    /// `{"code": .., "broadcasts": {..}}`: the version of each broadcast.
    Broadcasts { code: u16, broadcasts: StringMap },
    /// `{"status": .., "code": .., "database": ..}`: how the service is.
    Heartbeat { status: String, code: u16, database: String },
}

/// An answer of the service.
#[derive(Debug)]
pub struct Response {
    pub status: Status,
    /// The value of the `WWW-Authenticate` header, where the answer has one.
    pub www_authenticate: Option<String>,
    pub body: Body,
}

} // verus!
