//! The errors of the service, and how each is answered over HTTP.

use crate::response::{Body, Response};
use vstd::prelude::*;
use vstd::string::*;

verus! {

pub type HandlerResult<T> = Result<T, HandlerError>;

/// The HTTP statuses that the service answers with.
#[derive(Clone, Copy, Debug, PartialEq, Eq, Structural)]
pub enum Status {
    OK,
    Created,
    BadRequest,
    Unauthorized,
    Forbidden,
    NotFound,
    InternalServerError,
    ServiceUnavailable,
}

impl Status {
    pub open spec fn spec_code(self) -> u16 {
        match self {
            Status::OK => 200,
            Status::Created => 201,
            Status::BadRequest => 400,
            Status::Unauthorized => 401,
            Status::Forbidden => 403,
            Status::NotFound => 404,
            Status::InternalServerError => 500,
            Status::ServiceUnavailable => 503,
        }
    }

    /// The numeric status code.
    #[verifier::when_used_as_spec(spec_code)]
    pub fn code(self) -> (code: u16)
        ensures
            code == self.spec_code(),
    {
        match self {
            Status::OK => 200,
            Status::Created => 201,
            Status::BadRequest => 400,
            Status::Unauthorized => 401,
            Status::Forbidden => 403,
            Status::NotFound => 404,
            Status::InternalServerError => 500,
            Status::ServiceUnavailable => 503,
        }
    }
}

/// What an error raised outside the service said: its own message, then the
/// messages of the errors that caused it, nearest first.
#[derive(Debug)]
pub struct Cause {
    pub message: String,
    pub sources: Vec<String>,
}

#[derive(Debug)]
pub enum HandlerErrorKind {
    /// 400 Bad Requests
    InvalidBroadcasterId,
    InvalidBchannelId,
    MissingVersionDataError,
    InvalidVersionDataError,
    /// 401 "Unauthorized" (unauthenticated)
    MissingAuth,
    InvalidAuth,
    /// 403 Forbidden (unauthorized)
    Unauthorized,
    /// 404 Not Found
    NotFound,
    /// 500 Internal Server Errors
    InternalError(String),
    IoError(Cause),
    /// 503 Service Unavailable
    DBError(Cause),
    /// 503 Service Unavailable
    DieselConnection(Cause),
    /// 503 Service Unavailable
    Pool(Cause),
    /// 503 Service Unavailable
    Migration(Cause),
    /// 413 Test Error
    TestError,
}

impl HandlerErrorKind {
    pub open spec fn spec_http_status(self) -> Status {
        match self {
            HandlerErrorKind::MissingAuth | HandlerErrorKind::InvalidAuth => Status::Unauthorized,
            HandlerErrorKind::Unauthorized => Status::Forbidden,
            HandlerErrorKind::NotFound => Status::NotFound,
            HandlerErrorKind::InternalError(_) | HandlerErrorKind::IoError(_) => {
                Status::InternalServerError
            },
            HandlerErrorKind::DBError(_)
            | HandlerErrorKind::DieselConnection(_)
            | HandlerErrorKind::Migration(_)
            | HandlerErrorKind::Pool(_) => Status::ServiceUnavailable,
            _ => Status::BadRequest,
        }
    }

    /// The status to answer an error with.
    pub fn http_status(&self) -> (status: Status)
        ensures
            status == self.spec_http_status(),
    {
        match self {
            HandlerErrorKind::MissingAuth | HandlerErrorKind::InvalidAuth => Status::Unauthorized,
            HandlerErrorKind::Unauthorized => Status::Forbidden,
            HandlerErrorKind::NotFound => Status::NotFound,
            HandlerErrorKind::InternalError(_) | HandlerErrorKind::IoError(_) => {
                Status::InternalServerError
            },
            HandlerErrorKind::DBError(_)
            | HandlerErrorKind::DieselConnection(_)
            | HandlerErrorKind::Migration(_)
            | HandlerErrorKind::Pool(_) => Status::ServiceUnavailable,
            _ => Status::BadRequest,
        }
    }

    pub open spec fn spec_errno(self) -> i32 {
        match self {
            HandlerErrorKind::InvalidBroadcasterId => 100,
            HandlerErrorKind::InvalidBchannelId => 101,
            HandlerErrorKind::MissingVersionDataError => 102,
            HandlerErrorKind::InvalidVersionDataError => 103,
            HandlerErrorKind::MissingAuth => 120,
            HandlerErrorKind::InvalidAuth => 121,
            HandlerErrorKind::Unauthorized => 122,
            HandlerErrorKind::NotFound => 123,
            HandlerErrorKind::IoError(_) | HandlerErrorKind::InternalError(_) => 201,
            HandlerErrorKind::DBError(_)
            | HandlerErrorKind::DieselConnection(_)
            | HandlerErrorKind::Migration(_)
            | HandlerErrorKind::Pool(_) => 202,
            HandlerErrorKind::TestError => 413,
        }
    }

    /// The error number that the answer's body carries.
    pub fn errno(&self) -> (errno: i32)
        ensures
            errno == self.spec_errno(),
    {
        match self {
            HandlerErrorKind::InvalidBroadcasterId => 100,
            HandlerErrorKind::InvalidBchannelId => 101,
            HandlerErrorKind::MissingVersionDataError => 102,
            HandlerErrorKind::InvalidVersionDataError => 103,
            HandlerErrorKind::MissingAuth => 120,
            HandlerErrorKind::InvalidAuth => 121,
            HandlerErrorKind::Unauthorized => 122,
            HandlerErrorKind::NotFound => 123,
            HandlerErrorKind::IoError(_) | HandlerErrorKind::InternalError(_) => 201,
            HandlerErrorKind::DBError(_)
            | HandlerErrorKind::DieselConnection(_)
            | HandlerErrorKind::Migration(_)
            | HandlerErrorKind::Pool(_) => 202,
            HandlerErrorKind::TestError => 413,
        }
    }
}

impl Cause {
    /// The messages of the sources, as sequences of characters.
    pub open spec fn spec_sources(self) -> Seq<Seq<char>> {
        Seq::new(self.sources@.len(), |i: int| self.sources@[i]@)
    }
}

/// The lines that name the causes of an error, one `Caused by` per source.
pub open spec fn caused_by(sources: Seq<Seq<char>>) -> Seq<char>
    decreases sources.len(),
{
    if sources.len() == 0 {
        Seq::empty()
    } else {
        caused_by(sources.drop_last()) + "\n\nCaused by: "@ + sources.last()
    }
}

impl HandlerErrorKind {
    /// What the error says of itself.
    pub open spec fn spec_message(self) -> Seq<char> {
        match self {
            HandlerErrorKind::InvalidBroadcasterId => {
                "Invalid broadcasterID (must be URL safe base64, <= 64 characters)"@
            },
            HandlerErrorKind::InvalidBchannelId => {
                "Invalid bchannelID (must be URL safe base64, <= 128 characters)"@
            },
            HandlerErrorKind::MissingVersionDataError => {
                "Version information not included in body of update"@
            },
            HandlerErrorKind::InvalidVersionDataError => {
                "Invalid Version (must be ASCII, <= 200 characters)"@
            },
            HandlerErrorKind::MissingAuth => "Missing authorization header"@,
            HandlerErrorKind::InvalidAuth => "Invalid authorization header"@,
            HandlerErrorKind::Unauthorized => "Access denied to the requested resource"@,
            HandlerErrorKind::NotFound => "Not Found"@,
            HandlerErrorKind::InternalError(msg) => "Unexpected megaphone error: "@ + msg@,
            HandlerErrorKind::IoError(cause) => cause.message@,
            HandlerErrorKind::DBError(cause) => "A database error occurred: "@ + cause.message@,
            HandlerErrorKind::DieselConnection(cause) => {
                "An error occurred while establishing a db connection: "@ + cause.message@
            },
            HandlerErrorKind::Pool(cause) => "A database pool error occurred: "@ + cause.message@,
            HandlerErrorKind::Migration(cause) => {
                "Error migrating the database: "@ + cause.message@
            },
            HandlerErrorKind::TestError => "Oh Noes!"@,
        }
    }

    /// The messages of the errors behind this one, nearest first. An I/O
    /// error stands for itself, so its chain is that of its cause; the
    /// database errors wrap their cause, which then heads the chain.
    pub open spec fn spec_sources(self) -> Seq<Seq<char>> {
        match self {
            HandlerErrorKind::IoError(cause) => cause.spec_sources(),
            HandlerErrorKind::DBError(cause)
            | HandlerErrorKind::DieselConnection(cause)
            | HandlerErrorKind::Pool(cause)
            | HandlerErrorKind::Migration(cause) => seq![cause.message@] + cause.spec_sources(),
            _ => Seq::empty(),
        }
    }

    /// What the error says of itself.
    pub fn message(&self) -> (msg: String)
        ensures
            msg@ == self.spec_message(),
    {
        match self {
            HandlerErrorKind::InvalidBroadcasterId => String::from_str(
                "Invalid broadcasterID (must be URL safe base64, <= 64 characters)",
            ),
            HandlerErrorKind::InvalidBchannelId => String::from_str(
                "Invalid bchannelID (must be URL safe base64, <= 128 characters)",
            ),
            HandlerErrorKind::MissingVersionDataError => String::from_str(
                "Version information not included in body of update",
            ),
            HandlerErrorKind::InvalidVersionDataError => String::from_str(
                "Invalid Version (must be ASCII, <= 200 characters)",
            ),
            HandlerErrorKind::MissingAuth => String::from_str("Missing authorization header"),
            HandlerErrorKind::InvalidAuth => String::from_str("Invalid authorization header"),
            HandlerErrorKind::Unauthorized => String::from_str(
                "Access denied to the requested resource",
            ),
            HandlerErrorKind::NotFound => String::from_str("Not Found"),
            HandlerErrorKind::InternalError(msg) => String::from_str(
                "Unexpected megaphone error: ",
            ).concat(msg.as_str()),
            HandlerErrorKind::IoError(cause) => cause.message.clone(),
            HandlerErrorKind::DBError(cause) => String::from_str(
                "A database error occurred: ",
            ).concat(cause.message.as_str()),
            HandlerErrorKind::DieselConnection(cause) => String::from_str(
                "An error occurred while establishing a db connection: ",
            ).concat(cause.message.as_str()),
            HandlerErrorKind::Pool(cause) => String::from_str(
                "A database pool error occurred: ",
            ).concat(cause.message.as_str()),
            HandlerErrorKind::Migration(cause) => String::from_str(
                "Error migrating the database: ",
            ).concat(cause.message.as_str()),
            HandlerErrorKind::TestError => String::from_str("Oh Noes!"),
        }
    }
}

#[derive(Debug)]
pub struct HandlerError {
    pub inner: HandlerErrorKind,
}

impl HandlerError {
    pub open spec fn spec_kind(&self) -> &HandlerErrorKind {
        &self.inner
    }

    #[verifier::when_used_as_spec(spec_kind)]
    pub fn kind(&self) -> (kind: &HandlerErrorKind)
        ensures
            kind == self.spec_kind(),
    {
        &self.inner
    }

    /// Return an InternalError with the given error message
    pub fn internal(msg: String) -> (err: Self)
        ensures
            err.kind() == HandlerErrorKind::InternalError(msg),
    {
        HandlerError { inner: HandlerErrorKind::InternalError(msg) }
    }

    /// The whole text of the error: its message, then one line per cause.
    pub open spec fn spec_to_string(&self) -> Seq<char> {
        self.kind().spec_message() + caused_by(self.kind().spec_sources())
    }

    /// The whole text of the error: its message, then one line per cause.
    pub fn to_string(&self) -> (text: String)
        ensures
            text@ == self.spec_to_string(),
    {
        let mut text = self.inner.message();
        match &self.inner {
            HandlerErrorKind::IoError(cause) => {
                append_causes(&mut text, &cause.sources);
            },
            HandlerErrorKind::DBError(cause)
            | HandlerErrorKind::DieselConnection(cause)
            | HandlerErrorKind::Pool(cause)
            | HandlerErrorKind::Migration(cause) => {
                text.append("\n\nCaused by: ");
                text.append(cause.message.as_str());
                append_causes(&mut text, &cause.sources);
                proof {
                    let head = seq![cause.message@];
                    assert(head.drop_last() =~= Seq::<Seq<char>>::empty());
                    assert(caused_by(head) =~= "\n\nCaused by: "@ + cause.message@) by {
                        reveal_with_fuel(caused_by, 2);
                    }
                    lemma_caused_by_concat(head, cause.spec_sources());
                }
            },
            _ => {},
        }
        text
    }
}

/// The challenge that an answer to an unauthenticated request carries.
pub open spec fn spec_challenge(realm: Seq<char>) -> Seq<char> {
    "Bearer realm=\""@ + realm + "\""@
}

impl HandlerError {
    /// The answer that reports the error: its status, and in the body the
    /// status code, the error number and the text of the error. An answer
    /// with status 401 challenges the caller for a bearer token of `realm`.
    pub fn respond_to(&self, realm: &str) -> (response: Response)
        ensures
            response.status == self.kind().spec_http_status(),
            response.body matches Body::Error { code, errno, error } && code
                == response.status.code() && errno == self.kind().spec_errno() && error@
                == self.spec_to_string(),
            match response.www_authenticate {
                Some(challenge) => response.status == Status::Unauthorized && challenge@
                    == spec_challenge(realm@),
                None => response.status != Status::Unauthorized,
            },
    {
        let status = self.inner.http_status();
        let errno = self.inner.errno();
        let www_authenticate = if status == Status::Unauthorized {
            let mut challenge = String::from_str("Bearer realm=\"");
            challenge.append(realm);
            challenge.append("\"");
            Some(challenge)
        } else {
            None
        };
        Response {
            status,
            www_authenticate,
            body: Body::Error { code: status.code(), errno, error: self.to_string() },
        }
    }
}

/// The lines of two chains, one after the other, are the lines of the joined
/// chain.
proof fn lemma_caused_by_concat(a: Seq<Seq<char>>, b: Seq<Seq<char>>)
    ensures
        caused_by(a + b) == caused_by(a) + caused_by(b),
    decreases b.len(),
{
    if b.len() == 0 {
        assert(a + b =~= a);
    } else {
        lemma_caused_by_concat(a, b.drop_last());
        assert((a + b).drop_last() =~= a + b.drop_last());
        assert((a + b).last() == b.last());
    }
}

/// Appends one `Caused by` line per message of `sources` to `text`.
fn append_causes(text: &mut String, sources: &Vec<String>)
    ensures
        final(text)@ == old(text)@ + caused_by(Seq::new(sources@.len(), |i: int| sources@[i]@)),
{
    let ghost all = Seq::new(sources@.len(), |i: int| sources@[i]@);
    let mut i: usize = 0;
    while i < sources.len()
        invariant
            i <= sources@.len(),
            all == Seq::new(sources@.len(), |i: int| sources@[i]@),
            text@ == old(text)@ + caused_by(all.take(i as int)),
        decreases sources@.len() - i,
    {
        text.append("\n\nCaused by: ");
        text.append(sources[i].as_str());
        proof {
            let upto = all.take(i + 1);
            assert(upto.drop_last() =~= all.take(i as int));
            assert(upto.last() == sources@[i as int]@);
        }
        i = i + 1;
    }
    assert(all.take(i as int) =~= all);
}

impl From<HandlerErrorKind> for HandlerError {
    fn from(kind: HandlerErrorKind) -> (err: Self) {
        HandlerError { inner: kind }
    }
}

impl vstd::std_specs::convert::FromSpecImpl<HandlerErrorKind> for HandlerError {
    open spec fn obeys_from_spec() -> bool {
        true
    }

    open spec fn from_spec(kind: HandlerErrorKind) -> Self {
        HandlerError { inner: kind }
    }
}

} // verus!
