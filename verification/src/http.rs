//! What each route of the service decides, from plain values to an answer.
//!
//! The routes that reach the table come twice: whole, on the table in
//! memory, and in the steps around the table, for a server that keeps the
//! table elsewhere.

use crate::db::laws::{broadcasters_slash_free, lemma_upsert_slash_free, slash_free};
use crate::db::models::{spec_snapshot, Broadcaster, Reader};
use crate::db::store::{has_broadcast, spec_upsert, VersionStore};
use crate::error::{HandlerError, HandlerErrorKind, HandlerResult, Status};
use crate::response::{Body, Response};
use crate::string_map::StringMap;
use vstd::prelude::*;
use vstd::string::*;
use vstd::utf8::is_ascii_chars;

verus! {

/// The characters of URL safe base64: letters, digits, `-` and `_`.
pub open spec fn is_urlsafe_b64_char(c: char) -> bool {
    ||| 'A' <= c <= 'Z'
    ||| 'a' <= c <= 'z'
    ||| '0' <= c <= '9'
    ||| c == '-'
    ||| c == '_'
}

/// One character or more, each of URL safe base64.
pub open spec fn spec_is_urlsafe_b64(id: Seq<char>) -> bool {
    id.len() > 0 && forall|i: int| 0 <= i < id.len() ==> is_urlsafe_b64_char(#[trigger] id[i])
}

/// A broadcaster id is URL safe base64 of at most 64 characters.
pub open spec fn valid_broadcaster_id(id: Seq<char>) -> bool {
    id.len() <= 64 && spec_is_urlsafe_b64(id)
}

/// A channel id is URL safe base64 of at most 128 characters.
pub open spec fn valid_bchannel_id(id: Seq<char>) -> bool {
    id.len() <= 128 && spec_is_urlsafe_b64(id)
}

/// A version is ASCII, of at least one and at most 200 characters.
pub open spec fn valid_version(version: Seq<char>) -> bool {
    0 < version.len() <= 200 && is_ascii_chars(version)
}

/// Whether `id` is one character or more, each of URL safe base64.
pub fn is_urlsafe_b64(id: &str) -> (valid: bool)
    ensures
        valid == spec_is_urlsafe_b64(id@),
{
    if !id.is_ascii() {
        proof {
            let i = choose|i: int| 0 <= i < id@.len() && !('\0' <= #[trigger] id@[i] <= '\u{7f}');
            assert(!is_urlsafe_b64_char(id@[i]));
        }
        return false;
    }
    proof {
        is_ascii_spec_bytes(id);
    }
    let bytes = id.as_bytes();
    let len = bytes.len();
    if len == 0 {
        return false;
    }
    let mut i: usize = 0;
    while i < len
        invariant
            i <= len,
            len == id@.len(),
            len == bytes@.len(),
            is_ascii(id),
            forall|j: int| 0 <= j < len ==> bytes@[j] == id@[j] as u8,
            forall|j: int| 0 <= j < i ==> is_urlsafe_b64_char(#[trigger] id@[j]),
        decreases len - i,
    {
        let byte = bytes[i];
        let ghost c = id@[i as int];
        assert('\0' <= c <= '\u{7f}');
        assert(byte == c as u8);
        if !((byte >= 0x41 && byte <= 0x5a) || (byte >= 0x61 && byte <= 0x7a) || (byte >= 0x30
            && byte <= 0x39) || byte == 0x2d || byte == 0x5f) {
            assert(!is_urlsafe_b64_char(c));
            return false;
        }
        assert(is_urlsafe_b64_char(c));
        i = i + 1;
    }
    true
}

/// Whether `id` is URL safe base64 of at most `max` characters.
fn is_id_within(id: &str, max: usize) -> (valid: bool)
    ensures
        valid == (id@.len() <= max && spec_is_urlsafe_b64(id@)),
{
    if id.as_bytes().len() > max {
        proof {
            if is_ascii(id) {
                is_ascii_spec_bytes(id);
            } else {
                let i = choose|i: int|
                    0 <= i < id@.len() && !('\0' <= #[trigger] id@[i] <= '\u{7f}');
                assert(!is_urlsafe_b64_char(id@[i]));
            }
        }
        return false;
    }
    let valid = is_urlsafe_b64(id);
    proof {
        if valid {
            assert(is_ascii(id)) by {
                assert forall|i: int| 0 <= i < id@.len() implies '\0' <= #[trigger] id@[i]
                    <= '\u{7f}' by {
                    assert(is_urlsafe_b64_char(id@[i]));
                }
            }
            is_ascii_spec_bytes(id);
        }
    }
    valid
}

/// No character of URL safe base64 is a slash, so no valid broadcaster id
/// holds one.
pub proof fn lemma_valid_id_slash_free(id: Seq<char>)
    requires
        spec_is_urlsafe_b64(id),
    ensures
        slash_free(id),
{
    assert forall|p: int| 0 <= p < id.len() implies id[p] != '/' by {
        assert(is_urlsafe_b64_char(id[p]));
    }
}

/// A new broadcast
#[derive(Debug)]
pub struct VersionInput {
    pub value: String,
}

impl VersionInput {
    /// The version that the body of a request holds. `None` stands for a
    /// body that could not be read as text.
    pub fn from_data(data: Option<&str>) -> (r: HandlerResult<VersionInput>)
        ensures
            match r {
                Ok(version) => data matches Some(text) && version.value@ == text@
                    && valid_version(text@),
                Err(e) => match data {
                    None => e.kind() is MissingVersionDataError,
                    Some(text) => e.kind() is InvalidVersionDataError && !valid_version(text@),
                },
            },
    {
        let text = match data {
            None => {
                return Err(HandlerError::from(HandlerErrorKind::MissingVersionDataError));
            },
            Some(text) => text,
        };
        proof {
            is_ascii_spec_bytes(text);
        }
        if text.is_empty() || !text.is_ascii() || text.as_bytes().len() > 200 {
            return Err(HandlerError::from(HandlerErrorKind::InvalidVersionDataError));
        }
        Ok(VersionInput { value: String::from_str(text) })
    }
}

/// What a request to set a version comes to before anybody asks who sent
/// it. The first of these that went wrong decides: the connection to the
/// table, the broadcaster id of the path, the channel id of the path, the
/// body.
pub open spec fn spec_check_request(
    conn: HandlerResult<()>,
    broadcaster_id: Seq<char>,
    bchannel_id: Seq<char>,
    version: HandlerResult<VersionInput>,
) -> HandlerResult<VersionInput> {
    if conn is Err {
        Err(conn->Err_0)
    } else if !valid_broadcaster_id(broadcaster_id) {
        Err(HandlerError { inner: HandlerErrorKind::InvalidBroadcasterId })
    } else if !valid_bchannel_id(bchannel_id) {
        Err(HandlerError { inner: HandlerErrorKind::InvalidBchannelId })
    } else {
        version
    }
}

/// What a request to set a version comes to before the table is touched:
/// what [`spec_check_request`] finds decides first, then the caller.
pub open spec fn spec_check_broadcast(
    conn: HandlerResult<()>,
    broadcaster: HandlerResult<Broadcaster>,
    broadcaster_id: Seq<char>,
    bchannel_id: Seq<char>,
    version: HandlerResult<VersionInput>,
) -> HandlerResult<(Broadcaster, VersionInput)> {
    match spec_check_request(conn, broadcaster_id, bchannel_id, version) {
        Err(e) => Err(e),
        Ok(version) => match broadcaster {
            Err(e) => Err(e),
            Ok(broadcaster) => Ok((broadcaster, version)),
        },
    }
}

/// Checks a request to set a version, but for its caller: the connection to
/// the table, the two ids of the path, and the body.
pub fn check_request(
    conn: HandlerResult<()>,
    broadcaster_id: &str,
    bchannel_id: &str,
    version: HandlerResult<VersionInput>,
) -> (r: HandlerResult<VersionInput>)
    ensures
        r == spec_check_request(conn, broadcaster_id@, bchannel_id@, version),
{
    match conn {
        Err(e) => {
            return Err(e);
        },
        Ok(()) => {},
    }
    if !is_id_within(broadcaster_id, 64) {
        return Err(HandlerError::from(HandlerErrorKind::InvalidBroadcasterId));
    }
    if !is_id_within(bchannel_id, 128) {
        return Err(HandlerError::from(HandlerErrorKind::InvalidBchannelId));
    }
    version
}

/// Decides whether a request to set a version reaches the table, and with
/// which broadcaster and version.
pub fn check_broadcast(
    conn: HandlerResult<()>,
    broadcaster: HandlerResult<Broadcaster>,
    broadcaster_id: &str,
    bchannel_id: &str,
    version: HandlerResult<VersionInput>,
) -> (r: HandlerResult<(Broadcaster, VersionInput)>)
    ensures
        r == spec_check_broadcast(conn, broadcaster, broadcaster_id@, bchannel_id@, version),
{
    let version = match check_request(conn, broadcaster_id, bchannel_id, version) {
        Err(e) => {
            return Err(e);
        },
        Ok(version) => version,
    };
    let broadcaster = match broadcaster {
        Err(e) => {
            return Err(e);
        },
        Ok(broadcaster) => broadcaster,
    };
    Ok((broadcaster, version))
}

/// The status that tells whether a version that was set made a new
/// broadcast.
pub open spec fn spec_broadcast_status(created: bool) -> Status {
    if created {
        Status::Created
    } else {
        Status::OK
    }
}

/// The answer to a version that was set: 201 where that made a new
/// broadcast, 200 where the broadcast was there.
pub fn broadcast_response(created: bool) -> (response: Response)
    ensures
        response.status == spec_broadcast_status(created),
        response.www_authenticate is None,
        response.body == (Body::Code { code: response.status.code() }),
{
    let status = if created {
        Status::Created
    } else {
        Status::OK
    };
    Response { status, www_authenticate: None, body: Body::Code { code: status.code() } }
}

/// Set a version for a broadcaster / bchannel
pub fn broadcast(
    conn: &mut VersionStore,
    broadcaster: HandlerResult<Broadcaster>,
    broadcaster_id: &str,
    bchannel_id: &str,
    version: HandlerResult<VersionInput>,
) -> (r: HandlerResult<Response>)
    ensures
        match spec_check_broadcast(Ok(()), broadcaster, broadcaster_id@, bchannel_id@, version) {
            Err(e) => r == Err::<Response, HandlerError>(e) && final(conn)@ == old(conn)@,
            Ok((broadcaster, version)) => {
                &&& final(conn)@ == spec_upsert(
                    old(conn)@,
                    broadcaster.id@,
                    bchannel_id@,
                    version.value@,
                )
                &&& r matches Ok(response)
                &&& response.status == spec_broadcast_status(
                    !has_broadcast(old(conn)@, broadcaster.id@, bchannel_id@),
                )
                &&& response.www_authenticate is None
                &&& response.body == (Body::Code { code: response.status.code() })
                &&& broadcasters_slash_free(old(conn)@) && broadcaster.id@ == broadcaster_id@
                    ==> broadcasters_slash_free(final(conn)@)
            },
        },
{
    proof {
        if let Ok((caller, input)) = spec_check_broadcast(
            Ok(()),
            broadcaster,
            broadcaster_id@,
            bchannel_id@,
            version,
        ) {
            if caller.id@ == broadcaster_id@ {
                lemma_valid_id_slash_free(broadcaster_id@);
                lemma_upsert_slash_free(conn@, caller.id@, bchannel_id@, input.value@);
            }
        }
    }
    let (broadcaster, version) = match check_broadcast(
        Ok(()),
        broadcaster,
        broadcaster_id,
        bchannel_id,
        version,
    ) {
        Err(e) => {
            return Err(e);
        },
        Ok(checked) => checked,
    };
    let created = match broadcaster.broadcast_new_version(
        conn,
        bchannel_id,
        version.value.as_str(),
    ) {
        Err(e) => {
            return Err(e);
        },
        Ok(created) => created,
    };
    Ok(broadcast_response(created))
}

/// What a request for the snapshot comes to before the table is read: the
/// connection to the table decides first, then the caller.
pub open spec fn spec_check_dump(conn: HandlerResult<()>, reader: HandlerResult<Reader>) -> HandlerResult<
    Reader,
> {
    if conn is Err {
        Err(conn->Err_0)
    } else {
        reader
    }
}

/// Decides whether a request for the snapshot reaches the table.
pub fn check_dump(conn: HandlerResult<()>, reader: HandlerResult<Reader>) -> (r: HandlerResult<
    Reader,
>)
    ensures
        r == spec_check_dump(conn, reader),
{
    match conn {
        Err(e) => Err(e),
        Ok(()) => reader,
    }
}

/// The answer that carries a snapshot.
pub fn broadcasts_response(broadcasts: StringMap) -> (response: Response)
    ensures
        response.status == Status::OK,
        response.www_authenticate is None,
        response.body == (Body::Broadcasts { code: 200, broadcasts }),
{
    Response {
        status: Status::OK,
        www_authenticate: None,
        body: Body::Broadcasts { code: 200, broadcasts },
    }
}

/// Dump the current version table
pub fn get_broadcasts(conn: &VersionStore, reader: HandlerResult<Reader>) -> (r: HandlerResult<
    Response,
>)
    ensures
        match reader {
            Err(e) => r == Err::<Response, HandlerError>(e),
            Ok(_) => {
                &&& r matches Ok(response)
                &&& response.status == Status::OK
                &&& response.www_authenticate is None
                &&& response.body matches Body::Broadcasts { code, broadcasts }
                &&& code == 200
                &&& broadcasts@ == spec_snapshot(conn@)
            },
        },
{
    let reader = match check_dump(Ok(()), reader) {
        Err(e) => {
            return Err(e);
        },
        Ok(reader) => reader,
    };
    let broadcasts = match reader.read_broadcasts(conn) {
        Err(e) => {
            return Err(e);
        },
        Ok(broadcasts) => broadcasts,
    };
    Ok(broadcasts_response(broadcasts))
}

/// The answer of the route that is there to fail.
pub fn log_check(conn: HandlerResult<()>) -> (r: HandlerResult<Response>)
    ensures
        r matches Err(e) && e.kind() is TestError,
{
    Err(HandlerError::from(HandlerErrorKind::TestError))
}

/// The word that a heartbeat says of the service and of the database.
pub open spec fn spec_heartbeat_word(healthy: bool) -> Seq<char> {
    if healthy {
        "ok"@
    } else {
        "error"@
    }
}

/// The answer to a heartbeat, by what became of a trivial query to the
/// database: 200 and `ok` where it was served, 503 and `error` where not.
pub fn heartbeat(result: HandlerResult<()>) -> (response: Response)
    ensures
        response.status == if result is Ok {
            Status::OK
        } else {
            Status::ServiceUnavailable
        },
        response.www_authenticate is None,
        response.body matches Body::Heartbeat { status, code, database } && code
            == response.status.code() && status@ == spec_heartbeat_word(result is Ok) && database@
            == spec_heartbeat_word(result is Ok),
{
    let status = match result {
        Ok(_) => Status::OK,
        Err(_) => Status::ServiceUnavailable,
    };
    let msg = if status == Status::OK {
        "ok"
    } else {
        "error"
    };
    Response {
        status,
        www_authenticate: None,
        body: Body::Heartbeat {
            status: String::from_str(msg),
            code: status.code(),
            database: String::from_str(msg),
        },
    }
}

/// The answer to a heartbeat of the load balancer: 200 without a body.
pub fn lbheartbeat() -> (response: Response)
    ensures
        response.status == Status::OK,
        response.www_authenticate is None,
        response.body is Empty,
{
    Response { status: Status::OK, www_authenticate: None, body: Body::Empty }
}

/// What a request to a path without a route comes to.
pub fn not_found() -> (r: HandlerResult<()>)
    ensures
        r matches Err(e) && e.kind() is NotFound,
{
    Err(HandlerError::from(HandlerErrorKind::NotFound))
}

/// The answer to send for what a route came to: the answer itself, or the
/// one that reports the error.
pub fn respond(result: HandlerResult<Response>, realm: &str) -> (response: Response)
    ensures
        match result {
            Ok(answer) => response == answer,
            Err(e) => {
                &&& response.status == e.kind().spec_http_status()
                &&& response.body matches Body::Error { code, errno, error }
                &&& code == response.status.code()
                &&& errno == e.kind().spec_errno()
                &&& error@ == e.spec_to_string()
                &&& match response.www_authenticate {
                    Some(challenge) => response.status == Status::Unauthorized && challenge@
                        == crate::error::spec_challenge(realm@),
                    None => response.status != Status::Unauthorized,
                }
            },
        },
{
    match result {
        Ok(response) => response,
        Err(e) => e.respond_to(realm),
    }
}

} // verus!
