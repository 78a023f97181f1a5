use megaphone::auth::{
    authorized_broadcaster, authorized_reader, AuthConfig, BearerTokenAuthenticator, TokenValue,
    TokensValue, UserEntry,
};
use megaphone::db::store::VersionStore;
use megaphone::error::{HandlerError, HandlerErrorKind, Status};
use megaphone::http::{
    broadcast, broadcast_response, broadcasts_response, check_broadcast, check_dump,
    get_broadcasts, heartbeat, is_urlsafe_b64, lbheartbeat, log_check, not_found, respond,
    VersionInput,
};
use megaphone::db::models::{Broadcaster, Reader};
use megaphone::response::{Body, Response};
use megaphone::string_map::StringMap;

/// Test auth headers
enum Auth {
    Foo,
    FooAlt,
    Baz,
    Reader,
}

fn header(auth: Auth) -> String {
    let token = match auth {
        Auth::Foo => "feedfacedeadbeef",
        Auth::FooAlt => "deadbeeffacefeed",
        Auth::Baz => "baada555deadbeef",
        Auth::Reader => "00000000deadbeef",
    };
    format!("Bearer {}", token)
}

fn user(user_id: &str, tokens: &[&str]) -> UserEntry {
    UserEntry {
        user_id: user_id.to_string(),
        tokens: TokensValue::Array(
            tokens.iter().map(|token| TokenValue::Token(token.to_string())).collect(),
        ),
    }
}

/// A service with an empty table, two broadcasters and one reader.
struct Client {
    authenticator: BearerTokenAuthenticator,
    conn: VersionStore,
}

fn rocket_client() -> Client {
    let config = AuthConfig {
        broadcaster_auth: Some(vec![
            user("baz", &["baada555deadbeef"]),
            user("foo", &["feedfacedeadbeef", "deadbeeffacefeed"]),
        ]),
        reader_auth: Some(vec![user("reader", &["00000000deadbeef"])]),
    };
    Client {
        authenticator: BearerTokenAuthenticator::from_config(&config).expect("rocket failed"),
        conn: VersionStore::new(),
    }
}

/// PUT /v1/broadcasts/<broadcaster_id>/<bchannel_id>
fn put(
    client: &mut Client,
    broadcaster_id: &str,
    bchannel_id: &str,
    auth: Option<Auth>,
    body: &str,
) -> Response {
    let credentials = auth.map(header);
    let broadcaster = authorized_broadcaster(
        &client.authenticator,
        credentials.as_deref(),
        Some(broadcaster_id),
    );
    let version = VersionInput::from_data(Some(body));
    respond(
        broadcast(&mut client.conn, broadcaster, broadcaster_id, bchannel_id, version),
        "development",
    )
}

/// GET /v1/broadcasts
fn get(client: &Client, auth: Option<Auth>) -> Response {
    let credentials = auth.map(header);
    let reader = authorized_reader(&client.authenticator, credentials.as_deref());
    respond(get_broadcasts(&client.conn, reader), "development")
}

fn code(response: &Response) -> u16 {
    match &response.body {
        Body::Code { code } => *code,
        Body::Error { code, .. } => *code,
        Body::Broadcasts { code, .. } => *code,
        Body::Heartbeat { code, .. } => *code,
        Body::Empty => panic!("the answer has no body"),
    }
}

fn error(response: &Response) -> &str {
    match &response.body {
        Body::Error { error, .. } => error,
        _ => panic!("the answer reports no error"),
    }
}

#[test]
fn test_put() {
    let mut client = rocket_client();
    let response = put(&mut client, "foo", "bar", Some(Auth::Foo), "v0");
    assert_eq!(response.status, Status::Created);
    assert!(matches!(response.body, Body::Code { code: 201 }));
    let response = put(&mut client, "foo", "bar", Some(Auth::FooAlt), "v1");
    assert_eq!(response.status, Status::OK);
    assert!(matches!(response.body, Body::Code { code: 200 }));
}

#[test]
fn test_put_no_body() {
    let mut client = rocket_client();
    let response = put(&mut client, "foo", "bar", Some(Auth::Foo), "");
    assert_eq!(response.status, Status::BadRequest);
    assert_eq!(code(&response), Status::BadRequest.code());
    assert!(error(&response).contains("Version"));
}

#[test]
fn test_put_no_id() {
    let response = match not_found() {
        Err(e) => e.respond_to("development"),
        Ok(()) => panic!("a path without a route was found"),
    };
    assert_eq!(response.status, Status::NotFound);
    match response.body {
        Body::Error { code, errno, error } => {
            assert_eq!(code, 404);
            assert_eq!(errno, 123);
            assert_eq!(error, "Not Found");
        }
        _ => panic!("the answer reports no error"),
    }
}

#[test]
fn test_put_no_auth() {
    let mut client = rocket_client();
    let response = put(&mut client, "foo", "bar", None, "v1");
    assert_eq!(response.status, Status::Unauthorized);
    assert!(response
        .www_authenticate
        .as_deref()
        .unwrap()
        .starts_with("Bearer "));
    assert_eq!(code(&response), 401);
}

#[test]
fn test_put_bad_auth() {
    let mut client = rocket_client();
    let response = put(&mut client, "foo", "bar", Some(Auth::Baz), "v1");
    assert_eq!(response.status, Status::Forbidden);
    assert_eq!(code(&response), 403);
}

#[test]
fn test_put_bad_ids() {
    let mut client = rocket_client();
    let response = put(&mut client, "foo+bar", "baz", Some(Auth::Baz), "v1");
    assert_eq!(response.status, Status::BadRequest);
    assert_eq!(code(&response), 400);
    assert!(error(&response).contains("broadcasterID"));

    let response = put(&mut client, "foo", "bar+baz", Some(Auth::Baz), "v1");
    assert_eq!(response.status, Status::BadRequest);
    assert_eq!(code(&response), 400);
    assert!(error(&response).contains("bchannelID"));
}

#[test]
fn test_put_bad_version() {
    let mut client = rocket_client();
    let response = put(&mut client, "foo", "bar", Some(Auth::Baz), &"v1".repeat(101));
    assert_eq!(response.status, Status::BadRequest);
    assert_eq!(code(&response), 400);
    assert!(error(&response).contains("Version"));
}

#[test]
fn test_get_no_auth() {
    let client = rocket_client();
    let response = get(&client, None);
    assert_eq!(response.status, Status::Unauthorized);
    assert!(response
        .www_authenticate
        .as_deref()
        .unwrap()
        .starts_with("Bearer "));
    assert_eq!(code(&response), 401);
}

#[test]
fn test_get_bad_auth() {
    let client = rocket_client();
    let response = get(&client, Some(Auth::Foo));
    assert_eq!(response.status, Status::Forbidden);
    assert_eq!(code(&response), 403);
}

#[test]
fn test_put_get() {
    let mut client = rocket_client();
    let _ = put(&mut client, "foo", "bar", Some(Auth::FooAlt), "v1");
    let _ = put(&mut client, "baz", "quux", Some(Auth::Baz), "v0");
    let response = get(&client, Some(Auth::Reader));
    assert_eq!(response.status, Status::OK);
    match response.body {
        Body::Broadcasts { code, broadcasts } => {
            assert_eq!(code, 200);
            assert_eq!(broadcasts.len(), 2);
            assert_eq!(broadcasts.get("baz/quux"), Some(&"v0".to_string()));
            assert_eq!(broadcasts.get("foo/bar"), Some(&"v1".to_string()));
        }
        _ => panic!("the answer holds no broadcasts"),
    }
}

#[test]
fn test_heartbeat() {
    let response = heartbeat(Ok(()));
    assert_eq!(response.status, Status::OK);
    match response.body {
        Body::Heartbeat { status, code, database } => {
            assert_eq!(code, 200);
            assert_eq!(database, "ok");
            assert_eq!(status, "ok");
        }
        _ => panic!("the answer is no heartbeat"),
    }
}

#[test]
fn test_lbheartbeat() {
    let response = lbheartbeat();
    assert_eq!(response.status, Status::OK);
    assert!(matches!(response.body, Body::Empty));
}

#[test]
fn test_heartbeat_database_down() {
    let response = heartbeat(Err(HandlerError::internal("gone".to_string())));
    assert_eq!(response.status, Status::ServiceUnavailable);
    assert!(response.www_authenticate.is_none());
    match response.body {
        Body::Heartbeat { status, code, database } => {
            assert_eq!(code, 503);
            assert_eq!(database, "error");
            assert_eq!(status, "error");
        }
        _ => panic!("the answer is no heartbeat"),
    }
}

#[test]
fn test_put_rejected_leaves_table() {
    let mut client = rocket_client();
    let _ = put(&mut client, "foo", "bar", Some(Auth::Baz), "v1");
    let _ = put(&mut client, "foo", "bar", None, "v1");
    let _ = put(&mut client, "foo", "bar", Some(Auth::Reader), "v1");
    let _ = put(&mut client, "foo+", "bar", Some(Auth::Foo), "v1");
    let _ = put(&mut client, "foo", "bar", Some(Auth::Foo), "v\u{e9}");
    assert_eq!(client.conn.rows().len(), 0);
}

#[test]
fn test_put_same_version_twice() {
    let mut client = rocket_client();
    let response = put(&mut client, "foo", "bar", Some(Auth::Foo), "v0");
    assert_eq!(response.status, Status::Created);
    let response = put(&mut client, "foo", "bar", Some(Auth::Foo), "v0");
    assert_eq!(response.status, Status::OK);
    assert_eq!(client.conn.version("foo", "bar"), Some(&"v0".to_string()));
}

#[test]
fn test_get_empty() {
    let client = rocket_client();
    let response = get(&client, Some(Auth::Reader));
    assert_eq!(response.status, Status::OK);
    match response.body {
        Body::Broadcasts { code, broadcasts } => {
            assert_eq!(code, 200);
            assert!(broadcasts.is_empty());
        }
        _ => panic!("the answer holds no broadcasts"),
    }
}

#[test]
fn test_urlsafe_b64() {
    assert!(is_urlsafe_b64("foo"));
    assert!(is_urlsafe_b64("AZaz09-_"));
    assert!(is_urlsafe_b64("-"));
    assert!(!is_urlsafe_b64(""));
    assert!(!is_urlsafe_b64("foo+bar"));
    assert!(!is_urlsafe_b64("foo/bar"));
    assert!(!is_urlsafe_b64("foo bar"));
    assert!(!is_urlsafe_b64("foo="));
    assert!(!is_urlsafe_b64("foo\n"));
    assert!(!is_urlsafe_b64("f\u{f6}o"));
    assert!(!is_urlsafe_b64("@"));
    assert!(!is_urlsafe_b64("["));
    assert!(!is_urlsafe_b64("`"));
    assert!(!is_urlsafe_b64("{"));
    assert!(!is_urlsafe_b64("/"));
    assert!(!is_urlsafe_b64(":"));
}

#[test]
fn test_id_lengths() {
    let broadcaster = || Ok(Broadcaster::new("foo".to_string()));
    let version = || VersionInput::from_data(Some("v1"));

    assert!(check_broadcast(Ok(()), broadcaster(), &"a".repeat(64), "bar", version()).is_ok());
    let too_long = check_broadcast(Ok(()), broadcaster(), &"a".repeat(65), "bar", version());
    assert!(matches!(too_long.unwrap_err().kind(), HandlerErrorKind::InvalidBroadcasterId));
    let empty = check_broadcast(Ok(()), broadcaster(), "", "bar", version());
    assert!(matches!(empty.unwrap_err().kind(), HandlerErrorKind::InvalidBroadcasterId));

    assert!(check_broadcast(Ok(()), broadcaster(), "foo", &"a".repeat(128), version()).is_ok());
    let too_long = check_broadcast(Ok(()), broadcaster(), "foo", &"a".repeat(129), version());
    assert!(matches!(too_long.unwrap_err().kind(), HandlerErrorKind::InvalidBchannelId));
    let empty = check_broadcast(Ok(()), broadcaster(), "foo", "", version());
    assert!(matches!(empty.unwrap_err().kind(), HandlerErrorKind::InvalidBchannelId));
}

#[test]
fn test_version_input() {
    assert_eq!(VersionInput::from_data(Some("v1")).unwrap().value, "v1");
    assert_eq!(
        VersionInput::from_data(Some(&"a".repeat(200))).unwrap().value,
        "a".repeat(200)
    );
    let too_long = VersionInput::from_data(Some(&"a".repeat(201)));
    assert!(matches!(too_long.unwrap_err().kind(), HandlerErrorKind::InvalidVersionDataError));
    let empty = VersionInput::from_data(Some(""));
    assert!(matches!(empty.unwrap_err().kind(), HandlerErrorKind::InvalidVersionDataError));
    let not_ascii = VersionInput::from_data(Some("v\u{e9}"));
    assert!(matches!(not_ascii.unwrap_err().kind(), HandlerErrorKind::InvalidVersionDataError));
    let unreadable = VersionInput::from_data(None);
    assert!(matches!(unreadable.unwrap_err().kind(), HandlerErrorKind::MissingVersionDataError));
}

#[test]
fn test_check_broadcast_order() {
    let gone = || Err(HandlerError::from(HandlerErrorKind::TestError));
    let denied = || Err(HandlerError::from(HandlerErrorKind::Unauthorized));
    let no_version = || VersionInput::from_data(None);

    // the connection counts first
    let r = check_broadcast(gone(), denied(), "foo+", "bar+", no_version());
    assert!(matches!(r.unwrap_err().kind(), HandlerErrorKind::TestError));
    // then the broadcaster id
    let r = check_broadcast(Ok(()), denied(), "foo+", "bar+", no_version());
    assert!(matches!(r.unwrap_err().kind(), HandlerErrorKind::InvalidBroadcasterId));
    // then the channel id
    let r = check_broadcast(Ok(()), denied(), "foo", "bar+", no_version());
    assert!(matches!(r.unwrap_err().kind(), HandlerErrorKind::InvalidBchannelId));
    // then the body
    let r = check_broadcast(Ok(()), denied(), "foo", "bar", no_version());
    assert!(matches!(r.unwrap_err().kind(), HandlerErrorKind::MissingVersionDataError));
    // then the caller
    let r = check_broadcast(Ok(()), denied(), "foo", "bar", VersionInput::from_data(Some("v1")));
    assert!(matches!(r.unwrap_err().kind(), HandlerErrorKind::Unauthorized));

    let (broadcaster, version) = check_broadcast(
        Ok(()),
        Ok(Broadcaster::new("foo".to_string())),
        "foo",
        "bar",
        VersionInput::from_data(Some("v1")),
    )
    .unwrap();
    assert_eq!(broadcaster.id, "foo");
    assert_eq!(version.value, "v1");
}

#[test]
fn test_check_dump_order() {
    let gone = || Err(HandlerError::from(HandlerErrorKind::TestError));
    let denied = || Err(HandlerError::from(HandlerErrorKind::Unauthorized));

    let r = check_dump(gone(), denied());
    assert!(matches!(r.unwrap_err().kind(), HandlerErrorKind::TestError));
    let r = check_dump(gone(), Ok(Reader::new("otto".to_string())));
    assert!(matches!(r.unwrap_err().kind(), HandlerErrorKind::TestError));
    let r = check_dump(Ok(()), denied());
    assert!(matches!(r.unwrap_err().kind(), HandlerErrorKind::Unauthorized));
    let r = check_dump(Ok(()), Ok(Reader::new("otto".to_string())));
    assert_eq!(r.unwrap().id, "otto");
}

#[test]
fn test_responses() {
    let created = broadcast_response(true);
    assert_eq!(created.status, Status::Created);
    assert!(matches!(created.body, Body::Code { code: 201 }));
    assert!(created.www_authenticate.is_none());
    let updated = broadcast_response(false);
    assert_eq!(updated.status, Status::OK);
    assert!(matches!(updated.body, Body::Code { code: 200 }));

    let mut broadcasts = StringMap::new();
    broadcasts.insert("foo/bar".to_string(), "v1".to_string());
    let dump = broadcasts_response(broadcasts);
    assert_eq!(dump.status, Status::OK);
    match dump.body {
        Body::Broadcasts { code, broadcasts } => {
            assert_eq!(code, 200);
            assert_eq!(broadcasts.get("foo/bar"), Some(&"v1".to_string()));
        }
        _ => panic!("the answer holds no broadcasts"),
    }
}

#[test]
fn test_log_check() {
    let response = respond(log_check(Ok(())), "development");
    assert_eq!(response.status, Status::BadRequest);
    match response.body {
        Body::Error { code, errno, error } => {
            assert_eq!(code, 400);
            assert_eq!(errno, 413);
            assert_eq!(error, "Oh Noes!");
        }
        _ => panic!("the answer reports no error"),
    }
}
