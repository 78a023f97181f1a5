use megaphone::error::{Cause, HandlerError, HandlerErrorKind, Status};
use megaphone::response::Body;

fn cause(message: &str, sources: &[&str]) -> Cause {
    Cause {
        message: message.to_string(),
        sources: sources.iter().map(|source| source.to_string()).collect(),
    }
}

fn check(kind: HandlerErrorKind, status: Status, code: u16, errno: i32, message: &str) {
    assert_eq!(kind.http_status(), status);
    assert_eq!(kind.http_status().code(), code);
    assert_eq!(kind.errno(), errno);
    assert_eq!(kind.message(), message);
}

#[test]
fn test_status_codes() {
    assert_eq!(Status::OK.code(), 200);
    assert_eq!(Status::Created.code(), 201);
    assert_eq!(Status::BadRequest.code(), 400);
    assert_eq!(Status::Unauthorized.code(), 401);
    assert_eq!(Status::Forbidden.code(), 403);
    assert_eq!(Status::NotFound.code(), 404);
    assert_eq!(Status::InternalServerError.code(), 500);
    assert_eq!(Status::ServiceUnavailable.code(), 503);
}

#[test]
fn test_error_kinds() {
    check(
        HandlerErrorKind::InvalidBroadcasterId,
        Status::BadRequest,
        400,
        100,
        "Invalid broadcasterID (must be URL safe base64, <= 64 characters)",
    );
    check(
        HandlerErrorKind::InvalidBchannelId,
        Status::BadRequest,
        400,
        101,
        "Invalid bchannelID (must be URL safe base64, <= 128 characters)",
    );
    check(
        HandlerErrorKind::MissingVersionDataError,
        Status::BadRequest,
        400,
        102,
        "Version information not included in body of update",
    );
    check(
        HandlerErrorKind::InvalidVersionDataError,
        Status::BadRequest,
        400,
        103,
        "Invalid Version (must be ASCII, <= 200 characters)",
    );
    check(
        HandlerErrorKind::MissingAuth,
        Status::Unauthorized,
        401,
        120,
        "Missing authorization header",
    );
    check(
        HandlerErrorKind::InvalidAuth,
        Status::Unauthorized,
        401,
        121,
        "Invalid authorization header",
    );
    check(
        HandlerErrorKind::Unauthorized,
        Status::Forbidden,
        403,
        122,
        "Access denied to the requested resource",
    );
    check(HandlerErrorKind::NotFound, Status::NotFound, 404, 123, "Not Found");
    check(
        HandlerErrorKind::InternalError("boom".to_string()),
        Status::InternalServerError,
        500,
        201,
        "Unexpected megaphone error: boom",
    );
    check(
        HandlerErrorKind::IoError(cause("broken pipe", &[])),
        Status::InternalServerError,
        500,
        201,
        "broken pipe",
    );
    check(
        HandlerErrorKind::DBError(cause("no such table", &[])),
        Status::ServiceUnavailable,
        503,
        202,
        "A database error occurred: no such table",
    );
    check(
        HandlerErrorKind::DieselConnection(cause("refused", &[])),
        Status::ServiceUnavailable,
        503,
        202,
        "An error occurred while establishing a db connection: refused",
    );
    check(
        HandlerErrorKind::Pool(cause("timed out", &[])),
        Status::ServiceUnavailable,
        503,
        202,
        "A database pool error occurred: timed out",
    );
    check(
        HandlerErrorKind::Migration(cause("bad migration", &[])),
        Status::ServiceUnavailable,
        503,
        202,
        "Error migrating the database: bad migration",
    );
    check(HandlerErrorKind::TestError, Status::BadRequest, 400, 413, "Oh Noes!");
}

#[test]
fn test_error_text() {
    let plain = HandlerError::from(HandlerErrorKind::NotFound);
    assert_eq!(plain.to_string(), "Not Found");

    let internal = HandlerError::internal("boom".to_string());
    assert!(matches!(internal.kind(), HandlerErrorKind::InternalError(msg) if msg == "boom"));
    assert_eq!(internal.to_string(), "Unexpected megaphone error: boom");

    let db = HandlerError::from(HandlerErrorKind::DBError(cause("no such table", &[])));
    assert_eq!(
        db.to_string(),
        "A database error occurred: no such table\n\nCaused by: no such table"
    );

    let pool = HandlerError::from(HandlerErrorKind::Pool(cause(
        "timed out",
        &["refused", "unreachable"],
    )));
    assert_eq!(
        pool.to_string(),
        "A database pool error occurred: timed out\n\nCaused by: timed out\n\nCaused by: refused\n\nCaused by: unreachable"
    );

    let io = HandlerError::from(HandlerErrorKind::IoError(cause("broken pipe", &[])));
    assert_eq!(io.to_string(), "broken pipe");
    let io = HandlerError::from(HandlerErrorKind::IoError(cause("broken pipe", &["reset"])));
    assert_eq!(io.to_string(), "broken pipe\n\nCaused by: reset");
}

#[test]
fn test_respond_to() {
    let missing = HandlerError::from(HandlerErrorKind::MissingAuth).respond_to("development");
    assert_eq!(missing.status, Status::Unauthorized);
    assert_eq!(
        missing.www_authenticate.as_deref(),
        Some("Bearer realm=\"development\"")
    );
    match missing.body {
        Body::Error { code, errno, error } => {
            assert_eq!(code, 401);
            assert_eq!(errno, 120);
            assert_eq!(error, "Missing authorization header");
        }
        _ => panic!("the answer reports no error"),
    }

    let invalid = HandlerError::from(HandlerErrorKind::InvalidAuth).respond_to("production");
    assert_eq!(invalid.status, Status::Unauthorized);
    assert_eq!(
        invalid.www_authenticate.as_deref(),
        Some("Bearer realm=\"production\"")
    );

    let denied = HandlerError::from(HandlerErrorKind::Unauthorized).respond_to("development");
    assert_eq!(denied.status, Status::Forbidden);
    assert!(denied.www_authenticate.is_none());
    match denied.body {
        Body::Error { code, errno, error } => {
            assert_eq!(code, 403);
            assert_eq!(errno, 122);
            assert_eq!(error, "Access denied to the requested resource");
        }
        _ => panic!("the answer reports no error"),
    }

    let db = HandlerError::from(HandlerErrorKind::DBError(cause("gone", &[])))
        .respond_to("development");
    assert_eq!(db.status, Status::ServiceUnavailable);
    assert!(db.www_authenticate.is_none());
    match db.body {
        Body::Error { code, errno, error } => {
            assert_eq!(code, 503);
            assert_eq!(errno, 202);
            assert_eq!(error, "A database error occurred: gone\n\nCaused by: gone");
        }
        _ => panic!("the answer reports no error"),
    }
}
