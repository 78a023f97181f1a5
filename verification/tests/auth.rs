use std::collections::BTreeMap;

use megaphone::auth::{
    authenticated_user, authorized_broadcaster, authorized_reader, bearer_token, AuthConfig,
    BearerTokenAuthenticator, ConfigError, Group, TokenValue, TokensValue, UserEntry,
};
use megaphone::error::HandlerErrorKind;

/// A table of users: each of `vals` is a user id, `=`, and the user's
/// tokens with commas between them. The users come in the order of their ids.
fn to_table(vals: Vec<&str>) -> Vec<UserEntry> {
    let mut table = BTreeMap::new();
    for val in vals {
        let mut vargs = Vec::new();
        let bits: Vec<&str> = val.splitn(2, '=').collect();
        let key = bits[0];
        let items = bits[1];
        for item in items.split(',') {
            vargs.push(TokenValue::Token(item.to_string()));
        }
        table.insert(key.to_string(), vargs);
    }
    table
        .into_iter()
        .map(|(user_id, tokens)| UserEntry {
            user_id,
            tokens: TokensValue::Array(tokens),
        })
        .collect()
}

fn config(broadcasters: Vec<&str>, readers: Vec<&str>) -> AuthConfig {
    AuthConfig {
        broadcaster_auth: Some(to_table(broadcasters)),
        reader_auth: Some(to_table(readers)),
    }
}

#[test]
fn test_basic() {
    let config = config(["foo=bar", "baz=quux,wobble"].to_vec(), ["otto=push"].to_vec());
    let authenicator = BearerTokenAuthenticator::from_config(&config).unwrap();

    assert_eq!(
        authenicator.authenticated_user("Bearer quux").unwrap(),
        ("baz".to_string(), Group::Broadcaster)
    );
    assert_eq!(
        authenicator.authenticated_user("Bearer wobble").unwrap(),
        ("baz".to_string(), Group::Broadcaster)
    );
    assert_eq!(
        authenicator.authenticated_user("Bearer push").unwrap(),
        ("otto".to_string(), Group::Reader)
    );
    assert!(authenicator.authenticated_user("Bearer mega").is_err());
}

#[test]
fn test_dupe_token() {
    let config = config(["foo=bar", "baz=bar"].to_vec(), ["otto=push"].to_vec());
    assert!(BearerTokenAuthenticator::from_config(&config).is_err());
}

#[test]
fn test_dupe_token2() {
    let config = config(["foo=bar"].to_vec(), ["baz=quux,bar"].to_vec());
    assert!(BearerTokenAuthenticator::from_config(&config).is_err());
}

#[test]
fn test_dupe_user() {
    let config = config(["foo=bar"].to_vec(), ["foo=baz"].to_vec());
    assert!(BearerTokenAuthenticator::from_config(&config).is_err());
}

#[test]
fn test_lookup() {
    let config = config(["foo=bar"].to_vec(), ["otto=push"].to_vec());
    let authenticator = BearerTokenAuthenticator::from_config(&config).unwrap();
    assert_eq!(
        authenticator.lookup("bar"),
        Some(("foo".to_string(), Group::Broadcaster))
    );
    assert_eq!(
        authenticator.lookup("push"),
        Some(("otto".to_string(), Group::Reader))
    );
    assert_eq!(authenticator.lookup("zzz"), None);
    assert_eq!(authenticator.lookup(""), None);
    assert_eq!(authenticator.lookup("foo"), None);
}

#[test]
fn test_empty_tables() {
    let config = config(Vec::new(), Vec::new());
    let authenticator = BearerTokenAuthenticator::from_config(&config).unwrap();
    assert_eq!(authenticator.lookup("bar"), None);
    assert!(authenticator.authenticated_user("Bearer bar").is_err());
}

#[test]
fn test_dupe_user_error() {
    let config = config(["foo=bar"].to_vec(), ["foo=baz"].to_vec());
    match BearerTokenAuthenticator::from_config(&config) {
        Err(ConfigError::DuplicateUser { group, user_id, dupe }) => {
            assert_eq!(group, Group::Reader);
            assert_eq!(user_id, "foo");
            assert_eq!(dupe, Group::Broadcaster);
        }
        _ => panic!("a user of both groups was not refused as a duplicate user"),
    }
}

#[test]
fn test_dupe_user_in_one_table() {
    let config = AuthConfig {
        broadcaster_auth: Some(vec![
            UserEntry {
                user_id: "foo".to_string(),
                tokens: TokensValue::Array(vec![TokenValue::Token("bar".to_string())]),
            },
            UserEntry {
                user_id: "foo".to_string(),
                tokens: TokensValue::Array(vec![TokenValue::Token("baz".to_string())]),
            },
        ]),
        reader_auth: Some(Vec::new()),
    };
    match BearerTokenAuthenticator::from_config(&config) {
        Err(ConfigError::DuplicateUser { group, user_id, dupe }) => {
            assert_eq!(group, Group::Broadcaster);
            assert_eq!(user_id, "foo");
            assert_eq!(dupe, Group::Broadcaster);
        }
        _ => panic!("a user listed twice was not refused as a duplicate user"),
    }
}

#[test]
fn test_dupe_token_error() {
    let config = config(["foo=bar", "baz=bar"].to_vec(), ["otto=push"].to_vec());
    // the users are loaded in the order of their ids: baz, then foo
    match BearerTokenAuthenticator::from_config(&config) {
        Err(ConfigError::DuplicateToken { group, user_id, owner, token }) => {
            assert_eq!(group, Group::Broadcaster);
            assert_eq!(user_id, "foo");
            assert_eq!(owner, "baz");
            assert_eq!(token, "bar");
        }
        _ => panic!("a token of two users was not refused as a duplicate token"),
    }
}

#[test]
fn test_dupe_token_of_one_user() {
    let config = config(["foo=bar,bar"].to_vec(), Vec::new());
    match BearerTokenAuthenticator::from_config(&config) {
        Err(ConfigError::DuplicateToken { group, user_id, owner, token }) => {
            assert_eq!(group, Group::Broadcaster);
            assert_eq!(user_id, "foo");
            assert_eq!(owner, "foo");
            assert_eq!(token, "bar");
        }
        _ => panic!("a token listed twice was not refused as a duplicate token"),
    }
}

#[test]
fn test_dupe_token_across_groups_error() {
    let config = config(["foo=bar"].to_vec(), ["baz=quux,bar"].to_vec());
    match BearerTokenAuthenticator::from_config(&config) {
        Err(ConfigError::DuplicateToken { group, user_id, owner, token }) => {
            assert_eq!(group, Group::Reader);
            assert_eq!(user_id, "baz");
            assert_eq!(owner, "foo");
            assert_eq!(token, "bar");
        }
        _ => panic!("a token of both groups was not refused as a duplicate token"),
    }
}

#[test]
fn test_dupe_token_comes_before_dupe_user() {
    // the token of `a` is met twice before `a` is met under the readers
    let config = config(["a=t,t"].to_vec(), ["a=u"].to_vec());
    assert!(matches!(
        BearerTokenAuthenticator::from_config(&config),
        Err(ConfigError::DuplicateToken { .. })
    ));
}

#[test]
fn test_dupe_user_comes_before_dupe_token() {
    // `a` is met under the readers before its token is met a second time
    let config = config(["a=t"].to_vec(), ["a=t"].to_vec());
    assert!(matches!(
        BearerTokenAuthenticator::from_config(&config),
        Err(ConfigError::DuplicateUser { .. })
    ));
}

#[test]
fn test_order_of_entries() {
    let entry = |user_id: &str, tokens: &[&str]| UserEntry {
        user_id: user_id.to_string(),
        tokens: TokensValue::Array(
            tokens.iter().map(|token| TokenValue::Token(token.to_string())).collect(),
        ),
    };
    let one = AuthConfig {
        broadcaster_auth: Some(vec![entry("foo", &["bar"]), entry("baz", &["quux", "wobble"])]),
        reader_auth: Some(vec![entry("otto", &["push"])]),
    };
    let other = AuthConfig {
        broadcaster_auth: Some(vec![entry("baz", &["quux", "wobble"]), entry("foo", &["bar"])]),
        reader_auth: Some(vec![entry("otto", &["push"])]),
    };
    let one = BearerTokenAuthenticator::from_config(&one).unwrap();
    let other = BearerTokenAuthenticator::from_config(&other).unwrap();
    for token in ["bar", "quux", "wobble", "push", "zzz"] {
        assert_eq!(one.lookup(token), other.lookup(token));
    }

    // a token of two users is refused in either order
    let one = AuthConfig {
        broadcaster_auth: Some(vec![entry("foo", &["bar"]), entry("baz", &["bar"])]),
        reader_auth: Some(Vec::new()),
    };
    let other = AuthConfig {
        broadcaster_auth: Some(vec![entry("baz", &["bar"]), entry("foo", &["bar"])]),
        reader_auth: Some(Vec::new()),
    };
    assert!(BearerTokenAuthenticator::from_config(&one).is_err());
    assert!(BearerTokenAuthenticator::from_config(&other).is_err());
}

#[test]
fn test_missing_tables() {
    let no_broadcasters = AuthConfig {
        broadcaster_auth: None,
        reader_auth: Some(to_table(["otto=push"].to_vec())),
    };
    match BearerTokenAuthenticator::from_config(&no_broadcasters) {
        Err(e @ ConfigError::MissingTable { group: Group::Broadcaster }) => {
            assert_eq!(e.message(), "Invalid or undefined ROCKET_BROADCASTER_AUTH");
        }
        _ => panic!("a configuration without broadcasters was not refused"),
    }
    let no_readers = AuthConfig {
        broadcaster_auth: Some(to_table(["foo=bar"].to_vec())),
        reader_auth: None,
    };
    match BearerTokenAuthenticator::from_config(&no_readers) {
        Err(e @ ConfigError::MissingTable { group: Group::Reader }) => {
            assert_eq!(e.message(), "Invalid or undefined ROCKET_READER_AUTH");
        }
        _ => panic!("a configuration without readers was not refused"),
    }
}

#[test]
fn test_invalid_token_array() {
    let config = AuthConfig {
        broadcaster_auth: Some(vec![UserEntry {
            user_id: "foo".to_string(),
            tokens: TokensValue::Other,
        }]),
        reader_auth: Some(Vec::new()),
    };
    match BearerTokenAuthenticator::from_config(&config) {
        Err(e @ ConfigError::InvalidTokenArray { .. }) => {
            assert_eq!(e.message(), "Invalid broadcaster_auth token array for: \"foo\"");
        }
        _ => panic!("a value that is no list was not refused"),
    }
}

#[test]
fn test_invalid_token() {
    let config = AuthConfig {
        broadcaster_auth: Some(Vec::new()),
        reader_auth: Some(vec![UserEntry {
            user_id: "otto".to_string(),
            tokens: TokensValue::Array(vec![
                TokenValue::Token("push".to_string()),
                TokenValue::Other,
            ]),
        }]),
    };
    match BearerTokenAuthenticator::from_config(&config) {
        Err(e @ ConfigError::InvalidToken { .. }) => {
            assert_eq!(e.message(), "Invalid reader_auth token for: \"otto\"");
        }
        _ => panic!("an element that is no string was not refused"),
    }
}

#[test]
fn test_config_error_messages() {
    let dupe_user = ConfigError::DuplicateUser {
        group: Group::Reader,
        user_id: "foo".to_string(),
        dupe: Group::Broadcaster,
    };
    assert_eq!(
        dupe_user.message(),
        "Invalid reader_auth user: \"foo\" dupe user in: broadcaster_auth"
    );
    let dupe_token = ConfigError::DuplicateToken {
        group: Group::Broadcaster,
        user_id: "baz".to_string(),
        owner: "foo".to_string(),
        token: "b\"ar".to_string(),
    };
    assert_eq!(
        dupe_token.message(),
        "Invalid broadcaster_auth token for: \"baz\" dupe in: \"foo\" (\"b\\\"ar\")"
    );
    let reported = dupe_user.into_handler_error();
    match reported.kind() {
        HandlerErrorKind::InternalError(msg) => assert_eq!(
            msg,
            "Invalid reader_auth user: \"foo\" dupe user in: broadcaster_auth"
        ),
        _ => panic!("a refused configuration is an internal error"),
    }
    assert_eq!(
        reported.to_string(),
        "Unexpected megaphone error: Invalid reader_auth user: \"foo\" dupe user in: broadcaster_auth"
    );
}

#[test]
fn test_config_names() {
    assert_eq!(Group::Broadcaster.config_name(), "broadcaster_auth");
    assert_eq!(Group::Reader.config_name(), "reader_auth");
}

#[test]
fn test_bearer_token() {
    assert_eq!(bearer_token("Bearer quux"), Some("quux"));
    assert_eq!(bearer_token("bearer quux"), Some("quux"));
    assert_eq!(bearer_token("BEARER quux"), Some("quux"));
    assert_eq!(bearer_token("bEaReR quux"), Some("quux"));
    assert_eq!(bearer_token("Bearer "), Some(""));
    assert_eq!(bearer_token("Bearer  quux"), Some(" quux"));
    assert_eq!(bearer_token("Bearer a b"), Some("a b"));
    assert_eq!(bearer_token("Bearer t\u{f6}ken"), Some("t\u{f6}ken"));
    assert_eq!(bearer_token("Bearer"), None);
    assert_eq!(bearer_token(""), None);
    assert_eq!(bearer_token("quux"), None);
    assert_eq!(bearer_token("Basic quux"), None);
    assert_eq!(bearer_token("Bearerquux"), None);
    assert_eq!(bearer_token(" Bearer quux"), None);
    assert_eq!(bearer_token("Bearers quux"), None);
    assert_eq!(bearer_token("Bear quux"), None);
    assert_eq!(bearer_token("Bearer\tquux"), None);
    assert_eq!(bearer_token("B\u{e9}arer quux"), None);
}

#[test]
fn test_authenticated_user() {
    let config = config(["foo=bar"].to_vec(), ["otto=push"].to_vec());
    let authenticator = BearerTokenAuthenticator::from_config(&config).unwrap();

    assert_eq!(
        authenticated_user(&authenticator, Some("bearer bar")).unwrap(),
        ("foo".to_string(), Group::Broadcaster)
    );
    let missing = authenticated_user(&authenticator, None).unwrap_err();
    assert!(matches!(missing.kind(), HandlerErrorKind::MissingAuth));
    let unknown = authenticated_user(&authenticator, Some("Bearer zzz")).unwrap_err();
    assert!(matches!(unknown.kind(), HandlerErrorKind::InvalidAuth));
    let malformed = authenticated_user(&authenticator, Some("bar")).unwrap_err();
    assert!(matches!(malformed.kind(), HandlerErrorKind::InvalidAuth));
    let other_scheme = authenticated_user(&authenticator, Some("Basic bar")).unwrap_err();
    assert!(matches!(other_scheme.kind(), HandlerErrorKind::InvalidAuth));
}

#[test]
fn test_authorized_broadcaster() {
    let config = config(["foo=bar", "baz=quux"].to_vec(), ["otto=push"].to_vec());
    let authenticator = BearerTokenAuthenticator::from_config(&config).unwrap();

    let own = authorized_broadcaster(&authenticator, Some("Bearer bar"), Some("foo")).unwrap();
    assert_eq!(own.id, "foo");

    let other = authorized_broadcaster(&authenticator, Some("Bearer bar"), Some("baz"));
    assert!(matches!(other.unwrap_err().kind(), HandlerErrorKind::Unauthorized));

    let reader = authorized_broadcaster(&authenticator, Some("Bearer push"), Some("otto"));
    assert!(matches!(reader.unwrap_err().kind(), HandlerErrorKind::Unauthorized));
    let reader = authorized_broadcaster(&authenticator, Some("Bearer push"), Some("foo"));
    assert!(matches!(reader.unwrap_err().kind(), HandlerErrorKind::Unauthorized));

    let missing = authorized_broadcaster(&authenticator, None, Some("foo"));
    assert!(matches!(missing.unwrap_err().kind(), HandlerErrorKind::MissingAuth));
    let unknown = authorized_broadcaster(&authenticator, Some("Bearer zzz"), Some("foo"));
    assert!(matches!(unknown.unwrap_err().kind(), HandlerErrorKind::InvalidAuth));

    let no_id = authorized_broadcaster(&authenticator, Some("Bearer bar"), None).unwrap_err();
    match no_id.kind() {
        HandlerErrorKind::InternalError(msg) => assert_eq!(msg, "Could not get broadcast_id"),
        _ => panic!("a path without a broadcaster id is an internal error"),
    }
    // who the caller is counts before what the path lacks
    let no_id = authorized_broadcaster(&authenticator, None, None);
    assert!(matches!(no_id.unwrap_err().kind(), HandlerErrorKind::MissingAuth));
}

#[test]
fn test_authorized_reader() {
    let config = config(["foo=bar"].to_vec(), ["otto=push"].to_vec());
    let authenticator = BearerTokenAuthenticator::from_config(&config).unwrap();

    let reader = authorized_reader(&authenticator, Some("Bearer push")).unwrap();
    assert_eq!(reader.id, "otto");

    let broadcaster = authorized_reader(&authenticator, Some("Bearer bar"));
    assert!(matches!(broadcaster.unwrap_err().kind(), HandlerErrorKind::Unauthorized));
    let missing = authorized_reader(&authenticator, None);
    assert!(matches!(missing.unwrap_err().kind(), HandlerErrorKind::MissingAuth));
    let unknown = authorized_reader(&authenticator, Some("Bearer zzz"));
    assert!(matches!(unknown.unwrap_err().kind(), HandlerErrorKind::InvalidAuth));
}
