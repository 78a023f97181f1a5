use megaphone::db::models::{snapshot, Broadcast, Broadcaster, Reader};
use megaphone::db::pool_settings;
use megaphone::db::store::VersionStore;
use megaphone::error::HandlerErrorKind;

fn row(broadcaster_id: &str, bchannel_id: &str, version: &str) -> Broadcast {
    Broadcast {
        broadcaster_id: broadcaster_id.to_string(),
        bchannel_id: bchannel_id.to_string(),
        version: version.to_string(),
    }
}

#[test]
fn test_broadcast_id() {
    assert_eq!(row("foo", "bar", "v0").id(), "foo/bar");
    assert_eq!(row("", "", "").id(), "/");
}

#[test]
fn test_upsert_then_read_all() {
    let mut conn = VersionStore::new();
    assert!(conn.upsert("foo", "bar", "v0"));
    assert!(!conn.upsert("foo", "bar", "v1"));

    let broadcasts = Reader::new("otto".to_string())
        .read_broadcasts(&conn)
        .unwrap();
    assert_eq!(broadcasts.len(), 1);
    assert_eq!(broadcasts.get("foo/bar"), Some(&"v1".to_string()));
}

#[test]
fn test_upsert_same_version() {
    let mut conn = VersionStore::new();
    assert!(conn.upsert("foo", "bar", "v0"));
    assert!(!conn.upsert("foo", "bar", "v0"));
    assert_eq!(conn.version("foo", "bar"), Some(&"v0".to_string()));
    assert_eq!(conn.rows().len(), 1);
}

#[test]
fn test_upsert_keys_apart() {
    let mut conn = VersionStore::new();
    assert!(conn.upsert("foo", "bar", "v0"));
    assert!(conn.upsert("foo", "baz", "v1"));
    assert!(conn.upsert("fo", "obar", "v2"));
    assert!(!conn.upsert("foo", "bar", "v3"));
    assert_eq!(conn.version("foo", "bar"), Some(&"v3".to_string()));
    assert_eq!(conn.version("foo", "baz"), Some(&"v1".to_string()));
    assert_eq!(conn.version("fo", "obar"), Some(&"v2".to_string()));
    assert_eq!(conn.version("bar", "foo"), None);

    let rows = conn.rows();
    assert_eq!(rows.len(), 3);
    assert_eq!(rows[0].id(), "foo/bar");
    assert_eq!(rows[0].version, "v3");
    assert_eq!(rows[1].id(), "foo/baz");
    assert_eq!(rows[2].id(), "fo/obar");
}

#[test]
fn test_many_writes_create_once() {
    let mut conn = VersionStore::new();
    conn.upsert("baz", "quux", "w");
    let versions = ["v0", "v1", "v2", "v3", "v4"];
    let mut created = 0;
    for version in versions {
        if conn.upsert("foo", "bar", version) {
            created += 1;
        }
    }
    assert_eq!(created, 1);
    assert_eq!(conn.rows().len(), 2);
    assert_eq!(conn.version("foo", "bar"), Some(&"v4".to_string()));
}

#[test]
fn test_read_empty() {
    let conn = VersionStore::new();
    let broadcasts = Reader::new("otto".to_string())
        .read_broadcasts(&conn)
        .unwrap();
    assert!(broadcasts.is_empty());
    assert_eq!(broadcasts.get("foo/bar"), None);
}

#[test]
fn test_broadcast_new_version() {
    let mut conn = VersionStore::new();
    let created = Broadcaster::new("foo".to_string())
        .broadcast_new_version(&mut conn, "bar", "v0")
        .unwrap();
    assert!(created);
    let created = Broadcaster::new("foo".to_string())
        .broadcast_new_version(&mut conn, "bar", "v1")
        .unwrap();
    assert!(!created);
    let created = Broadcaster::new("baz".to_string())
        .broadcast_new_version(&mut conn, "bar", "v2")
        .unwrap();
    assert!(created);
    assert_eq!(conn.version("foo", "bar"), Some(&"v1".to_string()));
    assert_eq!(conn.version("baz", "bar"), Some(&"v2".to_string()));
}

#[test]
fn test_created_by_affected_rows() {
    assert!(Broadcaster::created(1));
    assert!(!Broadcaster::created(0));
    assert!(!Broadcaster::created(2));
}

#[test]
fn test_snapshot_of_rows() {
    let rows = vec![row("foo", "bar", "v1"), row("baz", "quux", "v0")];
    let broadcasts = snapshot(&rows);
    assert_eq!(broadcasts.len(), 2);
    assert_eq!(broadcasts.get("baz/quux"), Some(&"v0".to_string()));
    assert_eq!(broadcasts.get("foo/bar"), Some(&"v1".to_string()));
    let entries = broadcasts.entries();
    assert_eq!(entries[0], ("foo/bar".to_string(), "v1".to_string()));
    assert_eq!(entries[1], ("baz/quux".to_string(), "v0".to_string()));
}

#[test]
fn test_snapshot_later_row_counts() {
    // two rows with one id: the later one is shown
    let rows = vec![row("a/b", "c", "v0"), row("a", "b/c", "v1")];
    let broadcasts = snapshot(&rows);
    assert_eq!(broadcasts.len(), 1);
    assert_eq!(broadcasts.get("a/b/c"), Some(&"v1".to_string()));
}

#[test]
fn test_pool_settings() {
    let settings = pool_settings(Some("mysql://localhost/megaphone".to_string()), None, None).unwrap();
    assert_eq!(settings.database_url, "mysql://localhost/megaphone");
    assert_eq!(settings.max_size, 10);
    assert!(!settings.use_test_transactions);

    let settings =
        pool_settings(Some("mysql://localhost/megaphone".to_string()), Some(1), Some(true)).unwrap();
    assert_eq!(settings.max_size, 1);
    assert!(settings.use_test_transactions);

    let settings =
        pool_settings(Some("mysql://localhost/megaphone".to_string()), Some(4294967296 + 7), None)
            .unwrap();
    assert_eq!(settings.max_size, 7);
    let settings =
        pool_settings(Some("mysql://localhost/megaphone".to_string()), Some(-1), None).unwrap();
    assert_eq!(settings.max_size, 4294967295);

    let err = pool_settings(None, Some(3), Some(false)).unwrap_err();
    match err.kind() {
        HandlerErrorKind::InternalError(msg) => {
            assert_eq!(msg, "Invalid or undefined ROCKET_DATABASE_URL")
        }
        _ => panic!("a configuration without a database is an internal error"),
    }
}
