use megaphone::error::HandlerErrorKind;
use megaphone::logging::json_logging;
use megaphone::string_map::StringMap;
use megaphone::tags::Tags;

fn map(pairs: &[(&str, &str)]) -> StringMap {
    let mut map = StringMap::new();
    for (key, value) in pairs {
        map.insert(key.to_string(), value.to_string());
    }
    map
}

#[test]
fn test_string_map() {
    let mut map = StringMap::new();
    assert!(map.is_empty());
    assert_eq!(map.len(), 0);
    assert_eq!(map.get("a"), None);
    assert!(!map.contains_key("a"));

    map.insert("a".to_string(), "1".to_string());
    map.insert("b".to_string(), "2".to_string());
    map.insert("a".to_string(), "3".to_string());
    assert_eq!(map.len(), 2);
    assert!(!map.is_empty());
    assert!(map.contains_key("a"));
    assert_eq!(map.get("a"), Some(&"3".to_string()));
    assert_eq!(map.get("b"), Some(&"2".to_string()));
    assert_eq!(map.get("c"), None);
    assert_eq!(
        map.entries(),
        &vec![("a".to_string(), "3".to_string()), ("b".to_string(), "2".to_string())]
    );
}

#[test]
fn test_string_map_extend() {
    let mut left = map(&[("a", "1"), ("b", "2")]);
    left.extend(map(&[("b", "3"), ("c", "4")]));
    assert_eq!(left.len(), 3);
    assert_eq!(left.get("a"), Some(&"1".to_string()));
    assert_eq!(left.get("b"), Some(&"3".to_string()));
    assert_eq!(left.get("c"), Some(&"4".to_string()));
}

#[test]
fn test_tags_init() {
    let tags = Tags::init().unwrap();
    assert!(tags.tags.is_empty());
    assert!(tags.extra.is_empty());
    let tags = Tags::default();
    assert!(tags.tags.is_empty());
    assert!(tags.extra.is_empty());
}

#[test]
fn test_tags_extend() {
    let mut tags = Tags::default();
    tags.extra.insert("uri.path".to_string(), "/v1/broadcasts".to_string());
    tags.extend(map(&[("a", "1"), ("b", "2")]));
    tags.extend(map(&[("b", "3")]));
    assert_eq!(tags.tags.len(), 2);
    assert_eq!(tags.tags.get("a"), Some(&"1".to_string()));
    assert_eq!(tags.tags.get("b"), Some(&"3".to_string()));
    assert_eq!(tags.extra.len(), 1);
    assert_eq!(tags.extra.get("uri.path"), Some(&"/v1/broadcasts".to_string()));
}

#[test]
fn test_tags_serialized() {
    let mut tags = Tags::default();
    tags.extend(map(&[("a", "1"), ("b", ""), ("c", "3")]));
    assert_eq!(
        tags.serialized(),
        vec![("a".to_string(), "1".to_string()), ("c".to_string(), "3".to_string())]
    );
    assert_eq!(Tags::default().serialized(), Vec::new());
}

#[test]
fn test_tags_for_broadcast() {
    let mut base = Tags::default();
    base.extend(map(&[("version", "old"), ("a", "1")]));
    let tags = base.for_broadcast("foo", "bar", "v1");
    assert_eq!(tags.tags.len(), 4);
    assert_eq!(tags.tags.get("a"), Some(&"1".to_string()));
    assert_eq!(tags.tags.get("broadcaster"), Some(&"foo".to_string()));
    assert_eq!(tags.tags.get("channel_id"), Some(&"bar".to_string()));
    assert_eq!(tags.tags.get("version"), Some(&"v1".to_string()));
}

#[test]
fn test_tags_merged() {
    let mut base = Tags::default();
    base.extend(map(&[("a", "1"), ("b", "2")]));
    base.extra.insert("uri.path".to_string(), "/v1/broadcasts".to_string());
    let mut call = Tags::default();
    call.extend(map(&[("b", "3"), ("c", "4")]));
    call.extra.insert("ua".to_string(), "curl".to_string());

    let merged = Tags::merged(Some(base.clone()), Some(call.clone()));
    assert_eq!(merged.tags.len(), 3);
    assert_eq!(merged.tags.get("a"), Some(&"1".to_string()));
    assert_eq!(merged.tags.get("b"), Some(&"3".to_string()));
    assert_eq!(merged.tags.get("c"), Some(&"4".to_string()));
    assert_eq!(merged.extra.len(), 1);
    assert_eq!(merged.extra.get("uri.path"), Some(&"/v1/broadcasts".to_string()));

    let merged = Tags::merged(None, Some(call));
    assert_eq!(merged.tags.len(), 2);
    assert_eq!(merged.tags.get("b"), Some(&"3".to_string()));
    assert!(merged.extra.is_empty());

    let merged = Tags::merged(Some(base), None);
    assert_eq!(merged.tags.len(), 2);
    assert_eq!(merged.tags.get("b"), Some(&"2".to_string()));
    assert_eq!(merged.extra.len(), 1);

    let merged = Tags::merged(None, None);
    assert!(merged.tags.is_empty());
    assert!(merged.extra.is_empty());
}

#[test]
fn test_tags_clone() {
    let mut tags = Tags::default();
    tags.extend(map(&[("a", "1")]));
    tags.extra.insert("ua".to_string(), "curl".to_string());
    let copy = tags.clone();
    assert_eq!(copy.tags.entries(), tags.tags.entries());
    assert_eq!(copy.extra.entries(), tags.extra.entries());
}

#[test]
fn test_json_logging() {
    assert!(json_logging(None).unwrap());
    assert!(json_logging(Some(Ok(true))).unwrap());
    assert!(!json_logging(Some(Ok(false))).unwrap());
    let err = json_logging(Some(Err("invalid type: found string \"yes\"".to_string()))).unwrap_err();
    match err.kind() {
        HandlerErrorKind::InternalError(msg) => assert_eq!(
            msg,
            "Invalid ROCKET_JSON_LOGGING: invalid type: found string \"yes\""
        ),
        _ => panic!("a value that is no truth value is an internal error"),
    }
}
