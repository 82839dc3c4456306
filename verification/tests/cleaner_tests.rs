use tiddlystore::cleaner::{decide_cleanup, CleanupAction};
use tiddlystore::jsonval::{JsonEntry, JsonValue};

fn obj(entries: Vec<(&str, JsonValue)>) -> JsonValue {
    let mut v: Vec<JsonEntry> = Vec::new();
    for (k, val) in entries {
        v.push(JsonEntry { key: k.to_string(), val });
    }
    JsonValue::Obj(v)
}

fn s(x: &str) -> JsonValue {
    JsonValue::Str(x.to_string())
}

fn decide(meta: &JsonValue) -> CleanupAction {
    decide_cleanup(meta, "default-bucket", "https://cdn.example.com", true)
}

#[test]
fn legacy_files_uri_removes_exactly_that_file() {
    let meta = obj(vec![("title", s("T")), ("_canonical_uri", s("/files/abc.png"))]);
    match decide(&meta) {
        CleanupAction::RemoveLocalFile(f) => assert_eq!(f, "abc.png"),
        _ => panic!("expected a local removal"),
    }
}

#[test]
fn s3_marker_uses_recorded_bucket_over_default() {
    let meta = obj(vec![
        ("title", s("T")),
        ("_canonical_uri", s("https://elsewhere.example.com/k")),
        ("_file_storage", s("s3")),
        ("_s3_bucket", s("recorded-bucket")),
        ("_s3_key", s("tiddlers/k.png")),
    ]);
    match decide(&meta) {
        CleanupAction::RemoveObject { bucket, key } => {
            assert_eq!(bucket, "recorded-bucket");
            assert_eq!(key, "tiddlers/k.png");
        }
        _ => panic!("expected an object removal"),
    }
}

#[test]
fn s3_marker_without_bucket_falls_back_to_default() {
    let meta = obj(vec![
        ("title", s("T")),
        ("_canonical_uri", s("x")),
        ("_file_storage", s("s3")),
        ("_s3_key", s("k")),
    ]);
    match decide(&meta) {
        CleanupAction::RemoveObject { bucket, key } => {
            assert_eq!(bucket, "default-bucket");
            assert_eq!(key, "k");
        }
        _ => panic!("expected an object removal"),
    }
}

#[test]
fn s3_marker_without_key_cleans_nothing() {
    let meta = obj(vec![
        ("title", s("T")),
        ("_canonical_uri", s("x")),
        ("_file_storage", s("s3")),
    ]);
    assert!(matches!(decide(&meta), CleanupAction::Nothing));
}

#[test]
fn s3_marker_with_storage_disabled_cleans_nothing() {
    let meta = obj(vec![
        ("title", s("T")),
        ("_canonical_uri", s("x")),
        ("_file_storage", s("s3")),
        ("_s3_key", s("k")),
    ]);
    let r = decide_cleanup(&meta, "default-bucket", "https://cdn.example.com", false);
    assert!(matches!(r, CleanupAction::Nothing));
}

#[test]
fn traversal_filenames_are_never_removed() {
    for uri in ["/files/../etc/passwd", "/files/a/b.png", "/files/a\\b.png", "/files/.."] {
        let meta = obj(vec![("title", s("T")), ("_canonical_uri", s(uri))]);
        assert!(
            matches!(decide(&meta), CleanupAction::Nothing),
            "{} must not delete",
            uri
        );
        let marked = obj(vec![
            ("title", s("T")),
            ("_canonical_uri", s(uri)),
            ("_file_storage", s("local")),
        ]);
        assert!(matches!(decide(&marked), CleanupAction::Nothing));
    }
}

#[test]
fn local_marker_removes_the_file() {
    let meta = obj(vec![
        ("title", s("T")),
        ("_canonical_uri", s("/files/pic.jpg")),
        ("_file_storage", s("local")),
    ]);
    match decide(&meta) {
        CleanupAction::RemoveLocalFile(f) => assert_eq!(f, "pic.jpg"),
        _ => panic!("expected a local removal"),
    }
}

#[test]
fn legacy_public_base_uri_removes_the_derived_key() {
    let meta = obj(vec![
        ("title", s("T")),
        ("_canonical_uri", s("https://cdn.example.com/tiddlers/k.png")),
    ]);
    match decide(&meta) {
        CleanupAction::RemoveObject { bucket, key } => {
            assert_eq!(bucket, "default-bucket");
            assert_eq!(key, "tiddlers/k.png");
        }
        _ => panic!("expected an object removal"),
    }
    let r = decide_cleanup(&meta, "default-bucket", "https://cdn.example.com", false);
    assert!(matches!(r, CleanupAction::Nothing));
}

#[test]
fn no_uri_means_nothing_to_clean() {
    let meta = obj(vec![("title", s("T"))]);
    assert!(matches!(decide(&meta), CleanupAction::Nothing));
    assert!(matches!(decide(&s("not an object")), CleanupAction::Nothing));
}

#[test]
fn uri_nested_in_fields_is_found() {
    let meta = obj(vec![
        ("title", s("T")),
        ("fields", obj(vec![("_canonical_uri", s("/files/deep.bin"))])),
    ]);
    match decide(&meta) {
        CleanupAction::RemoveLocalFile(f) => assert_eq!(f, "deep.bin"),
        _ => panic!("expected a local removal"),
    }
}

#[test]
fn unrecognized_uri_shape_cleans_nothing() {
    let meta = obj(vec![("title", s("T")), ("_canonical_uri", s("ftp://other/x"))]);
    assert!(matches!(decide(&meta), CleanupAction::Nothing));
}
