use tiddlystore::assemble::to_json;
use tiddlystore::digest::{sha256_hex, upload_key};
use tiddlystore::protocol::{
    check_basic_auth, default_status_config, default_tw_version, etag_for, inbox_tags,
    inbox_timestamp, inbox_title, make_inbox_tiddler, Space,
};

#[test]
fn etag_carries_recipe_title_and_revision() {
    assert_eq!(etag_for("Foo", 3), "default/Foo/3:");
    assert_eq!(etag_for("With Space", 0), "default/With Space/0:");
}

#[test]
fn status_defaults() {
    let s = default_status_config();
    assert_eq!(s.username, "anonymous");
    assert!(!s.anonymous);
    assert!(!s.read_only);
    assert_eq!(s.space.recipe, "default");
    assert_eq!(s.tiddlywiki_version, "5.3.8");
    assert_eq!(default_tw_version(), "5.3.8");
    let sp: Space = Default::default();
    assert_eq!(sp.recipe, "default");
}

#[test]
fn inbox_timestamp_is_seventeen_digits() {
    let ts = inbox_timestamp(2024, 1, 2, 3, 4, 5);
    assert_eq!(ts, "20240102030405000");
    assert_eq!(ts.len(), 17);
    assert_eq!(inbox_timestamp(2025, 12, 31, 23, 59, 58), "20251231235958000");
}

#[test]
fn inbox_title_is_human_readable() {
    assert_eq!(inbox_title(2024, 1, 2, 3, 4, 5), "Inbox 2024-01-02 03:04:05");
}

#[test]
fn inbox_tags_always_include_inbox() {
    assert_eq!(inbox_tags(None), "Inbox");
    assert_eq!(inbox_tags(Some(&"".to_string())), "Inbox");
    assert_eq!(inbox_tags(Some(&"read later".to_string())), "Inbox read later");
}

#[test]
fn inbox_tiddler_shape() {
    let v = make_inbox_tiddler(
        "Inbox 2024-01-02 03:04:05".to_string(),
        "note".to_string(),
        "Inbox".to_string(),
        "20240102030405000".to_string(),
    );
    assert_eq!(
        to_json(&v),
        r#"{"title":"Inbox 2024-01-02 03:04:05","text":"note","tags":"Inbox","created":"20240102030405000","modified":"20240102030405000","type":"text/vnd.tiddlywiki"}"#
    );
}

#[test]
fn basic_auth_accepts_exact_credentials_only() {
    // "dXNlcjpwYXNz" is base64 of "user:pass".
    assert!(check_basic_auth(Some("Basic dXNlcjpwYXNz"), "user", "pass"));
    assert!(!check_basic_auth(Some("Basic dXNlcjp3cm9uZw=="), "user", "pass"));
    assert!(!check_basic_auth(Some("Bearer dXNlcjpwYXNz"), "user", "pass"));
    assert!(!check_basic_auth(Some("Basic !!!"), "user", "pass"));
    assert!(!check_basic_auth(None, "user", "pass"));
}

const X_SHA256: &str = "2d711642b726b04401627ca9fbac32f5c8530fb1903cc4db02258717921a4881";
const PHOTO_SHA256: &str = "aff6100bd4df0ea66736e1d3304208069a0f24303e21b43422398c935540a236";

#[test]
fn digest_text_matches_sha256() {
    assert_eq!(sha256_hex("x"), X_SHA256);
}

#[test]
fn upload_key_hashes_the_filename_and_keeps_the_extension() {
    assert_eq!(upload_key("photo.jpg"), format!("tiddlers/{}.jpg", PHOTO_SHA256));
    let k = upload_key("noext");
    assert!(k.starts_with("tiddlers/"));
    assert!(k.ends_with(".noext"));
}
