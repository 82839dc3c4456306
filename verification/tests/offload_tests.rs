use tiddlystore::assemble::to_json;
use tiddlystore::jsonval::{JsonEntry, JsonValue};
use tiddlystore::offload::{apply_offload, mime_to_ext, offload_plan};

fn obj(entries: Vec<(&str, &str)>) -> JsonValue {
    let mut v: Vec<JsonEntry> = Vec::new();
    for (k, val) in entries {
        v.push(JsonEntry { key: k.to_string(), val: JsonValue::Str(val.to_string()) });
    }
    JsonValue::Obj(v)
}

const MYTITLE_SHA256: &str = "2ab7d6c1d899e27857625de3512f4f431576ff4b16e1241d292c2dcaa7e229fa";

#[test]
fn png_payload_is_offloaded_under_title_hash() {
    let doc = obj(vec![("title", "mytitle"), ("type", "image/png"), ("text", "aGVsbG8=")]);
    let (bytes, name) = offload_plan("mytitle", &doc).unwrap();
    assert_eq!(bytes, b"hello".to_vec());
    assert_eq!(name, format!("{}.png", MYTITLE_SHA256));
}

#[test]
fn data_url_prefix_is_stripped_before_decoding() {
    let doc = obj(vec![
        ("title", "mytitle"),
        ("type", "image/png"),
        ("text", "data:image/png;base64,aGVsbG8="),
    ]);
    let (bytes, _) = offload_plan("mytitle", &doc).unwrap();
    assert_eq!(bytes, b"hello".to_vec());
}

#[test]
fn undecodable_payload_is_left_inline() {
    let doc = obj(vec![("title", "mytitle"), ("type", "image/png"), ("text", "!!!not base64")]);
    assert!(offload_plan("mytitle", &doc).is_none());
}

#[test]
fn non_binary_and_empty_payloads_are_left_alone() {
    let doc = obj(vec![("title", "t"), ("type", "text/vnd.tiddlywiki"), ("text", "aGVsbG8=")]);
    assert!(offload_plan("t", &doc).is_none());
    let doc = obj(vec![("title", "t"), ("type", "image/png"), ("text", "")]);
    assert!(offload_plan("t", &doc).is_none());
    let doc = obj(vec![("title", "t"), ("type", "image/png")]);
    assert!(offload_plan("t", &doc).is_none());
}

#[test]
fn pdf_and_av_types_are_binary() {
    for ty in ["application/pdf", "video/mp4", "audio/ogg", "image/webp"] {
        let doc = obj(vec![("title", "t"), ("type", ty), ("text", "aGVsbG8=")]);
        assert!(offload_plan("t", &doc).is_some(), "{} should offload", ty);
    }
}

#[test]
fn apply_offload_rewrites_the_document() {
    let mut doc = obj(vec![("title", "mytitle"), ("type", "image/png"), ("text", "aGVsbG8=")]);
    apply_offload(&mut doc, "abc.png");
    assert_eq!(
        to_json(&doc),
        r#"{"title":"mytitle","type":"image/png","text":"","_canonical_uri":"/files/abc.png","_file_storage":"local"}"#
    );
}

#[test]
fn mime_extension_table() {
    assert_eq!(mime_to_ext("image/jpeg"), "jpg");
    assert_eq!(mime_to_ext("image/png"), "png");
    assert_eq!(mime_to_ext("image/gif"), "gif");
    assert_eq!(mime_to_ext("image/webp"), "webp");
    assert_eq!(mime_to_ext("image/svg+xml"), "svg");
    assert_eq!(mime_to_ext("application/pdf"), "pdf");
    assert_eq!(mime_to_ext("video/mp4"), "bin");
    assert_eq!(mime_to_ext(""), "bin");
}
