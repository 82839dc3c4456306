use tiddlystore::jsonval::{JsonEntry, JsonValue};
use tiddlystore::assemble::to_json;
use tiddlystore::errors::AppError;
use tiddlystore::tiddler::Tiddler;

fn obj(entries: Vec<(&str, JsonValue)>) -> JsonValue {
    let mut v: Vec<JsonEntry> = Vec::new();
    for (k, val) in entries {
        v.push(JsonEntry { key: k.to_string(), val });
    }
    JsonValue::Obj(v)
}

fn s(x: &str) -> JsonValue {
    JsonValue::Str(x.to_string())
}

#[test]
fn from_value_takes_title_and_defaults_revision() {
    let t = Tiddler::from_value(obj(vec![("title", s("Hello"))])).unwrap();
    assert_eq!(t.title, "Hello");
    assert_eq!(t.revision, 0);
}

#[test]
fn from_value_reads_numeric_revision() {
    let t = Tiddler::from_value(obj(vec![
        ("title", s("A")),
        ("revision", JsonValue::Num("42".to_string())),
    ]))
    .unwrap();
    assert_eq!(t.revision, 42);
}

#[test]
fn from_value_reads_string_revision() {
    let t = Tiddler::from_value(obj(vec![("title", s("A")), ("revision", s("17"))])).unwrap();
    assert_eq!(t.revision, 17);
    let t = Tiddler::from_value(obj(vec![("title", s("A")), ("revision", s("+5"))])).unwrap();
    assert_eq!(t.revision, 5);
}

#[test]
fn from_value_rejects_non_object() {
    let e = Tiddler::from_value(s("nope")).unwrap_err();
    match e {
        AppError::Serialization(m) => assert_eq!(m, "from_value expects a JSON Object"),
        _ => panic!("wrong error kind"),
    }
}

#[test]
fn from_value_rejects_missing_or_bad_title() {
    let e = Tiddler::from_value(obj(vec![("text", s("x"))])).unwrap_err();
    match e {
        AppError::Serialization(m) => assert_eq!(m, "tiddler['title'] should be a string"),
        _ => panic!("wrong error kind"),
    }
    let e = Tiddler::from_value(obj(vec![("title", JsonValue::Bool(true))])).unwrap_err();
    match e {
        AppError::Serialization(m) => assert_eq!(m, "tiddler['title'] should be a string"),
        _ => panic!("wrong error kind"),
    }
}

#[test]
fn from_value_rejects_bad_revisions() {
    let e = Tiddler::from_value(obj(vec![
        ("title", s("A")),
        ("revision", JsonValue::Num("1.5".to_string())),
    ]))
    .unwrap_err();
    match e {
        AppError::Serialization(m) => assert_eq!(m, "revision should be a u64 (not 1.5)"),
        _ => panic!("wrong error kind"),
    }
    let e = Tiddler::from_value(obj(vec![("title", s("A")), ("revision", s("soon"))]))
        .unwrap_err();
    match e {
        AppError::Serialization(m) => {
            assert_eq!(m, "couldn't parse a revision number from 'soon'")
        }
        _ => panic!("wrong error kind"),
    }
    let e = Tiddler::from_value(obj(vec![("title", s("A")), ("revision", JsonValue::Bool(true))]))
        .unwrap_err();
    match e {
        AppError::Serialization(m) => assert_eq!(m, "tiddler['revision'] should be a number"),
        _ => panic!("wrong error kind"),
    }
}

#[test]
fn from_value_rejects_revision_overflow() {
    let t = Tiddler::from_value(obj(vec![
        ("title", s("A")),
        ("revision", JsonValue::Num("18446744073709551615".to_string())),
    ]))
    .unwrap();
    assert_eq!(t.revision, u64::MAX);
    assert!(Tiddler::from_value(obj(vec![
        ("title", s("A")),
        ("revision", JsonValue::Num("18446744073709551616".to_string())),
    ]))
    .is_err());
}

#[test]
fn as_value_sets_authoritative_fields() {
    let t = Tiddler::from_value(obj(vec![("title", s("A")), ("text", s("body"))])).unwrap();
    let doc = t.as_value();
    assert_eq!(
        to_json(&doc),
        r#"{"title":"A","text":"body","revision":"0","bag":"default"}"#
    );
}

#[test]
fn as_value_flattens_fields_without_overwriting() {
    let t = Tiddler::from_value(obj(vec![
        ("title", s("A")),
        ("color", s("red")),
        (
            "fields",
            obj(vec![("color", s("blue")), ("shape", s("round"))]),
        ),
    ]))
    .unwrap();
    let doc = t.as_value();
    assert_eq!(
        to_json(&doc),
        r#"{"title":"A","color":"red","shape":"round","revision":"0","bag":"default"}"#
    );
}

#[test]
fn as_value_joins_tag_arrays() {
    let tags = JsonValue::Arr(vec![s("one"), s("two words"), JsonValue::Bool(true), s("three")]);
    let t = Tiddler::from_value(obj(vec![("title", s("A")), ("tags", tags)])).unwrap();
    let doc = t.as_value();
    assert_eq!(
        to_json(&doc),
        r#"{"title":"A","tags":"one [[two words]] three","revision":"0","bag":"default"}"#
    );
}

#[test]
fn as_value_keeps_string_tags_and_drops_other_shapes() {
    let t = Tiddler::from_value(obj(vec![("title", s("A")), ("tags", s("x y"))])).unwrap();
    assert_eq!(
        to_json(&t.as_value()),
        r#"{"title":"A","tags":"x y","revision":"0","bag":"default"}"#
    );
    let t = Tiddler::from_value(obj(vec![("title", s("A")), ("tags", JsonValue::Bool(true))]))
        .unwrap();
    assert_eq!(
        to_json(&t.as_value()),
        r#"{"title":"A","revision":"0","bag":"default"}"#
    );
}

#[test]
fn as_value_keeps_existing_bag() {
    let t = Tiddler::from_value(obj(vec![("title", s("A")), ("bag", s("mine"))])).unwrap();
    assert_eq!(
        to_json(&t.as_value()),
        r#"{"title":"A","bag":"mine","revision":"0"}"#
    );
}

#[test]
fn as_skinny_value_drops_text() {
    let t = Tiddler::from_value(obj(vec![("title", s("A")), ("text", s("heavy"))])).unwrap();
    assert_eq!(
        to_json(&t.as_skinny_value()),
        r#"{"title":"A","revision":"0","bag":"default"}"#
    );
}

#[test]
fn derivation_is_idempotent_on_normalized_shape() {
    let tags = JsonValue::Arr(vec![s("one"), s("two words")]);
    let t = Tiddler::from_value(obj(vec![
        ("title", s("A")),
        ("tags", tags),
        ("fields", obj(vec![("shape", s("round"))])),
        ("text", s("body")),
    ]))
    .unwrap();
    let doc1 = t.as_value();
    let json1 = to_json(&doc1);
    let t2 = Tiddler::from_value(doc1).unwrap();
    assert_eq!(t2.revision, 0);
    assert_eq!(t2.title, "A");
    let doc2 = t2.as_value();
    assert_eq!(to_json(&doc2), json1);
}

#[test]
fn error_messages_are_carried_verbatim() {
    let e = AppError::Database("disk on fire".to_string());
    assert_eq!(e.message(), "disk on fire");
    let e = AppError::Response("could not build body".to_string());
    assert_eq!(e.message(), "could not build body");
    let e = AppError::Serialization("bad document".to_string());
    assert_eq!(e.message(), "bad document");
}

#[test]
fn tags_arriving_inside_fields_are_normalized_after_the_merge() {
    let tags = JsonValue::Arr(vec![s("deep tag"), s("plain")]);
    let t = Tiddler::from_value(obj(vec![
        ("title", s("A")),
        ("fields", obj(vec![("tags", tags)])),
    ]))
    .unwrap();
    assert_eq!(
        to_json(&t.as_value()),
        r#"{"title":"A","tags":"[[deep tag]] plain","revision":"0","bag":"default"}"#
    );
}

#[test]
fn tags_with_any_whitespace_are_wrapped() {
    let tags = JsonValue::Arr(vec![
        s("tab\there"),
        s("line\nbreak"),
        s("carriage\rreturn"),
        s("plain"),
    ]);
    let t = Tiddler::from_value(obj(vec![("title", s("A")), ("tags", tags)])).unwrap();
    assert_eq!(
        to_json(&t.as_value()),
        "{\"title\":\"A\",\"tags\":\"[[tab\\u0009here]] [[line\\u000abreak]] [[carriage\\u000dreturn]] plain\",\"revision\":\"0\",\"bag\":\"default\"}"
    );
}
