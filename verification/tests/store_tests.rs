use tiddlystore::assemble::to_json;
use tiddlystore::jsonval::{JsonEntry, JsonValue};
use tiddlystore::store::Tiddlers;
use tiddlystore::tiddler::Tiddler;

fn doc(title: &str, text: &str) -> JsonValue {
    let mut v: Vec<JsonEntry> = Vec::new();
    v.push(JsonEntry { key: "title".to_string(), val: JsonValue::Str(title.to_string()) });
    v.push(JsonEntry { key: "text".to_string(), val: JsonValue::Str(text.to_string()) });
    JsonValue::Obj(v)
}

#[test]
fn first_write_stores_at_revision_zero() {
    let mut st = Tiddlers::new();
    let t = Tiddler::from_value(doc("Hello", "one")).unwrap();
    let rev = st.put_bump(t);
    assert_eq!(rev, 0);
    let got = st.get("Hello").unwrap();
    assert_eq!(got.revision, 0);
    assert_eq!(
        to_json(&got.as_value()),
        r#"{"title":"Hello","text":"one","revision":"0","bag":"default"}"#
    );
}

#[test]
fn second_write_bumps_by_exactly_one_and_overwrites() {
    let mut st = Tiddlers::new();
    let r1 = st.put_bump(Tiddler::from_value(doc("T", "one")).unwrap());
    let r2 = st.put_bump(Tiddler::from_value(doc("T", "two")).unwrap());
    assert_eq!(r2, r1 + 1);
    let got = st.get("T").unwrap();
    assert_eq!(got.revision, r2);
    assert_eq!(
        to_json(&got.as_value()),
        r#"{"title":"T","text":"two","revision":"1","bag":"default"}"#
    );
    assert_eq!(st.all().len(), 1);
}

#[test]
fn serialized_writes_get_distinct_consecutive_revisions() {
    let mut st = Tiddlers::new();
    let base = st.put_bump(Tiddler::from_value(doc("T", "seed")).unwrap());
    let mut revs: Vec<u64> = Vec::new();
    for i in 0..5 {
        // Five callers each submit a document carrying the same stale
        // revision; the store serializes them.
        let stale = Tiddler::from_value(doc("T", &format!("v{}", i))).unwrap();
        assert_eq!(stale.revision, 0);
        revs.push(st.put_bump(stale));
    }
    assert_eq!(revs, vec![base + 1, base + 2, base + 3, base + 4, base + 5]);
}

#[test]
fn get_of_absent_title_is_none() {
    let st = Tiddlers::new();
    assert!(st.get("missing").is_none());
}

#[test]
fn pop_returns_prior_record_and_removes_it() {
    let mut st = Tiddlers::new();
    st.put_bump(Tiddler::from_value(doc("T", "one")).unwrap());
    let popped = st.pop("T").unwrap();
    assert_eq!(popped.title, "T");
    assert!(st.get("T").is_none());
    assert!(st.pop("T").is_none());
}

#[test]
fn put_replaces_whole_record() {
    let mut st = Tiddlers::new();
    let mut t = Tiddler::from_value(doc("T", "one")).unwrap();
    t.revision = 9;
    st.put(t);
    let mut t2 = Tiddler::from_value(doc("T", "two")).unwrap();
    t2.revision = 3;
    st.put(t2);
    let got = st.get("T").unwrap();
    assert_eq!(got.revision, 3);
    assert_eq!(st.all().len(), 1);
}
