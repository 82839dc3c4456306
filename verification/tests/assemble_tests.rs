use tiddlystore::assemble::{escape_script, render_wiki_html, to_json, to_json_pretty, WikiTemplate};
use tiddlystore::jsonval::{JsonEntry, JsonValue};
use tiddlystore::tiddler::Tiddler;

const MARKER: &str = r#"<script class="tiddlywiki-tiddler-store" type="application/json">"#;

fn template_html() -> String {
    format!(
        "<html><head></head><body>{}[{{\"title\":\"builtin\"}}]</script></body></html>",
        MARKER
    )
}

fn obj(entries: Vec<(&str, &str)>) -> JsonValue {
    let mut v: Vec<JsonEntry> = Vec::new();
    for (k, val) in entries {
        v.push(JsonEntry { key: k.to_string(), val: JsonValue::Str(val.to_string()) });
    }
    JsonValue::Obj(v)
}

#[test]
fn template_splits_at_last_bracket_before_close() {
    let html = template_html();
    let t = WikiTemplate::new(&html);
    assert!(t.prefix.ends_with("[{\"title\":\"builtin\"}"));
    assert!(t.suffix.starts_with("]</script>"));
    assert_eq!(format!("{}{}", t.prefix, t.suffix), html);
}

#[test]
fn malformed_templates_are_rejected() {
    assert!(WikiTemplate::try_new("<html>no marker</html>").is_none());
    let no_close = format!("<html>{}[]", MARKER);
    assert!(WikiTemplate::try_new(&no_close).is_none());
    let no_bracket = format!("<html>{}nothing</script>", MARKER);
    assert!(WikiTemplate::try_new(&no_bracket).is_none());
}

#[test]
fn serializer_writes_compact_json() {
    let mut arr: Vec<JsonValue> = Vec::new();
    arr.push(JsonValue::Null);
    arr.push(JsonValue::Bool(true));
    arr.push(JsonValue::Num("3.5".to_string()));
    let mut entries: Vec<JsonEntry> = Vec::new();
    entries.push(JsonEntry { key: "a b".to_string(), val: JsonValue::Arr(arr) });
    entries.push(JsonEntry {
        key: "q".to_string(),
        val: JsonValue::Str("say \"hi\" \\ \n done".to_string()),
    });
    let v = JsonValue::Obj(entries);
    assert_eq!(
        to_json(&v),
        r#"{"a b":[null,true,3.5],"q":"say \"hi\" \\ \u000a done"}"#
    );
}

#[test]
fn escape_rewrites_every_closing_script_tag() {
    let input: Vec<char> = "a</script>b</scr</script>ipt>".chars().collect();
    let out: String = escape_script(&input).into_iter().collect();
    assert_eq!(out, "a<\\/script>b</scr<\\/script>ipt>");
    assert!(!out.contains("</script>"));
}

#[test]
fn rendered_page_has_no_unescaped_close_tag_in_data_block() {
    let html = template_html();
    let t = WikiTemplate::new(&html);
    let payload = "</script><script>alert(1)</script>";
    let doc = Tiddler::from_value(obj(vec![("title", "evil"), ("text", payload)]))
        .unwrap()
        .as_value();
    let docs = vec![doc];
    let page = render_wiki_html(&t, &docs);
    assert!(page.starts_with(&t.prefix));
    assert!(page.ends_with(&t.suffix));
    let inner = &page[t.prefix.len()..page.len() - t.suffix.len()];
    assert!(inner.starts_with(','));
    assert!(!inner.contains("</script>"));
    assert!(inner.contains("alert(1)"));
}

#[test]
fn rendered_page_splices_all_documents() {
    let html = template_html();
    let t = WikiTemplate::new(&html);
    let d1 = Tiddler::from_value(obj(vec![("title", "One")])).unwrap().as_value();
    let d2 = Tiddler::from_value(obj(vec![("title", "Two")])).unwrap().as_value();
    let docs = vec![d1, d2];
    let page = render_wiki_html(&t, &docs);
    let expected_inner = r#",{"title":"One","revision":"0","bag":"default"},{"title":"Two","revision":"0","bag":"default"}"#;
    assert_eq!(
        page,
        format!("{}{}{}", t.prefix, expected_inner, t.suffix)
    );
}

#[test]
fn pretty_serializer_spreads_containers_over_lines() {
    let mut inner: Vec<JsonEntry> = Vec::new();
    inner.push(JsonEntry { key: "n".to_string(), val: JsonValue::Num("1".to_string()) });
    let mut entries: Vec<JsonEntry> = Vec::new();
    entries.push(JsonEntry {
        key: "a".to_string(),
        val: JsonValue::Arr(vec![JsonValue::Bool(false), JsonValue::Obj(inner)]),
    });
    entries.push(JsonEntry { key: "e".to_string(), val: JsonValue::Arr(Vec::new()) });
    let v = JsonValue::Obj(entries);
    let expected = "{\n  \"a\": [\n    false,\n    {\n      \"n\": 1\n    }\n  ],\n  \"e\": []\n}";
    assert_eq!(to_json_pretty(&v), expected);
    assert_eq!(
        expected,
        serde_json::to_string_pretty(
            &serde_json::from_str::<serde_json::Value>("{\"a\":[false,{\"n\":1}],\"e\":[]}")
                .unwrap()
        )
        .unwrap()
    );
}
