use notion_mirror::json::{json_to_string, Json};
use notion_mirror::notion::PropertyValue;
use notion_mirror::props::{decode_property, extract_page_properties, extract_page_title};

fn obj(pairs: Vec<(&str, Json)>) -> Json {
    Json::Obj(pairs.into_iter().map(|(k, v)| (k.to_string(), v)).collect())
}

fn s(text: &str) -> Json {
    Json::Str(text.to_string())
}

fn num(token: &str, float_text: &str, int_text: Option<&str>) -> Json {
    Json::Num {
        text: token.to_string(),
        float_text: float_text.to_string(),
        int_text: int_text.map(|t| t.to_string()),
    }
}

fn typed(kind: &str, payload: Json) -> Json {
    obj(vec![("type", s(kind)), (kind, payload)])
}

fn rich(texts: &[&str]) -> Json {
    Json::Arr(texts.iter().map(|t| obj(vec![("plain_text", s(t))])).collect())
}

fn text_of(v: Option<PropertyValue>) -> String {
    match v {
        Some(PropertyValue::Text(t)) => t,
        other => panic!("expected a text value, got {:?}", other.is_some()),
    }
}

fn list_of(v: Option<PropertyValue>) -> Vec<String> {
    match v {
        Some(PropertyValue::List(l)) => l,
        _ => panic!("expected a list value"),
    }
}

#[test]
fn decodes_title_and_rich_text() {
    let prop = typed("title", rich(&["Hello ", "World"]));
    assert_eq!(text_of(decode_property(&prop)), "Hello World");
    let prop = typed("rich_text", rich(&["x"]));
    assert_eq!(text_of(decode_property(&prop)), "x");
}

#[test]
fn decodes_select_status_and_multi_select() {
    let prop = typed("select", obj(vec![("name", s("Red"))]));
    assert_eq!(text_of(decode_property(&prop)), "Red");
    let prop = typed("status", obj(vec![("name", s("Done"))]));
    assert_eq!(text_of(decode_property(&prop)), "Done");
    let prop = typed(
        "multi_select",
        Json::Arr(vec![obj(vec![("name", s("a"))]), obj(vec![("name", s("b"))])]),
    );
    assert_eq!(list_of(decode_property(&prop)), vec!["a", "b"]);
}

#[test]
fn decodes_number_checkbox_date() {
    let prop = typed("number", num("3.0", "3", None));
    assert_eq!(text_of(decode_property(&prop)), "3");
    let prop = typed("checkbox", Json::Bool(true));
    assert_eq!(text_of(decode_property(&prop)), "true");
    let prop = typed(
        "date",
        obj(vec![("start", s("2024-01-01")), ("end", s("2024-01-05")), ("time_zone", s("UTC"))]),
    );
    assert_eq!(text_of(decode_property(&prop)), "2024-01-01..2024-01-05 UTC");
    let prop = typed("date", obj(vec![("start", s("2024-01-01"))]));
    assert_eq!(text_of(decode_property(&prop)), "2024-01-01");
}

#[test]
fn decodes_people_files_relation() {
    let prop = typed(
        "people",
        Json::Arr(vec![obj(vec![("name", s("Ada"))]), obj(vec![("id", s("u2"))])]),
    );
    assert_eq!(list_of(decode_property(&prop)), vec!["Ada", "u2"]);
    let prop = typed(
        "files",
        Json::Arr(vec![
            obj(vec![("name", s("report.pdf"))]),
            obj(vec![("file", obj(vec![("url", s("https://f"))]))]),
            obj(vec![("external", obj(vec![("url", s("https://e"))]))]),
        ]),
    );
    assert_eq!(list_of(decode_property(&prop)), vec!["report.pdf", "https://f", "https://e"]);
    let prop = typed(
        "relation",
        Json::Arr(vec![obj(vec![("id", s("r1"))]), obj(vec![("id", s("r2"))])]),
    );
    assert_eq!(list_of(decode_property(&prop)), vec!["r1", "r2"]);
}

#[test]
fn decodes_scalar_string_kinds() {
    for kind in ["url", "email", "phone_number", "created_time", "last_edited_time"] {
        let prop = typed(kind, s("value"));
        assert_eq!(text_of(decode_property(&prop)), "value");
    }
    let prop = typed("created_by", obj(vec![("name", s("Ada"))]));
    assert_eq!(text_of(decode_property(&prop)), "Ada");
    let prop = typed("last_edited_by", obj(vec![("id", s("u9"))]));
    assert_eq!(text_of(decode_property(&prop)), "u9");
}

#[test]
fn decodes_formula_rollup_unique_id() {
    let prop = typed("formula", obj(vec![("type", s("string")), ("string", s("out"))]));
    assert_eq!(text_of(decode_property(&prop)), "out");
    let prop = typed("formula", obj(vec![("type", s("boolean")), ("boolean", Json::Bool(false))]));
    assert_eq!(text_of(decode_property(&prop)), "false");
    let rollup_items = Json::Arr(vec![
        typed("title", rich(&["T1"])),
        typed("number", num("2", "2", Some("2"))),
    ]);
    let prop = typed("rollup", obj(vec![("type", s("array")), ("array", rollup_items)]));
    assert_eq!(list_of(decode_property(&prop)), vec!["T1", "2"]);
    let prop = typed(
        "unique_id",
        obj(vec![("prefix", s("TASK-")), ("number", num("17", "17", Some("17")))]),
    );
    assert_eq!(text_of(decode_property(&prop)), "TASK-17");
    let prop = typed("unique_id", obj(vec![("number", num("4", "4", Some("4")))]));
    assert_eq!(text_of(decode_property(&prop)), "4");
}

#[test]
fn generic_coercion_for_unknown_kinds() {
    let prop = typed("mystery", s("plain"));
    assert_eq!(text_of(decode_property(&prop)), "plain");
    let prop = typed("mystery", Json::Arr(vec![s("a"), num("1", "1", Some("1")), Json::Null]));
    assert_eq!(list_of(decode_property(&prop)), vec!["a", "1"]);
    let prop = typed("mystery", Json::Null);
    assert!(decode_property(&prop).is_none());
}

#[test]
fn json_serialization_matches_external_encoder() {
    // keys already in sorted order, since the external encoder's map sorts
    let v = obj(vec![
        ("l", Json::Arr(vec![Json::Bool(true), Json::Null])),
        ("n", num("3.25", "3.25", None)),
        ("s", s("a\"b\n")),
    ]);
    let ours = json_to_string(&v);
    let theirs = serde_json::to_string(&serde_json::from_str::<serde_json::Value>(&ours).unwrap())
        .unwrap();
    assert_eq!(ours, theirs);
}

#[test]
fn title_extraction_takes_first_nonempty_title() {
    let props = obj(vec![
        ("Name", typed("title", rich(&[]))),
        ("Other", typed("rich_text", rich(&["no"]))),
        ("Label", typed("title", rich(&["The Title"]))),
    ]);
    assert_eq!(extract_page_title(&props), Some("The Title".to_string()));
    assert_eq!(extract_page_title(&s("not an object")), None);
}

#[test]
fn properties_are_key_ordered_and_unique() {
    let props = obj(vec![
        ("zeta", typed("checkbox", Json::Bool(false))),
        ("alpha", typed("url", s("https://a"))),
        ("zeta", typed("checkbox", Json::Bool(true))),
        ("Mid", typed("url", s("m"))),
    ]);
    let decoded = extract_page_properties(&props);
    let keys: Vec<&str> = decoded.iter().map(|(k, _)| k.as_str()).collect();
    assert_eq!(keys, vec!["Mid", "alpha", "zeta"]);
    match &decoded[2].1 {
        PropertyValue::Text(t) => assert_eq!(t, "true"),
        _ => panic!("expected the replacing value"),
    }
}

#[test]
fn undecodable_properties_are_omitted() {
    let props = obj(vec![
        ("bad", typed("select", obj(vec![]))),
        ("good", typed("url", s("https://g"))),
    ]);
    let decoded = extract_page_properties(&props);
    assert_eq!(decoded.len(), 1);
    assert_eq!(decoded[0].0, "good");
}
