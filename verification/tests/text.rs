use easel::binary64::Binary64;
use easel::commands::{
    create_object_with, delete_objects_at, list_easel_files, update_object_at,
    CreateObjectParams, FoundFile,
};
use easel::document::EaselFile;
use easel::json::{Json, Number};
use serde_json::Value;

fn text_from_value(v: Value) -> Json {
    match v {
        Value::Null => Json::Null,
        Value::Bool(b) => Json::Bool(b),
        Value::Number(n) => {
            if let Some(u) = n.as_u64() {
                Json::Number(Number::Unsigned(u))
            } else if let Some(i) = n.as_i64() {
                Json::Number(Number::Signed(i))
            } else {
                let x = n.as_f64().unwrap();
                Json::Number(Number::Real(Binary64::from_bits(x.to_bits())))
            }
        }
        Value::String(s) => Json::Text(s),
        Value::Array(items) => Json::List(items.into_iter().map(text_from_value).collect()),
        Value::Object(map) => {
            Json::Object(map.into_iter().map(|(k, v)| (k, text_from_value(v))).collect())
        }
    }
}

fn text_to_value(j: &Json) -> Value {
    match j {
        Json::Null => Value::Null,
        Json::Bool(b) => Value::Bool(*b),
        Json::Number(Number::Unsigned(u)) => Value::from(*u),
        Json::Number(Number::Signed(i)) => Value::from(*i),
        Json::Number(Number::Real(x)) => Value::from(f64::from_bits(x.to_bits())),
        Json::Text(s) => Value::String(s.clone()),
        Json::List(items) => Value::Array(items.iter().map(text_to_value).collect()),
        Json::Object(fields) => {
            let mut map = serde_json::Map::new();
            for (k, v) in fields {
                map.insert(k.clone(), text_to_value(v));
            }
            Value::Object(map)
        }
    }
}

fn text_read(text: &str) -> Option<EaselFile> {
    let value: Value = serde_json::from_str(text).ok()?;
    EaselFile::load(&text_from_value(value)).ok()
}

fn text_write(doc: &EaselFile) -> String {
    serde_json::to_string_pretty(&text_to_value(&doc.save())).unwrap()
}

const TEXT_DOCUMENT: &str = r##"{
  "formatVersion": 1,
  "name": "Poster",
  "canvas": {
    "version": "7.0.0",
    "background": "#fafafa",
    "objects": [
      {"type": "Rect", "id": "r1", "left": 10.5, "top": -3, "fill": "#d9d9d9"},
      {"type": "Group", "id": "g1", "objects": [
        {"type": "IText", "id": "t1", "text": "Hi", "styles": {"0": {"1": {"bold": true}}}},
        {"type": "Ellipse", "id": "e1", "rx": 20.0, "ry": 10.0}
      ]}
    ]
  },
  "viewport": {"zoom": 1.25, "transform": [1.0, 0.0, 0.0, 1.0, 12.0, -8.0]},
  "createdAt": "2024-01-01T00:00:00Z",
  "updatedAt": "2024-01-02T00:00:00Z"
}"##;

#[test]
fn a_document_survives_text() {
    let doc = text_read(TEXT_DOCUMENT).unwrap();
    assert_eq!(doc.name, "Poster");
    assert_eq!(doc.objects().len(), 2);
    let again = text_read(&text_write(&doc)).unwrap();
    assert_eq!(again, doc);
}

#[test]
fn a_changed_document_survives_text() {
    let mut doc = text_read(TEXT_DOCUMENT).unwrap();
    let params = CreateObjectParams {
        file_path: String::new(),
        object_type: "ellipse".to_string(),
        x: Binary64::from_bits(0.1f64.to_bits()),
        y: Binary64::from_bits(1e-7f64.to_bits()),
        width: Binary64::from_bits(40.0f64.to_bits()),
        height: Binary64::from_bits(20.0f64.to_bits()),
        fill: None,
        stroke: None,
        name: None,
        text: None,
        font_size: None,
    };
    create_object_with(&mut doc, &params, "new", "2024-03-03T00:00:00Z").unwrap();
    let props = text_from_value(serde_json::from_str(r##"{"fill": "#000000", "id": "x"}"##).unwrap());
    update_object_at(&mut doc, "t1", &props, "2024-03-04T00:00:00Z").unwrap();
    delete_objects_at(&mut doc, &["r1".to_string()], "2024-03-05T00:00:00Z");
    let text = text_write(&doc);
    assert!(text.contains("\"rx\": 20.0"));
    assert!(text.contains("\"ry\": 10.0"));
    assert!(text.contains("\"bold\": true"));
    assert!(text.contains("\"background\": \"#fafafa\""));
    assert!(!text.contains("\"r1\""));
    assert_eq!(text_read(&text).unwrap(), doc);
}

#[test]
fn unknown_members_pass_through_an_update_untouched() {
    let mut doc = text_read(TEXT_DOCUMENT).unwrap();
    let before = doc.find_object("t1").unwrap().clone();
    let props = Json::Object(vec![("fill".to_string(), Json::text("#111111"))]);
    let updated = update_object_at(&mut doc, "t1", &props, "t").unwrap();
    assert_eq!(updated.get("styles"), before.get("styles"));
    assert_eq!(updated.get("text"), Some(&Json::text("Hi")));
    assert_eq!(doc.find_object("e1").unwrap().get("rx"), Some(&text_from_value(Value::from(20.0))));
}

#[test]
fn a_corrupt_file_is_passed_over_in_a_listing() {
    let found = vec![
        FoundFile { path: "a/good.easel".to_string(), document: text_read(TEXT_DOCUMENT) },
        FoundFile { path: "a/corrupt.easel".to_string(), document: text_read("{ not json") },
        FoundFile {
            path: "a/shapeless.easel".to_string(),
            document: text_read(r##"{"formatVersion": 1, "name": "x"}"##),
        },
    ];
    let listed = list_easel_files(&found);
    assert_eq!(listed.len(), 1);
    assert_eq!(listed[0].path, "a/good.easel");
    assert_eq!(listed[0].name, "Poster");
    assert_eq!(listed[0].object_count, 2);
}
