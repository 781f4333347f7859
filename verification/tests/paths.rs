use easel::document::EaselFile;
use easel::desktop::{apply_canvas_state, document_for_save, registration, CanvasMeta};
use easel::binary64::Binary64;
use easel::error::{EaselError, ErrorKind};
use easel::json::{position_of, set_field, Json, Number};
use easel::paths::{canvas_easel_path, canvas_id_of_file, canvases_dir, join};
use easel::text::{joined, same_text};

fn desk_pair(key: &str, value: Json) -> (String, Json) {
    (key.to_string(), value)
}

fn desk_real(x: f64) -> Number {
    Number::Real(Binary64::from_bits(x.to_bits()))
}

#[test]
fn canvases_lie_under_the_data_directory() {
    assert_eq!(canvases_dir("/data/app"), "/data/app/canvases");
    assert_eq!(canvases_dir("/data/app/"), "/data/app/canvases");
    assert_eq!(canvases_dir(""), "canvases");
    assert_eq!(canvases_dir("relative"), "relative/canvases");
}

#[test]
fn a_canvas_file_is_named_by_its_id() {
    assert_eq!(canvas_easel_path("/data/app", "abc-123"), "/data/app/canvases/abc-123.easel");
    assert_eq!(canvas_easel_path("/data/app/", "x"), "/data/app/canvases/x.easel");
    assert_eq!(canvas_easel_path("/data", ""), "/data/canvases/.easel");
}

#[test]
fn a_name_that_starts_at_the_root_stands_for_itself() {
    assert_eq!(join("/data/app", "/etc/x"), "/etc/x");
    assert_eq!(canvas_easel_path("/data/app", "/tmp/x"), "/tmp/x.easel");
    assert_eq!(join("/data", ""), "/data/");
    assert_eq!(join("", ""), "");
    assert_eq!(join("/", "a"), "/a");
    assert_eq!(join("dir\u{e9}", "\u{44e}"), "dir\u{e9}/\u{44e}");
}

#[test]
fn the_id_of_a_file_is_what_stands_before_the_extension() {
    assert_eq!(canvas_id_of_file("abc.easel"), Some("abc".to_string()));
    assert_eq!(canvas_id_of_file("a.b.easel"), Some("a.b".to_string()));
    assert_eq!(canvas_id_of_file("\u{e9}t\u{e9}.easel"), Some("\u{e9}t\u{e9}".to_string()));
    assert_eq!(canvas_id_of_file(".easel"), None);
    assert_eq!(canvas_id_of_file("abc.easel.tmp"), None);
    assert_eq!(canvas_id_of_file("abc.EASEL"), None);
    assert_eq!(canvas_id_of_file("abceasel"), None);
    assert_eq!(canvas_id_of_file("easel"), None);
    assert_eq!(canvas_id_of_file(""), None);
}

#[test]
fn file_name_and_id_go_back_and_forth() {
    for id in ["a", "3f2a", "with space", "d\u{f6}t.ted"] {
        let path = canvas_easel_path("/data", id);
        let name = path.rsplit('/').next().unwrap();
        assert_eq!(canvas_id_of_file(name), Some(id.to_string()));
    }
}

#[test]
fn registration_takes_name_and_times_from_the_file() {
    let mut doc = EaselFile::with_timestamp("Poster", "2024-01-01T00:00:00Z");
    doc.updated_at = "2024-03-03T00:00:00Z".to_string();
    assert_eq!(
        registration("abc", &doc, 4, 2),
        CanvasMeta {
            id: "abc".to_string(),
            name: "Poster".to_string(),
            sort_order: 6,
            created_at: "2024-01-01T00:00:00Z".to_string(),
            updated_at: "2024-03-03T00:00:00Z".to_string(),
        }
    );
}

#[test]
fn saved_state_replaces_canvas_and_viewport() {
    let mut doc = EaselFile::with_timestamp("Poster", "t0");
    let canvas = Json::Object(vec![desk_pair(
        "objects",
        Json::List(vec![Json::Object(vec![desk_pair("id", Json::text("a"))])]),
    )]);
    let transform = Json::List(vec![Json::unsigned(2), Json::Number(desk_real(0.5))]);
    apply_canvas_state(&mut doc, &canvas, desk_real(1.5), &transform).unwrap();
    assert_eq!(doc.canvas, canvas);
    assert_eq!(doc.viewport.zoom, desk_real(1.5));
    assert_eq!(doc.viewport.transform, vec![Number::Unsigned(2), desk_real(0.5)]);
    assert_eq!(doc.name, "Poster");
    assert_eq!(doc.updated_at, "t0");
    assert!(doc.find_object("a").is_some());
}

#[test]
fn saved_state_of_the_wrong_shape_is_refused() {
    let mut doc = EaselFile::with_timestamp("Poster", "t0");
    let before = doc.clone();
    let good_canvas = Json::Object(vec![]);
    let good_transform = Json::List(vec![]);
    let err = apply_canvas_state(&mut doc, &Json::Null, desk_real(1.0), &good_transform);
    assert_eq!(err, Err(EaselError::new(ErrorKind::Format, "canvas")));
    let err = apply_canvas_state(&mut doc, &good_canvas, desk_real(1.0), &Json::text("[]"));
    assert_eq!(err, Err(EaselError::new(ErrorKind::Format, "viewportTransform")));
    let mixed = Json::List(vec![Json::Null]);
    let err = apply_canvas_state(&mut doc, &good_canvas, desk_real(1.0), &mixed);
    assert_eq!(err, Err(EaselError::new(ErrorKind::Format, "viewportTransform")));
    let err = apply_canvas_state(&mut doc, &Json::Null, desk_real(1.0), &mixed);
    assert_eq!(err.unwrap_err().subject, "canvas");
    assert_eq!(doc, before);
    apply_canvas_state(&mut doc, &good_canvas, desk_real(1.0), &good_transform).unwrap();
    assert!(doc.is_well_formed());
    assert!(doc.viewport.transform.is_empty());
}

#[test]
fn a_document_is_made_where_none_was_loaded() {
    let made = document_for_save(None, Some("Named"), "t1");
    assert_eq!(made, EaselFile::with_timestamp("Named", "t1"));
    let untitled = document_for_save(None, None, "t1");
    assert_eq!(untitled.name, "Untitled");
    let loaded = EaselFile::with_timestamp("Old", "t0");
    assert_eq!(document_for_save(Some(loaded.clone()), Some("Named"), "t1"), loaded);
}

#[test]
fn legacy_rows_become_documents() {
    let canvas = Json::Object(vec![desk_pair("background", Json::text("#fff"))]);
    let transform = Json::List(vec![Json::unsigned(1), Json::unsigned(0)]);
    let doc = EaselFile::from_legacy(
        "Old",
        Some(&canvas),
        desk_real(2.0),
        Some(&transform),
        "2020-01-01 00:00:00",
        "2021-01-01 00:00:00",
    );
    assert_eq!(doc.format_version, 1);
    assert_eq!(doc.name, "Old");
    assert_eq!(
        doc.canvas,
        Json::Object(vec![
            desk_pair("background", Json::text("#fff")),
            desk_pair("objects", Json::List(vec![])),
        ])
    );
    assert_eq!(doc.viewport.zoom, desk_real(2.0));
    assert_eq!(doc.viewport.transform, vec![Number::Unsigned(1), Number::Unsigned(0)]);
    assert_eq!(doc.created_at, "2020-01-01 00:00:00");
    assert_eq!(doc.updated_at, "2021-01-01 00:00:00");
}

#[test]
fn legacy_rows_that_cannot_be_read_get_the_defaults() {
    let doc = EaselFile::from_legacy("Old", None, desk_real(1.0), None, "c", "u");
    let fresh = EaselFile::with_timestamp("Old", "c");
    assert_eq!(doc.canvas, fresh.canvas);
    assert_eq!(doc.viewport, fresh.viewport);
    let odd = EaselFile::from_legacy(
        "Old",
        Some(&Json::List(vec![])),
        desk_real(1.0),
        Some(&Json::List(vec![Json::text("1")])),
        "c",
        "u",
    );
    assert_eq!(odd.canvas, fresh.canvas);
    assert_eq!(odd.viewport.transform, fresh.viewport.transform);
    assert_eq!(odd.updated_at, "u");
}

#[test]
fn every_kind_of_failure_has_its_message() {
    assert_eq!(EaselError::new(ErrorKind::Io, "disk full").message(), "I/O error: disk full");
    assert_eq!(
        EaselError::new(ErrorKind::Format, "canvas").message(),
        "Invalid document: canvas"
    );
    assert_eq!(EaselError::new(ErrorKind::NotFound, "a").message(), "Object not found: a");
    assert_eq!(
        EaselError::new(ErrorKind::InvalidArgument, "star").message(),
        "Unknown object type: star. Use rect, ellipse, text, or frame."
    );
    assert_eq!(
        EaselError::new(ErrorKind::AlreadyExists, "/p").message(),
        "File already exists: /p"
    );
}

#[test]
fn only_two_kinds_of_failure_lie_with_the_caller() {
    assert!(ErrorKind::InvalidArgument.blames_caller());
    assert!(ErrorKind::AlreadyExists.blames_caller());
    assert!(!ErrorKind::NotFound.blames_caller());
    assert!(!ErrorKind::Io.blames_caller());
    assert!(!ErrorKind::Format.blames_caller());
}

#[test]
fn texts_are_compared_by_their_characters() {
    assert!(same_text("", ""));
    assert!(same_text("id", "id"));
    assert!(!same_text("id", "ID"));
    assert!(!same_text("id", "idx"));
    assert!(same_text("\u{e9}\u{1f600}", "\u{e9}\u{1f600}"));
    assert!(!same_text("\u{e9}", "e"));
    assert_eq!(joined("ab", "cd"), "abcd");
}

#[test]
fn setting_a_key_overwrites_in_place_or_appends() {
    let mut fields = vec![desk_pair("a", Json::unsigned(1)), desk_pair("b", Json::unsigned(2))];
    set_field(&mut fields, "a", Json::Null);
    set_field(&mut fields, "c", Json::Bool(true));
    assert_eq!(
        fields,
        vec![desk_pair("a", Json::Null), desk_pair("b", Json::unsigned(2)), desk_pair("c", Json::Bool(true))]
    );
    assert_eq!(position_of(&fields, "b"), 1);
    assert_eq!(position_of(&fields, "z"), 3);
}

#[test]
fn lookup_finds_the_first_entry_with_a_key() {
    let value = Json::Object(vec![
        desk_pair("k", Json::unsigned(1)),
        desk_pair("k", Json::unsigned(2)),
    ]);
    assert_eq!(value.get("k"), Some(&Json::unsigned(1)));
    assert_eq!(value.get("K"), None);
    assert_eq!(Json::List(vec![]).get("k"), None);
    assert_eq!(Json::text("t").as_str(), Some("t"));
    assert_eq!(Json::Null.as_str(), None);
    assert_eq!(Json::unsigned(4).as_number(), Some(Number::Unsigned(4)));
    assert_eq!(Json::Bool(true).as_number(), None);
    assert_eq!(Json::Null.as_array(), None);
    assert_eq!(Json::Null.as_object(), None);
}

#[test]
fn a_copy_of_a_value_is_equal_to_it() {
    let value = Json::Object(vec![
        desk_pair("list", Json::List(vec![Json::Null, Json::text("x"), Json::Number(desk_real(-0.0))])),
        desk_pair("inner", Json::Object(vec![desk_pair("deep", Json::List(vec![Json::List(vec![])]))])),
    ]);
    assert_eq!(value.clone(), value);
}
