use easel::binary64::Binary64;
use easel::commands::{
    build_object, create_easel_file, create_easel_file_at, create_object, create_object_with,
    created_file_answer, delete_objects, delete_objects_at, document_for_create, get_object,
    list_easel_files, listing_answer, merge_properties, search_pattern, update_object,
    update_object_at, CreateEaselFileParams, CreateObjectParams, DeleteReport, EaselFileInfo,
    FoundFile,
};
use easel::document::EaselFile;
use easel::error::ErrorKind;
use easel::json::{Json, Number};

fn cmd_real(x: f64) -> Binary64 {
    Binary64::from_bits(x.to_bits())
}

fn cmd_num(x: f64) -> Json {
    Json::Number(Number::Real(cmd_real(x)))
}

fn cmd_params(kind: &str) -> CreateObjectParams {
    CreateObjectParams {
        file_path: "doc.easel".to_string(),
        object_type: kind.to_string(),
        x: cmd_real(100.0),
        y: cmd_real(100.0),
        width: cmd_real(200.0),
        height: cmd_real(200.0),
        fill: None,
        stroke: None,
        name: None,
        text: None,
        font_size: None,
    }
}

fn cmd_doc() -> EaselFile {
    EaselFile::with_timestamp("Sketch", "2024-01-01T00:00:00Z")
}

fn cmd_pair(key: &str, value: Json) -> (String, Json) {
    (key.to_string(), value)
}

fn cmd_strings(items: &[&str]) -> Vec<String> {
    items.iter().map(|s| s.to_string()).collect()
}

#[test]
fn rect_gets_its_defaults() {
    let node = build_object(&cmd_params("rect"), "id-1").unwrap();
    assert_eq!(
        node,
        Json::Object(vec![
            cmd_pair("type", Json::text("Rect")),
            cmd_pair("id", Json::text("id-1")),
            cmd_pair("name", Json::text("Rectangle")),
            cmd_pair("left", cmd_num(100.0)),
            cmd_pair("top", cmd_num(100.0)),
            cmd_pair("width", cmd_num(200.0)),
            cmd_pair("height", cmd_num(200.0)),
            cmd_pair("fill", Json::text("#d9d9d9")),
            cmd_pair("stroke", Json::text("#b3b3b3")),
            cmd_pair("strokeWidth", Json::unsigned(1)),
            cmd_pair("strokeUniform", Json::Bool(true)),
            cmd_pair("originX", Json::text("left")),
            cmd_pair("originY", Json::text("top")),
            cmd_pair("version", Json::text("7.0.0")),
        ])
    );
}

#[test]
fn ellipse_radii_are_half_the_size() {
    let mut params = cmd_params("ellipse");
    params.width = cmd_real(40.0);
    params.height = cmd_real(20.0);
    let node = build_object(&params, "e").unwrap();
    assert_eq!(node.get("rx"), Some(&cmd_num(20.0)));
    assert_eq!(node.get("ry"), Some(&cmd_num(10.0)));
    assert_eq!(node.get("width"), None);
    assert_eq!(node.get("height"), None);
    assert_eq!(node.get("type"), Some(&Json::text("Ellipse")));
    assert_eq!(node.get("name"), Some(&Json::text("Ellipse")));
    assert_eq!(node.get("fill"), Some(&Json::text("#d9d9d9")));
    assert_eq!(node.get("stroke"), Some(&Json::text("#b3b3b3")));
}

#[test]
fn ellipse_with_default_size_has_radius_one_hundred() {
    let node = build_object(&cmd_params("ellipse"), "e").unwrap();
    assert_eq!(node.get("rx"), Some(&cmd_num(100.0)));
    assert_eq!(node.get("ry"), Some(&cmd_num(100.0)));
}

#[test]
fn text_gets_its_defaults() {
    let node = build_object(&cmd_params("text"), "t").unwrap();
    assert_eq!(
        node,
        Json::Object(vec![
            cmd_pair("type", Json::text("IText")),
            cmd_pair("id", Json::text("t")),
            cmd_pair("name", Json::text("Text")),
            cmd_pair("text", Json::text("Text")),
            cmd_pair("left", cmd_num(100.0)),
            cmd_pair("top", cmd_num(100.0)),
            cmd_pair("fontSize", cmd_num(16.0)),
            cmd_pair("fontFamily", Json::text("Inter, system-ui, sans-serif")),
            cmd_pair("fill", Json::text("#ffffff")),
            cmd_pair("originX", Json::text("left")),
            cmd_pair("originY", Json::text("top")),
            cmd_pair("version", Json::text("7.0.0")),
        ])
    );
}

#[test]
fn frame_is_a_marked_rectangle_with_its_own_palette() {
    let mut params = cmd_params("frame");
    params.fill = Some("#123456".to_string());
    params.stroke = Some("#654321".to_string());
    let node = build_object(&params, "f").unwrap();
    assert_eq!(node.get("type"), Some(&Json::text("Rect")));
    assert_eq!(node.get("isFrame"), Some(&Json::Bool(true)));
    assert_eq!(node.get("name"), Some(&Json::text("Frame")));
    assert_eq!(node.get("fill"), Some(&Json::text("#ffffff")));
    assert_eq!(node.get("stroke"), Some(&Json::text("#e0e0e0")));
    assert_eq!(node.get("width"), Some(&cmd_num(200.0)));
}

#[test]
fn given_members_replace_the_defaults() {
    let mut params = cmd_params("text");
    params.fill = Some("#000000".to_string());
    params.name = Some("Title".to_string());
    params.text = Some("Hello".to_string());
    params.font_size = Some(cmd_real(32.0));
    params.x = cmd_real(5.5);
    let node = build_object(&params, "t").unwrap();
    assert_eq!(node.get("fill"), Some(&Json::text("#000000")));
    assert_eq!(node.get("name"), Some(&Json::text("Title")));
    assert_eq!(node.get("text"), Some(&Json::text("Hello")));
    assert_eq!(node.get("fontSize"), Some(&cmd_num(32.0)));
    assert_eq!(node.get("left"), Some(&cmd_num(5.5)));
}

#[test]
fn unknown_type_is_an_invalid_argument() {
    let mut doc = cmd_doc();
    let before = doc.clone();
    let err = create_object_with(&mut doc, &cmd_params("star"), "s", "later").unwrap_err();
    assert_eq!(err.kind, ErrorKind::InvalidArgument);
    assert_eq!(err.subject, "star");
    assert_eq!(
        err.message(),
        "Unknown object type: star. Use rect, ellipse, text, or frame."
    );
    assert_eq!(doc, before);
}

#[test]
fn type_names_are_matched_exactly() {
    assert!(build_object(&cmd_params("Rect"), "r").is_err());
    assert!(build_object(&cmd_params(""), "r").is_err());
    assert!(build_object(&cmd_params("rect "), "r").is_err());
}

#[test]
fn created_node_goes_last_at_the_top_level() {
    let mut doc = cmd_doc();
    create_object_with(&mut doc, &cmd_params("rect"), "a", "t1").unwrap();
    let made = create_object_with(&mut doc, &cmd_params("text"), "b", "t2").unwrap();
    assert_eq!(doc.objects().len(), 2);
    assert_eq!(doc.objects()[1], made);
    assert_eq!(doc.updated_at, "t2");
    assert_eq!(doc.created_at, "2024-01-01T00:00:00Z");
    assert_eq!(doc.find_object("b"), Some(&made));
}

#[test]
fn create_object_draws_an_id_that_was_not_there() {
    let mut doc = cmd_doc();
    let first = create_object(&mut doc, &cmd_params("rect")).unwrap();
    let first_id = first.get("id").and_then(|v| v.as_str()).unwrap().to_string();
    assert_eq!(first_id.len(), 36);
    for (i, c) in first_id.chars().enumerate() {
        if i == 8 || i == 13 || i == 18 || i == 23 {
            assert_eq!(c, '-');
        } else {
            assert!(c.is_ascii_hexdigit() && !c.is_ascii_uppercase());
        }
    }
    let before = doc.clone();
    let second = create_object(&mut doc, &cmd_params("ellipse")).unwrap();
    let second_id = second.get("id").and_then(|v| v.as_str()).unwrap().to_string();
    assert_eq!(before.find_object(&second_id), None);
    assert_ne!(first_id, second_id);
    assert_eq!(doc.find_object(&second_id), Some(&second));
    assert_eq!(doc.updated_at.len(), 20);
}

#[test]
fn create_into_a_missing_document_makes_an_untitled_one() {
    let mut doc = document_for_create(None, "t0");
    assert_eq!(doc.name, "Untitled");
    assert!(doc.objects().is_empty());
    create_object_with(&mut doc, &cmd_params("rect"), "a", "t1").unwrap();
    assert_eq!(doc.objects().len(), 1);
    let kept = document_for_create(Some(doc.clone()), "t2");
    assert_eq!(kept, doc);
}

#[test]
fn update_changes_only_what_is_not_protected() {
    let mut doc = cmd_doc();
    let made = create_object_with(&mut doc, &cmd_params("rect"), "a", "t1").unwrap();
    let props = Json::Object(vec![
        cmd_pair("id", Json::text("x")),
        cmd_pair("type", Json::text("Ellipse")),
        cmd_pair("fill", Json::text("#000000")),
    ]);
    let updated = update_object_at(&mut doc, "a", &props, "t2").unwrap();
    let mut expected = made.clone();
    if let Json::Object(fields) = &mut expected {
        for field in fields.iter_mut() {
            if field.0 == "fill" {
                field.1 = Json::text("#000000");
            }
        }
    }
    assert_eq!(updated, expected);
    assert_eq!(updated.get("id"), Some(&Json::text("a")));
    assert_eq!(updated.get("type"), Some(&Json::text("Rect")));
    assert_eq!(doc.find_object("a"), Some(&expected));
    assert_eq!(doc.find_object("x"), None);
    assert_eq!(doc.updated_at, "t2");
}

#[test]
fn update_adds_new_keys_at_the_end() {
    let mut doc = cmd_doc();
    create_object_with(&mut doc, &cmd_params("rect"), "a", "t1").unwrap();
    let props = Json::Object(vec![
        cmd_pair("angle", cmd_num(45.0)),
        cmd_pair("left", cmd_num(1.0)),
    ]);
    let updated = update_object_at(&mut doc, "a", &props, "t2").unwrap();
    assert_eq!(updated.get("angle"), Some(&cmd_num(45.0)));
    assert_eq!(updated.get("left"), Some(&cmd_num(1.0)));
    let fields = updated.as_object().unwrap();
    assert_eq!(fields.len(), 15);
    assert_eq!(fields[14].0, "angle");
    assert_eq!(fields[3].0, "left");
}

#[test]
fn update_reaches_a_nested_node_by_its_own_id() {
    let child = Json::Object(vec![
        cmd_pair("type", Json::text("Rect")),
        cmd_pair("id", Json::text("child")),
        cmd_pair("custom", Json::List(vec![Json::Null, Json::unsigned(3)])),
    ]);
    let group = Json::Object(vec![
        cmd_pair("type", Json::text("Group")),
        cmd_pair("id", Json::text("g")),
        cmd_pair("objects", Json::List(vec![child.clone()])),
    ]);
    let mut doc = cmd_doc();
    doc.objects_mut().push(group);
    assert_eq!(get_object(&doc, "child").unwrap(), &child);
    let props = Json::Object(vec![cmd_pair("fill", Json::text("#ff0000"))]);
    let updated = update_object_at(&mut doc, "child", &props, "t2").unwrap();
    assert_eq!(updated.get("fill"), Some(&Json::text("#ff0000")));
    assert_eq!(
        updated.get("custom"),
        Some(&Json::List(vec![Json::Null, Json::unsigned(3)]))
    );
    assert_eq!(doc.objects().len(), 1);
    assert_eq!(doc.find_object("child"), Some(&updated));
    assert_eq!(doc.objects()[0].get("id"), Some(&Json::text("g")));
}

#[test]
fn update_of_a_missing_id_is_not_found() {
    let mut doc = cmd_doc();
    create_object_with(&mut doc, &cmd_params("rect"), "a", "t1").unwrap();
    let before = doc.clone();
    let props = Json::Object(vec![cmd_pair("fill", Json::text("#000000"))]);
    let err = update_object_at(&mut doc, "missing", &props, "t2").unwrap_err();
    assert_eq!(err.kind, ErrorKind::NotFound);
    assert_eq!(err.subject, "missing");
    assert_eq!(err.message(), "Object not found: missing");
    assert_eq!(doc, before);
}

#[test]
fn update_with_properties_that_are_no_object_changes_no_member() {
    let mut doc = cmd_doc();
    let made = create_object_with(&mut doc, &cmd_params("rect"), "a", "t1").unwrap();
    let updated = update_object_at(&mut doc, "a", &Json::List(vec![]), "t2").unwrap();
    assert_eq!(updated, made);
    assert_eq!(doc.updated_at, "t2");
}

#[test]
fn update_object_stamps_the_present_moment() {
    let mut doc = cmd_doc();
    create_object_with(&mut doc, &cmd_params("rect"), "a", "t1").unwrap();
    let props = Json::Object(vec![cmd_pair("fill", Json::text("#000000"))]);
    update_object(&mut doc, "a", &props).unwrap();
    assert_eq!(doc.updated_at.len(), 20);
    assert!(doc.updated_at.as_str() > "2024-01-01T00:00:00Z");
}

#[test]
fn merge_lets_the_later_of_two_equal_keys_win() {
    let mut node = Json::Object(vec![cmd_pair("id", Json::text("a"))]);
    let props = Json::Object(vec![
        cmd_pair("fill", Json::text("#111111")),
        cmd_pair("fill", Json::text("#222222")),
    ]);
    merge_properties(&mut node, &props);
    assert_eq!(
        node,
        Json::Object(vec![
            cmd_pair("id", Json::text("a")),
            cmd_pair("fill", Json::text("#222222")),
        ])
    );
}

#[test]
fn merge_into_what_is_no_object_does_nothing() {
    let mut node = Json::text("plain");
    merge_properties(&mut node, &Json::Object(vec![cmd_pair("fill", Json::Null)]));
    assert_eq!(node, Json::text("plain"));
}

#[test]
fn delete_reports_deleted_and_not_found() {
    let mut doc = cmd_doc();
    create_object_with(&mut doc, &cmd_params("rect"), "existing", "t1").unwrap();
    let report = delete_objects_at(&mut doc, &cmd_strings(&["existing", "missing"]), "t2");
    assert_eq!(
        report,
        DeleteReport {
            deleted: cmd_strings(&["existing"]),
            not_found: cmd_strings(&["missing"]),
        }
    );
    assert_eq!(doc.find_object("existing"), None);
    assert!(doc.objects().is_empty());
    assert_eq!(doc.updated_at, "t2");
}

#[test]
fn delete_of_nothing_still_stamps_the_change() {
    let mut doc = cmd_doc();
    let report = delete_objects_at(&mut doc, &cmd_strings(&["missing"]), "t9");
    assert!(report.deleted.is_empty());
    assert_eq!(report.not_found, cmd_strings(&["missing"]));
    assert_eq!(doc.updated_at, "t9");
}

#[test]
fn delete_does_not_report_an_id_twice_as_missing() {
    let mut doc = cmd_doc();
    create_object_with(&mut doc, &cmd_params("rect"), "a", "t1").unwrap();
    let report = delete_objects_at(&mut doc, &cmd_strings(&["a", "a", "b", "b"]), "t2");
    assert_eq!(report.deleted, cmd_strings(&["a"]));
    assert_eq!(report.not_found, cmd_strings(&["b", "b"]));
}

#[test]
fn delete_objects_stamps_the_present_moment() {
    let mut doc = cmd_doc();
    create_object_with(&mut doc, &cmd_params("rect"), "a", "t1").unwrap();
    let report = delete_objects(&mut doc, &cmd_strings(&["a"]));
    assert_eq!(report.deleted, cmd_strings(&["a"]));
    assert_eq!(doc.updated_at.len(), 20);
}

#[test]
fn deletion_answer_lists_both_sets() {
    let report = DeleteReport {
        deleted: cmd_strings(&["a"]),
        not_found: cmd_strings(&["m", "n"]),
    };
    assert_eq!(
        report.to_json(),
        Json::Object(vec![
            cmd_pair("deleted", Json::List(vec![Json::text("a")])),
            cmd_pair("notFound", Json::List(vec![Json::text("m"), Json::text("n")])),
        ])
    );
}

#[test]
fn get_object_of_a_missing_id_is_not_found() {
    let doc = cmd_doc();
    let err = get_object(&doc, "nope").unwrap_err();
    assert_eq!(err.kind, ErrorKind::NotFound);
    assert_eq!(err.subject, "nope");
}

#[test]
fn create_file_never_overwrites() {
    let params = CreateEaselFileParams {
        file_path: "/tmp/a.easel".to_string(),
        name: "Mine".to_string(),
    };
    let err = create_easel_file_at(&params, true, "t").unwrap_err();
    assert_eq!(err.kind, ErrorKind::AlreadyExists);
    assert_eq!(err.subject, "/tmp/a.easel");
    assert_eq!(err.message(), "File already exists: /tmp/a.easel");
    let doc = create_easel_file_at(&params, false, "t").unwrap();
    assert_eq!(doc, EaselFile::with_timestamp("Mine", "t"));
    assert!(create_easel_file(&params, true).is_err());
    assert_eq!(create_easel_file(&params, false).unwrap().name, "Mine");
}

#[test]
fn created_file_answer_names_path_and_name() {
    let params = CreateEaselFileParams {
        file_path: "/tmp/a.easel".to_string(),
        name: "Mine".to_string(),
    };
    assert_eq!(
        created_file_answer(&params),
        Json::Object(vec![
            cmd_pair("filePath", Json::text("/tmp/a.easel")),
            cmd_pair("name", Json::text("Mine")),
            cmd_pair("message", Json::text("Created new .easel file")),
        ])
    );
}

#[test]
fn listing_passes_over_what_is_no_document() {
    let mut good = cmd_doc();
    create_object_with(&mut good, &cmd_params("rect"), "a", "t1").unwrap();
    create_object_with(&mut good, &cmd_params("text"), "b", "t1").unwrap();
    let corrupt = Json::Object(vec![cmd_pair("name", Json::text("broken"))]);
    let found = vec![
        FoundFile { path: "dir/bad.easel".to_string(), document: EaselFile::load(&corrupt).ok() },
        FoundFile {
            path: "dir/good.easel".to_string(),
            document: EaselFile::load(&good.save()).ok(),
        },
    ];
    let listed = list_easel_files(&found);
    assert_eq!(
        listed,
        vec![EaselFileInfo {
            path: "dir/good.easel".to_string(),
            name: "Sketch".to_string(),
            object_count: 2,
        }]
    );
    assert_eq!(
        listing_answer(&listed),
        Json::List(vec![Json::Object(vec![
            cmd_pair("path", Json::text("dir/good.easel")),
            cmd_pair("name", Json::text("Sketch")),
            cmd_pair("objectCount", Json::unsigned(2)),
        ])])
    );
}

#[test]
fn listing_of_nothing_is_empty() {
    assert!(list_easel_files(&vec![]).is_empty());
    assert_eq!(listing_answer(&vec![]), Json::List(vec![]));
}

#[test]
fn search_pattern_looks_at_any_depth() {
    assert_eq!(search_pattern("/home/me/docs"), "/home/me/docs/**/*.easel");
}
