use doc_photos::spec::{
    display_name, preferred_colour,
    default_count, index_specs, merge_into, Anchor, Confidence, Json, LayoutDefaults, SpecError,
};

fn text(s: &str) -> Json {
    Json::Text(s.into())
}

fn other(s: &str) -> Json {
    Json::Other(s.into())
}

fn obj(fields: Vec<(&str, Json)>) -> Json {
    Json::Object(fields.into_iter().map(|(k, v)| (k.to_string(), v)).collect())
}

fn print(w: &str, h: &str) -> Json {
    obj(vec![("width_mm", other(w)), ("height_mm", other(h))])
}

fn field<'a>(j: &'a Json, k: &str) -> Option<&'a Json> {
    match j {
        Json::Object(f) => f.iter().find(|(key, _)| key == k).map(|(_, v)| v),
        _ => None,
    }
}

fn as_text(j: Option<&Json>) -> Option<&str> {
    match j {
        Some(Json::Text(s)) => Some(s.as_str()),
        _ => None,
    }
}

fn as_other(j: Option<&Json>) -> Option<&str> {
    match j {
        Some(Json::Other(s)) => Some(s.as_str()),
        _ => None,
    }
}

#[test]
fn inheriting_from_a_missing_spec_is_an_error() {
    let specs = vec![obj(vec![
        ("id", text("orphan")),
        ("inherits", text("nonexistent")),
        ("print", print("35", "45")),
    ])];
    let index = index_specs(Some(specs)).expect("ids are present");
    let err = index.resolve("orphan").unwrap_err();
    assert!(matches!(err, SpecError::UnknownParent { .. }));
    assert_eq!(
        err,
        SpecError::UnknownParent { spec: "orphan".into(), parent: "nonexistent".into() }
    );
}

#[test]
fn circular_inheritance_is_caught() {
    let specs = vec![
        obj(vec![("id", text("a")), ("inherits", text("b")), ("print", print("35", "45"))]),
        obj(vec![("id", text("b")), ("inherits", text("a")), ("print", print("35", "45"))]),
    ];
    let index = index_specs(Some(specs)).expect("ids are present");
    for id in index.order() {
        let err = index.resolve(id).unwrap_err();
        assert!(matches!(err, SpecError::CircularInheritance(_)));
    }
    assert_eq!(index.resolve("a").unwrap_err(), SpecError::CircularInheritance("a".into()));
}

#[test]
fn a_spec_naming_itself_is_a_cycle() {
    let specs = vec![obj(vec![("id", text("s")), ("inherits", text("s"))])];
    let index = index_specs(Some(specs)).unwrap();
    assert_eq!(index.resolve("s").unwrap_err(), SpecError::CircularInheritance("s".into()));
}

#[test]
fn a_child_overrides_the_size_and_inherits_the_rest() {
    let passport = obj(vec![
        ("id", text("passport")),
        ("print", print("35", "45")),
        ("geometry", obj(vec![("anchor", text("chin_line"))])),
        ("layout_defaults", obj(vec![("count", other("6"))])),
    ]);
    let child = obj(vec![
        ("id", text("putni")),
        ("inherits", text("passport")),
        ("print", obj(vec![("width_mm", other("30"))])),
        ("layout_defaults", obj(vec![("count", other("8"))])),
    ]);
    let index = index_specs(Some(vec![passport, child])).unwrap();
    let r = index.resolve("putni").unwrap();
    assert_eq!(as_text(field(&r, "id")), Some("putni"));
    assert!(field(&r, "inherits").is_none());
    let p = field(&r, "print").unwrap();
    assert_eq!(as_other(field(p, "width_mm")), Some("30"));
    assert_eq!(as_other(field(p, "height_mm")), Some("45"), "inherited height was lost");
    let g = field(&r, "geometry").unwrap();
    assert_eq!(as_text(field(g, "anchor")), Some("chin_line"));
    let l = field(&r, "layout_defaults").unwrap();
    assert_eq!(as_other(field(l, "count")), Some("8"));
    // The parent itself is unchanged.
    let parent = index.resolve("passport").unwrap();
    assert_eq!(as_other(field(field(&parent, "print").unwrap(), "width_mm")), Some("35"));
}

#[test]
fn a_grandchild_resolves_through_both_parents() {
    let a = obj(vec![("id", text("a")), ("x", other("1")), ("y", other("1"))]);
    let b = obj(vec![("id", text("b")), ("inherits", text("a")), ("y", other("2"))]);
    let c = obj(vec![("id", text("c")), ("inherits", text("b")), ("z", other("3"))]);
    let index = index_specs(Some(vec![c, b, a])).unwrap();
    let r = index.resolve("c").unwrap();
    assert_eq!(as_other(field(&r, "x")), Some("1"));
    assert_eq!(as_other(field(&r, "y")), Some("2"));
    assert_eq!(as_other(field(&r, "z")), Some("3"));
    assert_eq!(as_text(field(&r, "id")), Some("c"));
}

#[test]
fn an_unknown_id_is_reported_as_its_own_chain() {
    let index = index_specs(Some(vec![obj(vec![("id", text("a"))])])).unwrap();
    assert_eq!(
        index.resolve("zzz").unwrap_err(),
        SpecError::UnknownParent { spec: "zzz".into(), parent: "zzz".into() }
    );
}

#[test]
fn a_document_without_specs_or_ids_is_a_parse_error() {
    assert_eq!(
        index_specs(None).err(),
        Some(SpecError::Parse("missing `specs` array".into()))
    );
    let no_id = vec![obj(vec![("id", text("a"))]), obj(vec![("id", other("7"))])];
    assert_eq!(index_specs(Some(no_id)).err(), Some(SpecError::Parse("a spec has no id".into())));
}

#[test]
fn the_order_of_the_file_is_kept() {
    let index = index_specs(Some(vec![
        obj(vec![("id", text("z"))]),
        obj(vec![("id", text("a"))]),
    ]))
    .unwrap();
    assert_eq!(index.order(), &["z".to_string(), "a".to_string()]);
}

#[test]
fn merging_replaces_non_objects_wholesale() {
    let base = obj(vec![("list", other("[1,2]")), ("keep", other("true"))]);
    let patch = obj(vec![("list", other("[3]")), ("new", text("n"))]);
    let m = merge_into(base, &patch);
    assert_eq!(as_other(field(&m, "list")), Some("[3]"));
    assert_eq!(as_other(field(&m, "keep")), Some("true"));
    assert_eq!(as_text(field(&m, "new")), Some("n"));
    let replaced = merge_into(text("old"), &obj(vec![]));
    assert!(matches!(replaced, Json::Object(ref f) if f.is_empty()));
    let copy = m.copy();
    assert_eq!(as_text(field(&copy, "new")), Some("n"));
}

#[test]
fn spec_errors_read_as_sentences() {
    assert_eq!(SpecError::Parse("x".into()).describe(), "could not parse specs: x");
    assert_eq!(
        SpecError::UnknownParent { spec: "a".into(), parent: "b".into() }.describe(),
        "spec a inherits from unknown spec b"
    );
    assert_eq!(
        SpecError::CircularInheritance("a".into()).describe(),
        "circular inheritance at a"
    );
}

#[test]
fn defaults_a_spec_implies() {
    assert_eq!(default_count(), 1);
    let d = LayoutDefaults::default();
    assert_eq!((d.paper, d.count, d.cut_marks), (None, 1, false));
    assert_eq!(Confidence::default(), Confidence::Community);
    assert_ne!(Anchor::ChinLine, Anchor::EyeLine);
}

#[test]
fn the_colour_marked_default_is_preferred() {
    let allowed = [([255u8, 255, 255], false), ([200, 210, 220], true), ([1, 2, 3], true)];
    assert_eq!(preferred_colour(&allowed), [200, 210, 220]);
}

#[test]
fn without_a_default_the_first_colour_is_preferred() {
    let allowed = [([240u8, 240, 240], false), ([200, 210, 220], false)];
    assert_eq!(preferred_colour(&allowed), [240, 240, 240]);
}

#[test]
fn without_colours_the_background_is_light_grey() {
    assert_eq!(preferred_colour(&[]), [235, 235, 235]);
}

fn names() -> Vec<(String, String)> {
    vec![
        ("en".to_string(), "Croatian passport".to_string()),
        ("hr".to_string(), "Hrvatska putovnica".to_string()),
    ]
}

#[test]
fn the_name_comes_in_the_requested_language() {
    assert_eq!(display_name(&names(), "hr", "hr-passport-35x45"), "Hrvatska putovnica");
}

#[test]
fn an_unknown_language_falls_back_to_english() {
    assert_eq!(display_name(&names(), "de", "hr-passport-35x45"), "Croatian passport");
}

#[test]
fn without_a_name_the_id_is_shown() {
    let only_hr = vec![("hr".to_string(), "Hrvatska putovnica".to_string())];
    assert_eq!(display_name(&only_hr, "de", "hr-passport-35x45"), "hr-passport-35x45");
    assert_eq!(display_name(&[], "en", "us-visa"), "us-visa");
}
