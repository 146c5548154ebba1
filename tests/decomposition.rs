use manga_extensions::decompose::{decompose, extension_id, single_extension_document};
use manga_extensions::json::JsonValue;

fn s(t: &str) -> JsonValue {
    JsonValue::Str(t.to_string())
}

fn obj(members: Vec<(&str, JsonValue)>) -> JsonValue {
    JsonValue::Object(members.into_iter().map(|(k, v)| (k.to_string(), v)).collect())
}

fn manifest() -> JsonValue {
    obj(vec![
        ("name", s("Test")),
        ("version", s("1.0")),
        ("author", s("A")),
        ("description", s("D")),
    ])
}

fn ext(id: Option<&str>, name: &str) -> JsonValue {
    let mut members = vec![("name", s(name)), ("version", s("1")), ("api", obj(vec![]))];
    if let Some(id) = id {
        members.insert(0, ("id", s(id)));
    }
    obj(members)
}

#[test]
fn decompose_yields_one_document_per_descriptor() {
    let e1 = ext(Some("one"), "First Source");
    let e2 = ext(Some("two"), "Second/Source");
    let doc = obj(vec![
        ("manifest", manifest()),
        ("extensions", JsonValue::Array(vec![e1.clone(), e2.clone()])),
    ]);
    let files = decompose(&doc);
    assert_eq!(files.len(), 2);
    assert_eq!(files[0].file_name, "first-source-one.json");
    assert_eq!(files[1].file_name, "second_source-two.json");
    assert_eq!(
        files[0].document,
        obj(vec![("manifest", manifest()), ("extensions", JsonValue::Array(vec![e1]))])
    );
    assert_eq!(
        files[1].document,
        obj(vec![("manifest", manifest()), ("extensions", JsonValue::Array(vec![e2]))])
    );
}

#[test]
fn descriptor_without_id_gets_index_identifier() {
    let doc = obj(vec![
        ("manifest", manifest()),
        ("extensions", JsonValue::Array(vec![ext(Some("a"), "A"), ext(None, "B")])),
    ]);
    let files = decompose(&doc);
    assert_eq!(files[1].file_name, "b-ext_1.json");
    assert_eq!(extension_id(&ext(None, "x"), 12), "ext_12");
    assert_eq!(extension_id(&ext(Some("id7"), "x"), 12), "id7");
}

#[test]
fn single_document_holds_manifest_and_descriptor() {
    let d = single_extension_document(&manifest(), &s("x"));
    assert_eq!(d.get("manifest"), Some(&manifest()));
    assert_eq!(d.get_array("extensions"), Some(&vec![s("x")]));
}
