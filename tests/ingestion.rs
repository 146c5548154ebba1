use manga_extensions::catalog::{
    read_or_init, DirEntry, RepositoryChange, SourceKind,
};
use manga_extensions::ingest::{
    assign_manifest_id, create_repository, ingest_repository, new_repository_id, IngestError,
    prepare_repository,
};
use manga_extensions::json::JsonValue;
use manga_extensions::schema::SchemaError;

fn s(t: &str) -> JsonValue {
    JsonValue::Str(t.to_string())
}

fn obj(members: Vec<(&str, JsonValue)>) -> JsonValue {
    JsonValue::Object(members.into_iter().map(|(k, v)| (k.to_string(), v)).collect())
}

fn endpoint() -> JsonValue {
    obj(vec![("url", s("https://e.org")), ("method", s("GET")), ("response_type", s("json"))])
}

fn api() -> JsonValue {
    obj(vec![
        ("search", endpoint()),
        ("manga_details", endpoint()),
        ("chapter_list", endpoint()),
        ("page_list", endpoint()),
    ])
}

fn ext(id: &str, name: &str) -> JsonValue {
    obj(vec![("id", s(id)), ("name", s(name)), ("version", s("1.0")), ("api", api())])
}

fn manifest() -> JsonValue {
    obj(vec![
        ("name", s("Test")),
        ("version", s("1.0")),
        ("author", s("A")),
        ("description", s("D")),
    ])
}

fn two_extension_repository() -> JsonValue {
    obj(vec![
        ("manifest", manifest()),
        ("extensions", JsonValue::Array(vec![ext("alpha", "Alpha"), ext("beta", "Beta")])),
    ])
}

fn is_repo_id(id: &str) -> bool {
    match id.strip_prefix("repo_") {
        Some(digits) => !digits.is_empty() && digits.chars().all(|c| c.is_ascii_digit()),
        None => false,
    }
}

#[test]
fn end_to_end_ingest_and_listing() {
    let doc = two_extension_repository();
    let g = create_repository(doc, SourceKind::File, "/home/u/repo.json".to_string(), None, &vec![])
        .unwrap();
    assert!(is_repo_id(&g.record.id), "{}", g.record.id);
    assert_eq!(g.record.name, "Test");
    assert_eq!(g.record.kind, SourceKind::File);
    assert_eq!(g.blob_name, format!("{}.json", g.record.id));
    assert_eq!(g.files.len(), 2);
    assert_eq!(g.files[0].file_name, "alpha-alpha.json");
    assert_eq!(g.files[1].file_name, "beta-beta.json");

    let mut catalog = read_or_init(None, 1);
    catalog.merge_repositories(RepositoryChange::Add(g.record.clone()), 2);
    let mut entries = vec![DirEntry {
        file_name: g.blob_name.clone(),
        path: format!("/data/extensions/{}", g.blob_name),
        document: Some(g.blob.clone()),
    }];
    for f in &g.files {
        entries.push(DirEntry {
            file_name: f.file_name.clone(),
            path: format!("/data/extensions/{}", f.file_name),
            document: Some(f.document.clone()),
        });
    }
    catalog.refresh_extensions(&entries);
    assert_eq!(catalog.extensions.len(), 2);
    assert_eq!(catalog.extensions[0].id, "alpha");
    assert_eq!(catalog.extensions[1].id, "beta");
    assert!(catalog.extensions.iter().all(|e| e.enabled));
    assert!(catalog.extensions.iter().all(|e| e.repo_id == g.record.id));
}

#[test]
fn ingest_uses_given_name_and_identifier() {
    let g = ingest_repository(
        two_extension_repository(),
        "repo_99".to_string(),
        SourceKind::Url,
        "https://e.org/r.json".to_string(),
        Some("Mine".to_string()),
        "now".to_string(),
    )
    .unwrap();
    assert_eq!(g.record.id, "repo_99");
    assert_eq!(g.record.name, "Mine");
    assert_eq!(g.record.url_or_path, "https://e.org/r.json");
    assert_eq!(g.record.added_at, "now");
    let m = g.blob.get("manifest").unwrap();
    assert_eq!(m.get_str("id").map(|t| t.as_str()), Some("repo_99"));
    assert_eq!(m.get_str("author").map(|t| t.as_str()), Some("A"));
    assert_eq!(g.files[0].document.get("manifest"), Some(m));
}

#[test]
fn invalid_repository_is_not_ingested() {
    let doc = obj(vec![("manifest", manifest())]);
    let r = create_repository(doc, SourceKind::File, "p".to_string(), None, &vec![]);
    assert!(matches!(r, Err(IngestError::Invalid(SchemaError::MissingExtensions))));
}

#[test]
fn refresh_rewrites_blob_under_the_same_identifier() {
    let p = prepare_repository(two_extension_repository(), "repo_5").unwrap();
    assert_eq!(p.blob_name, "repo_5.json");
    assert_eq!(p.files.len(), 2);
    let again = assign_manifest_id(p.blob, "repo_6");
    assert_eq!(again.get("manifest").unwrap().get_str("id").map(|t| t.as_str()), Some("repo_6"));
}

#[test]
fn new_identifiers_have_the_repo_shape() {
    assert!(is_repo_id(&new_repository_id(&vec![]).unwrap()));
}

#[test]
fn new_identifier_avoids_known_repositories() {
    let first = create_repository(
        two_extension_repository(),
        SourceKind::File,
        "a".to_string(),
        None,
        &vec![],
    )
    .unwrap();
    let known = vec![first.record.clone()];
    let second =
        create_repository(two_extension_repository(), SourceKind::File, "b".to_string(), None, &known)
            .unwrap();
    assert_ne!(second.record.id, first.record.id);
    assert!(second.record.id.starts_with("repo_"));
}
