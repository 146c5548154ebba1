use manga_extensions::catalog::{
    fresh_repository_id, read_or_init, rebuild_extension_projection, Catalog, DirEntry, RepositoryChange,
    RepositoryRecord, SourceKind,
};
use manga_extensions::json::JsonValue;

fn s(t: &str) -> JsonValue {
    JsonValue::Str(t.to_string())
}

fn obj(members: Vec<(&str, JsonValue)>) -> JsonValue {
    JsonValue::Object(members.into_iter().map(|(k, v)| (k.to_string(), v)).collect())
}

fn record(id: &str) -> RepositoryRecord {
    RepositoryRecord {
        id: id.to_string(),
        name: format!("Repo {}", id),
        kind: SourceKind::File,
        url_or_path: format!("/data/{}.json", id),
        added_at: "2024-01-01".to_string(),
    }
}

fn single(repo: Option<&str>, id: &str) -> JsonValue {
    let mut manifest = vec![("name", s("M"))];
    if let Some(r) = repo {
        manifest.push(("id", s(r)));
    }
    obj(vec![
        ("manifest", obj(manifest)),
        (
            "extensions",
            JsonValue::Array(vec![obj(vec![
                ("id", s(id)),
                ("name", s("Name")),
                ("version", s("2")),
                ("nsfw", JsonValue::Bool(true)),
                ("language", s("en")),
            ])]),
        ),
    ])
}

fn entry(file: &str, document: Option<JsonValue>) -> DirEntry {
    DirEntry { file_name: file.to_string(), path: format!("/ext/{}", file), document }
}

#[test]
fn read_or_init_without_stored_catalog_is_empty() {
    let c = read_or_init(None, 42);
    assert!(c.repositories.is_empty());
    assert!(c.extensions.is_empty());
    assert_eq!(c.updated_at, 42);
    let stored = Catalog { repositories: vec![record("a")], extensions: vec![], updated_at: 3 };
    assert_eq!(read_or_init(Some(stored.clone()), 42), stored);
}

#[test]
fn adding_two_repositories_keeps_both() {
    let mut c = read_or_init(None, 10);
    c.merge_repositories(RepositoryChange::Add(record("x")), 11);
    let first = c.updated_at;
    c.merge_repositories(RepositoryChange::Add(record("y")), 12);
    assert_eq!(c.repositories, vec![record("x"), record("y")]);
    assert!(c.updated_at >= first);
    assert_eq!(c.updated_at, 12);
}

#[test]
fn adding_a_known_repository_replaces_it() {
    let mut c = read_or_init(None, 0);
    c.merge_repositories(RepositoryChange::Add(record("x")), 1);
    let mut newer = record("x");
    newer.name = "Renamed".to_string();
    c.merge_repositories(RepositoryChange::Add(newer.clone()), 2);
    assert_eq!(c.repositories, vec![newer]);
}

#[test]
fn deleting_twice_succeeds_both_times() {
    let mut c = read_or_init(None, 0);
    c.merge_repositories(RepositoryChange::Add(record("x")), 1);
    c.merge_repositories(RepositoryChange::Add(record("y")), 1);
    assert!(c.delete_repository("x", 2));
    assert_eq!(c.repositories, vec![record("y")]);
    assert!(!c.delete_repository("x", 3));
    assert_eq!(c.repositories, vec![record("y")]);
    assert_eq!(c.updated_at, 3);
}

#[test]
fn remove_change_drops_the_repository() {
    let mut c = read_or_init(None, 0);
    c.merge_repositories(RepositoryChange::Add(record("x")), 1);
    c.merge_repositories(RepositoryChange::Remove("x".to_string()), 5);
    assert!(c.repositories.is_empty());
    assert_eq!(c.updated_at, 5);
}

#[test]
fn projection_skips_one_corrupt_file() {
    let entries = vec![
        entry("a-one.json", Some(single(Some("repo_1"), "one"))),
        entry("broken.json", None),
        entry("b-two.json", Some(single(None, "two"))),
        entry("c-three.json", Some(single(Some("repo_1"), "three"))),
    ];
    let records = rebuild_extension_projection(&entries, &vec![]);
    assert_eq!(records.len(), 3);
    assert_eq!(records[0].id, "one");
    assert_eq!(records[0].repo_id, "repo_1");
    assert_eq!(records[0].name, "Name");
    assert_eq!(records[0].version, "2");
    assert_eq!(records[0].language, "en");
    assert!(records[0].nsfw);
    assert_eq!(records[0].path, "/ext/a-one.json");
    assert_eq!(records[1].repo_id, "");
    assert_eq!(records[2].id, "three");
    assert!(records.iter().all(|r| r.enabled));
}

#[test]
fn projection_skips_repository_blobs_and_other_files() {
    let mut listed = record("r");
    listed.url_or_path = "/ext/listed.json".to_string();
    let entries = vec![
        entry("repo_17.json", Some(single(None, "blob"))),
        entry("listed.json", Some(single(None, "listed"))),
        entry("notes.txt", Some(single(None, "text"))),
        entry("two.json", Some(obj(vec![("extensions", JsonValue::Array(vec![]))]))),
        entry("ok.json", Some(single(None, "ok"))),
    ];
    let records = rebuild_extension_projection(&entries, &vec![listed]);
    assert_eq!(records.len(), 1);
    assert_eq!(records[0].id, "ok");
    assert_eq!(records[0].description, "");
}

#[test]
fn refresh_extensions_sets_the_projection() {
    let mut c = read_or_init(None, 7);
    c.refresh_extensions(&vec![entry("x.json", Some(single(None, "x")))]);
    assert_eq!(c.extensions.len(), 1);
    assert_eq!(c.updated_at, 7);
}

#[test]
fn stamp_never_goes_back() {
    let mut c = read_or_init(None, 100);
    c.merge_repositories(RepositoryChange::Add(record("x")), 90);
    assert_eq!(c.updated_at, 100);
    c.merge_repositories(RepositoryChange::Add(record("y")), 150);
    assert_eq!(c.updated_at, 150);
    assert!(!c.delete_repository("z", 120));
    assert_eq!(c.updated_at, 150);
}

#[test]
fn fresh_identifier_adds_underscores_on_collision() {
    let known = vec![record("repo_5"), record("repo_5_")];
    assert_eq!(fresh_repository_id("repo_5", &known), "repo_5__");
    assert_eq!(fresh_repository_id("repo_6", &known), "repo_6");
    assert_eq!(fresh_repository_id("repo_5", &vec![]), "repo_5");
}
