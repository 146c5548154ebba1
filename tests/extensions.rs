use manga_extensions::clock::{now_text, unix_seconds_now, unix_time_now};
use manga_extensions::models::{
    add_extension, get_all_extensions, is_success_status, remove_extension, validate_api_endpoint,
    validate_extension, validate_extension_file, validate_extension_url, ApiEndpoint, Extension,
    ExtensionApi, ExtensionCollection, StoredExtension,
};

fn endpoint(url: &str, method: &str, response_type: &str) -> ApiEndpoint {
    ApiEndpoint {
        url: url.to_string(),
        method: method.to_string(),
        response_type: response_type.to_string(),
        headers: None,
        params: None,
        parser: None,
    }
}

fn good() -> ApiEndpoint {
    endpoint("https://example.org", "GET", "json")
}

fn extension(id: &str) -> Extension {
    Extension {
        id: id.to_string(),
        name: "Source".to_string(),
        version: "1.0".to_string(),
        author: "Author".to_string(),
        description: String::new(),
        nsfw: false,
        language: None,
        source_type: String::new(),
        source_path: String::new(),
        api: ExtensionApi {
            search: good(),
            manga_details: good(),
            chapter_list: good(),
            page_list: good(),
            cover_art: None,
        },
        icon: None,
        added_at: String::new(),
    }
}

#[test]
fn valid_extension_passes() {
    assert_eq!(validate_extension(&extension("a")), Ok(()));
}

#[test]
fn empty_required_fields_are_rejected_in_order() {
    let mut e = extension("");
    e.name = String::new();
    assert_eq!(validate_extension(&e), Err("Extension ID cannot be empty".to_string()));
    let mut e = extension("a");
    e.name = String::new();
    assert_eq!(validate_extension(&e), Err("Extension name cannot be empty".to_string()));
    let mut e = extension("a");
    e.version = String::new();
    assert_eq!(validate_extension(&e), Err("Extension version cannot be empty".to_string()));
    let mut e = extension("a");
    e.author = String::new();
    assert_eq!(validate_extension(&e), Err("Extension author cannot be empty".to_string()));
}

#[test]
fn endpoint_messages() {
    assert_eq!(
        validate_api_endpoint(&endpoint("", "GET", "json"), "search"),
        Err("API endpoint 'search' URL cannot be empty".to_string())
    );
    assert_eq!(
        validate_api_endpoint(&endpoint("u", "patch", "json"), "page_list"),
        Err("API endpoint 'page_list' has invalid method: PATCH. Must be GET, POST, PUT, or DELETE"
            .to_string())
    );
    assert_eq!(
        validate_api_endpoint(&endpoint("u", "get", "XML"), "search"),
        Err("API endpoint 'search' has invalid response_type: xml. Must be json, html, or text"
            .to_string())
    );
    assert_eq!(validate_api_endpoint(&endpoint("u", "delete", "Text"), "search"), Ok(()));
}

#[test]
fn bad_endpoint_of_extension_is_reported() {
    let mut e = extension("a");
    e.api.chapter_list = endpoint("u", "FETCH", "json");
    assert_eq!(
        validate_extension(&e),
        Err("API endpoint 'chapter_list' has invalid method: FETCH. Must be GET, POST, PUT, or DELETE"
            .to_string())
    );
}

#[test]
fn cover_art_is_not_checked() {
    let mut e = extension("a");
    e.api.cover_art = Some(endpoint("", "BAD", "bad"));
    assert_eq!(validate_extension(&e), Ok(()));
}

#[test]
fn file_and_url_extensions_are_stamped() {
    let x = validate_extension_file("/tmp/ext.json", extension("a")).unwrap();
    assert_eq!(x.source_type, "file");
    assert_eq!(x.source_path, "/tmp/ext.json");
    assert!(!x.added_at.is_empty());
    let y = validate_extension_url("https://example.org/e.json", extension("b")).unwrap();
    assert_eq!(y.source_type, "url");
    assert_eq!(y.source_path, "https://example.org/e.json");
    let bad = validate_extension_url("u", extension(""));
    assert_eq!(bad, Err("Extension ID cannot be empty".to_string()));
}

#[test]
fn add_replaces_by_id_and_appends_otherwise() {
    let mut c = ExtensionCollection { extensions: vec![], last_updated: "t".to_string() };
    add_extension(&mut c, extension("a"));
    add_extension(&mut c, extension("b"));
    let mut a2 = extension("a");
    a2.version = "2.0".to_string();
    add_extension(&mut c, a2.clone());
    assert_eq!(c.extensions, vec![a2, extension("b")]);
    assert_eq!(c.last_updated, "t");
}

#[test]
fn remove_of_absent_extension_fails() {
    let mut c = ExtensionCollection { extensions: vec![extension("a")], last_updated: String::new() };
    assert_eq!(remove_extension(&mut c, "zzz"), Err("Extension with ID zzz not found".to_string()));
    assert_eq!(c.extensions.len(), 1);
    assert_eq!(remove_extension(&mut c, "a"), Ok(()));
    assert!(c.extensions.is_empty());
    assert!(remove_extension(&mut c, "a").is_err());
}

#[test]
fn listing_skips_unreadable_and_other_files() {
    let entries = vec![
        StoredExtension { file_name: "a.json".to_string(), extension: Some(extension("a")) },
        StoredExtension { file_name: "bad.json".to_string(), extension: None },
        StoredExtension { file_name: "b.txt".to_string(), extension: Some(extension("b")) },
        StoredExtension { file_name: "c.json".to_string(), extension: Some(extension("c")) },
        StoredExtension { file_name: ".json".to_string(), extension: Some(extension("d")) },
        StoredExtension { file_name: "repo_1.json".to_string(), extension: Some(extension("e")) },
    ];
    let c = get_all_extensions(entries);
    assert_eq!(c.extensions, vec![extension("a"), extension("c")]);
    assert!(!c.last_updated.is_empty());
    assert!(get_all_extensions(vec![]).extensions.is_empty());
}

#[test]
fn success_statuses() {
    assert!(is_success_status(200));
    assert!(is_success_status(299));
    assert!(!is_success_status(199));
    assert!(!is_success_status(300));
    assert!(!is_success_status(404));
}

#[test]
fn clock_reads_the_current_time() {
    let (seconds, nanos) = unix_time_now().unwrap();
    assert!(seconds > 1_600_000_000);
    assert!(nanos < 1_000_000_000);
    assert!(unix_seconds_now().unwrap() >= seconds);
    assert!(now_text().unwrap().ends_with("UTC"));
}

#[test]
fn stored_method_and_response_type_keep_their_case() {
    let mut e = extension("a");
    e.api.search = endpoint("https://example.org", "get", "JSON");
    let x = validate_extension_file("/tmp/a.json", e).unwrap();
    assert_eq!(x.api.search.method, "get");
    assert_eq!(x.api.search.response_type, "JSON");
}
