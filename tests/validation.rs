use manga_extensions::json::JsonValue;
use manga_extensions::schema::{
    check_method, check_response_type, validate_repository, Endpoint, EndpointField, ExtensionField, ManifestField, SchemaError,
};

fn s(t: &str) -> JsonValue {
    JsonValue::Str(t.to_string())
}

fn obj(members: Vec<(&str, JsonValue)>) -> JsonValue {
    JsonValue::Object(members.into_iter().map(|(k, v)| (k.to_string(), v)).collect())
}

fn endpoint(method: &str, response_type: &str) -> JsonValue {
    obj(vec![
        ("url", s("https://example.org/api")),
        ("method", s(method)),
        ("response_type", s(response_type)),
    ])
}

fn api_with(method: &str, response_type: &str) -> JsonValue {
    obj(vec![
        ("search", endpoint(method, response_type)),
        ("manga_details", endpoint("GET", "json")),
        ("chapter_list", endpoint("GET", "json")),
        ("page_list", endpoint("GET", "json")),
    ])
}

fn extension(id: &str, api: JsonValue) -> JsonValue {
    obj(vec![("id", s(id)), ("name", s("Source")), ("version", s("1.0")), ("api", api)])
}

fn manifest() -> JsonValue {
    obj(vec![
        ("name", s("Test")),
        ("version", s("1.0")),
        ("author", s("A")),
        ("description", s("D")),
    ])
}

fn repository(exts: Vec<JsonValue>) -> JsonValue {
    obj(vec![("manifest", manifest()), ("extensions", JsonValue::Array(exts))])
}

#[test]
fn valid_repository_is_accepted() {
    let doc = repository(vec![
        extension("one", api_with("GET", "json")),
        extension("two", api_with("POST", "html")),
    ]);
    assert_eq!(validate_repository(&doc), Ok(()));
}

#[test]
fn method_is_case_insensitive() {
    for m in ["get", "Get", "GET", "post", "Put", "delete"] {
        let doc = repository(vec![extension("one", api_with(m, "json"))]);
        assert_eq!(validate_repository(&doc), Ok(()), "method {}", m);
    }
}

#[test]
fn patch_method_is_rejected() {
    for m in ["PATCH", "patch", "Patch"] {
        let doc = repository(vec![extension("one", api_with(m, "json"))]);
        assert_eq!(
            validate_repository(&doc),
            Err(SchemaError::InvalidMethod { index: 0, endpoint: Endpoint::Search })
        );
    }
}

#[test]
fn response_type_is_case_insensitive() {
    for t in ["json", "JSON", "Html", "TEXT"] {
        let doc = repository(vec![extension("one", api_with("GET", t))]);
        assert_eq!(validate_repository(&doc), Ok(()), "response type {}", t);
    }
    let doc = repository(vec![extension("one", api_with("GET", "xml"))]);
    assert_eq!(
        validate_repository(&doc),
        Err(SchemaError::InvalidResponseType { index: 0, endpoint: Endpoint::Search })
    );
}

#[test]
fn missing_endpoint_names_index_and_endpoint() {
    let partial = obj(vec![
        ("search", endpoint("GET", "json")),
        ("manga_details", endpoint("GET", "json")),
        ("page_list", endpoint("GET", "json")),
    ]);
    let doc = repository(vec![
        extension("one", api_with("GET", "json")),
        extension("two", partial),
    ]);
    assert_eq!(
        validate_repository(&doc),
        Err(SchemaError::MissingEndpoint { index: 1, endpoint: Endpoint::ChapterList })
    );
}

#[test]
fn each_missing_endpoint_is_reported() {
    let names = ["search", "manga_details", "chapter_list", "page_list"];
    let endpoints =
        [Endpoint::Search, Endpoint::MangaDetails, Endpoint::ChapterList, Endpoint::PageList];
    for (skip, expected) in endpoints.iter().enumerate() {
        let mut members = Vec::new();
        for (i, n) in names.iter().enumerate() {
            if i != skip {
                members.push((*n, endpoint("GET", "json")));
            }
        }
        let doc = repository(vec![extension("one", obj(members))]);
        assert_eq!(
            validate_repository(&doc),
            Err(SchemaError::MissingEndpoint { index: 0, endpoint: *expected })
        );
    }
}

#[test]
fn missing_manifest_is_reported() {
    let doc = obj(vec![("extensions", JsonValue::Array(vec![]))]);
    assert_eq!(validate_repository(&doc), Err(SchemaError::MissingManifest));
}

#[test]
fn manifest_field_that_is_no_string_is_reported() {
    let m = obj(vec![
        ("name", s("Test")),
        ("version", JsonValue::Number("1".to_string())),
        ("author", s("A")),
        ("description", s("D")),
    ]);
    let doc = obj(vec![
        ("manifest", m),
        ("extensions", JsonValue::Array(vec![extension("one", api_with("GET", "json"))])),
    ]);
    assert_eq!(
        validate_repository(&doc),
        Err(SchemaError::ManifestField { field: ManifestField::Version })
    );
}

#[test]
fn empty_manifest_strings_are_accepted_in_repositories() {
    let m = obj(vec![
        ("name", s("")),
        ("version", s("")),
        ("author", s("")),
        ("description", s("")),
    ]);
    let doc = obj(vec![
        ("manifest", m),
        ("extensions", JsonValue::Array(vec![extension("one", api_with("GET", "json"))])),
    ]);
    assert_eq!(validate_repository(&doc), Ok(()));
}

#[test]
fn extensions_must_be_a_non_empty_array() {
    let doc = obj(vec![("manifest", manifest())]);
    assert_eq!(validate_repository(&doc), Err(SchemaError::MissingExtensions));
    let doc = obj(vec![("manifest", manifest()), ("extensions", s("none"))]);
    assert_eq!(validate_repository(&doc), Err(SchemaError::MissingExtensions));
    let doc = repository(vec![]);
    assert_eq!(validate_repository(&doc), Err(SchemaError::EmptyExtensions));
}

#[test]
fn extension_fields_and_api_are_required() {
    let no_name = obj(vec![
        ("id", s("x")),
        ("version", s("1")),
        ("api", api_with("GET", "json")),
    ]);
    let doc = repository(vec![extension("one", api_with("GET", "json")), no_name]);
    assert_eq!(
        validate_repository(&doc),
        Err(SchemaError::ExtensionField { index: 1, field: ExtensionField::Name })
    );
    let no_api = obj(vec![("id", s("x")), ("name", s("n")), ("version", s("1"))]);
    let doc = repository(vec![no_api]);
    assert_eq!(validate_repository(&doc), Err(SchemaError::MissingApi { index: 0 }));
}

#[test]
fn endpoint_fields_are_required() {
    let bad = obj(vec![("url", s("u")), ("response_type", s("json"))]);
    let api = obj(vec![
        ("search", endpoint("GET", "json")),
        ("manga_details", bad),
        ("chapter_list", endpoint("GET", "json")),
        ("page_list", endpoint("GET", "json")),
    ]);
    let doc = repository(vec![extension("one", api)]);
    assert_eq!(
        validate_repository(&doc),
        Err(SchemaError::EndpointField {
            index: 0,
            endpoint: Endpoint::MangaDetails,
            field: EndpointField::Method
        })
    );
}

#[test]
fn first_failure_wins() {
    let doc = repository(vec![
        extension("one", api_with("PATCH", "json")),
        extension("two", obj(vec![])),
    ]);
    assert_eq!(
        validate_repository(&doc),
        Err(SchemaError::InvalidMethod { index: 0, endpoint: Endpoint::Search })
    );
}

#[test]
fn error_messages_name_the_path() {
    assert_eq!(SchemaError::MissingManifest.message(), "manifest is required");
    assert_eq!(
        SchemaError::ManifestField { field: ManifestField::Author }.message(),
        "manifest.author must be a string"
    );
    assert_eq!(SchemaError::MissingExtensions.message(), "extensions must be an array");
    assert_eq!(SchemaError::EmptyExtensions.message(), "extensions must not be empty");
    assert_eq!(
        SchemaError::ExtensionField { index: 12, field: ExtensionField::Version }.message(),
        "extensions[12].version must be a string"
    );
    assert_eq!(SchemaError::MissingApi { index: 0 }.message(), "extensions[0].api is required");
    assert_eq!(
        SchemaError::MissingEndpoint { index: 1, endpoint: Endpoint::ChapterList }.message(),
        "extensions[1].api.chapter_list is required"
    );
    assert_eq!(
        SchemaError::EndpointField {
            index: 3,
            endpoint: Endpoint::PageList,
            field: EndpointField::ResponseType
        }
        .message(),
        "extensions[3].api.page_list.response_type must be a string"
    );
    assert_eq!(
        SchemaError::InvalidMethod { index: 105, endpoint: Endpoint::Search }.message(),
        "extensions[105].api.search.method must be GET, POST, PUT or DELETE"
    );
    assert_eq!(
        SchemaError::InvalidResponseType { index: 2, endpoint: Endpoint::MangaDetails }.message(),
        "extensions[2].api.manga_details.response_type must be json, html or text"
    );
}

#[test]
fn method_and_response_type_checks_fold_case() {
    assert_eq!(check_method("get"), ("GET".to_string(), true));
    assert_eq!(check_method("Put"), ("PUT".to_string(), true));
    assert_eq!(check_method("pAtCh"), ("PATCH".to_string(), false));
    assert_eq!(check_response_type("JSON"), ("json".to_string(), true));
    assert_eq!(check_response_type("Xml"), ("xml".to_string(), false));
}
