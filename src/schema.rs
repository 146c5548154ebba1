//! The schema of a repository document, and its validator.

use vstd::prelude::*;
use crate::json::{JsonValue, field, string_field, array_field};
use crate::text::{
    upper_of, lower_of, to_upper, to_lower, decimal, push_text, push_decimal, is_ascii_text,
    ascii_upper_code, ascii_lower_code, same_upper, same_lower,
};

verus! {

/// A string field of a repository's manifest.
#[derive(Debug, Clone, Copy, PartialEq, Eq, Structural)]
pub enum ManifestField {
    Name,
    Version,
    Author,
    Description,
}

/// A string field of an extension descriptor.
#[derive(Debug, Clone, Copy, PartialEq, Eq, Structural)]
pub enum ExtensionField {
    Id,
    Name,
    Version,
}

/// One of the four endpoints that every extension must expose.
#[derive(Debug, Clone, Copy, PartialEq, Eq, Structural)]
pub enum Endpoint {
    Search,
    MangaDetails,
    ChapterList,
    PageList,
}

/// A string field of an endpoint.
#[derive(Debug, Clone, Copy, PartialEq, Eq, Structural)]
pub enum EndpointField {
    Url,
    Method,
    ResponseType,
}

/// The first rule that a repository document breaks.
#[allow(inconsistent_fields)]
#[derive(Debug, Clone, Copy, PartialEq, Eq, Structural)]
pub enum SchemaError {
    /// The document has no `manifest`.
    MissingManifest,
    /// A manifest field is absent or not a string.
    ManifestField { field: ManifestField },
    /// `extensions` is absent or not an array.
    MissingExtensions,
    /// `extensions` is an empty array.
    EmptyExtensions,
    /// A field of the extension at `index` is absent or not a string.
    ExtensionField { index: usize, field: ExtensionField },
    /// The extension at `index` has no `api`.
    MissingApi { index: usize },
    /// The extension at `index` lacks an endpoint.
    MissingEndpoint { index: usize, endpoint: Endpoint },
    /// A field of an endpoint is absent or not a string.
    EndpointField { index: usize, endpoint: Endpoint, field: EndpointField },
    /// An endpoint's method, upper-cased, is none of GET, POST, PUT, DELETE.
    InvalidMethod { index: usize, endpoint: Endpoint },
    /// An endpoint's response type, lower-cased, is none of json, html, text.
    InvalidResponseType { index: usize, endpoint: Endpoint },
}

/// The key under which an endpoint stands in `api`.
pub open spec fn endpoint_key(e: Endpoint) -> Seq<char> {
    match e {
        Endpoint::Search => "search"@,
        Endpoint::MangaDetails => "manga_details"@,
        Endpoint::ChapterList => "chapter_list"@,
        Endpoint::PageList => "page_list"@,
    }
}

/// The key of a manifest field.
pub open spec fn manifest_key(f: ManifestField) -> Seq<char> {
    match f {
        ManifestField::Name => "name"@,
        ManifestField::Version => "version"@,
        ManifestField::Author => "author"@,
        ManifestField::Description => "description"@,
    }
}

/// Whether an upper-cased method is one that endpoints may use.
pub open spec fn method_allowed(m: Seq<char>) -> bool {
    m == "GET"@ || m == "POST"@ || m == "PUT"@ || m == "DELETE"@
}

/// Whether a lower-cased response type is one that endpoints may declare.
pub open spec fn response_type_allowed(t: Seq<char>) -> bool {
    t == "json"@ || t == "html"@ || t == "text"@
}

/// The first rule that endpoint `e` of `api` breaks, for the extension at `index`.
pub open spec fn endpoint_error(index: usize, e: Endpoint, api: JsonValue) -> Option<SchemaError> {
    match field(api, endpoint_key(e)) {
        None => Some(SchemaError::MissingEndpoint { index, endpoint: e }),
        Some(ep) => {
            if string_field(ep, "url"@) is None {
                Some(SchemaError::EndpointField { index, endpoint: e, field: EndpointField::Url })
            } else if string_field(ep, "method"@) is None {
                Some(SchemaError::EndpointField { index, endpoint: e, field: EndpointField::Method })
            } else if string_field(ep, "response_type"@) is None {
                Some(
                    SchemaError::EndpointField {
                        index,
                        endpoint: e,
                        field: EndpointField::ResponseType,
                    },
                )
            } else if !method_allowed(upper_of(string_field(ep, "method"@)->0)) {
                Some(SchemaError::InvalidMethod { index, endpoint: e })
            } else if !response_type_allowed(lower_of(string_field(ep, "response_type"@)->0)) {
                Some(SchemaError::InvalidResponseType { index, endpoint: e })
            } else {
                None
            }
        },
    }
}

/// The first rule that the endpoints of `api` break, taken in their fixed order.
pub open spec fn api_error(index: usize, api: JsonValue) -> Option<SchemaError> {
    if endpoint_error(index, Endpoint::Search, api) is Some {
        endpoint_error(index, Endpoint::Search, api)
    } else if endpoint_error(index, Endpoint::MangaDetails, api) is Some {
        endpoint_error(index, Endpoint::MangaDetails, api)
    } else if endpoint_error(index, Endpoint::ChapterList, api) is Some {
        endpoint_error(index, Endpoint::ChapterList, api)
    } else {
        endpoint_error(index, Endpoint::PageList, api)
    }
}

/// The first rule that the extension descriptor `ext`, at `index`, breaks.
pub open spec fn extension_error(index: usize, ext: JsonValue) -> Option<SchemaError> {
    if string_field(ext, "id"@) is None {
        Some(SchemaError::ExtensionField { index, field: ExtensionField::Id })
    } else if string_field(ext, "name"@) is None {
        Some(SchemaError::ExtensionField { index, field: ExtensionField::Name })
    } else if string_field(ext, "version"@) is None {
        Some(SchemaError::ExtensionField { index, field: ExtensionField::Version })
    } else {
        match field(ext, "api"@) {
            None => Some(SchemaError::MissingApi { index }),
            Some(api) => api_error(index, api),
        }
    }
}

/// The first rule broken by the descriptors `exts[i..]`, each at its own index.
pub open spec fn extensions_error(exts: Seq<JsonValue>, i: int) -> Option<SchemaError>
    decreases exts.len() - i,
{
    if i < 0 || i >= exts.len() {
        None
    } else if extension_error(i as usize, exts[i]) is Some {
        extension_error(i as usize, exts[i])
    } else {
        extensions_error(exts, i + 1)
    }
}

/// The first rule that the manifest `m` breaks.
pub open spec fn manifest_error(m: JsonValue) -> Option<SchemaError> {
    if string_field(m, "name"@) is None {
        Some(SchemaError::ManifestField { field: ManifestField::Name })
    } else if string_field(m, "version"@) is None {
        Some(SchemaError::ManifestField { field: ManifestField::Version })
    } else if string_field(m, "author"@) is None {
        Some(SchemaError::ManifestField { field: ManifestField::Author })
    } else if string_field(m, "description"@) is None {
        Some(SchemaError::ManifestField { field: ManifestField::Description })
    } else {
        None
    }
}

/// The first rule that the repository document `doc` breaks, if any.
pub open spec fn repository_error(doc: JsonValue) -> Option<SchemaError> {
    match field(doc, "manifest"@) {
        None => Some(SchemaError::MissingManifest),
        Some(m) => {
            if manifest_error(m) is Some {
                manifest_error(m)
            } else {
                match field(doc, "extensions"@) {
                    Some(JsonValue::Array(items)) => {
                        if items@.len() == 0 {
                            Some(SchemaError::EmptyExtensions)
                        } else {
                            extensions_error(items@, 0)
                        }
                    },
                    _ => Some(SchemaError::MissingExtensions),
                }
            }
        },
    }
}

/// Whether `doc` is a valid repository document.
pub open spec fn valid_repository(doc: JsonValue) -> bool {
    repository_error(doc) is None
}

/// The place of an endpoint in the order in which endpoints are checked.
pub open spec fn endpoint_rank(e: Endpoint) -> int {
    match e {
        Endpoint::Search => 0,
        Endpoint::MangaDetails => 1,
        Endpoint::ChapterList => 2,
        Endpoint::PageList => 3,
    }
}

proof fn lemma_first_error_found(exts: Seq<JsonValue>, i: int, k: int)
    requires
        0 <= i <= k < exts.len(),
        extension_error(k as usize, exts[k]) is Some,
    ensures
        extensions_error(exts, i) is Some,
    decreases k - i,
{
    if i < k && extension_error(i as usize, exts[i]) is None {
        lemma_first_error_found(exts, i + 1, k);
    }
}

proof fn lemma_no_error_before(exts: Seq<JsonValue>, i: int, k: int)
    requires
        0 <= i <= k <= exts.len(),
        forall|j: int| i <= j < k ==> extension_error(j as usize, #[trigger] exts[j]) is None,
    ensures
        extensions_error(exts, i) == extensions_error(exts, k),
    decreases k - i,
{
    if i < k {
        lemma_no_error_before(exts, i + 1, k);
    }
}

/// In a valid repository document every descriptor passes its own checks.
pub proof fn lemma_valid_descriptors(doc: JsonValue)
    requires
        valid_repository(doc),
    ensures
        field(doc, "manifest"@) is Some,
        array_field(doc, "extensions"@) is Some,
        array_field(doc, "extensions"@)->Some_0.len() > 0,
        forall|j: int|
            0 <= j < array_field(doc, "extensions"@)->Some_0.len() ==> extension_error(
                j as usize,
                #[trigger] descriptor_at(doc, j),
            ) is None,
{
    if let Some(JsonValue::Array(items)) = field(doc, "extensions"@) {
        assert forall|j: int| 0 <= j < items@.len() implies extension_error(j as usize, #[trigger] items@[j]) is None by {
            if extension_error(j as usize, items@[j]) is Some {
                lemma_first_error_found(items@, 0, j);
            }
        }
    }
}

/// The descriptor at `k` of the document's `extensions` array.
pub open spec fn descriptor_at(doc: JsonValue, k: int) -> JsonValue {
    array_field(doc, "extensions"@)->Some_0[k]
}

/// The `api` of the descriptor at `k`.
pub open spec fn api_at(doc: JsonValue, k: int) -> JsonValue {
    field(descriptor_at(doc, k), "api"@)->Some_0
}

/// A repository document in which some extension has an `api` that lacks
/// one of the four required endpoints is rejected.
pub proof fn lemma_missing_endpoint_rejected(doc: JsonValue, k: int, e: Endpoint)
    requires
        array_field(doc, "extensions"@) is Some,
        0 <= k < array_field(doc, "extensions"@)->Some_0.len(),
        field(descriptor_at(doc, k), "api"@) is Some,
        field(api_at(doc, k), endpoint_key(e)) is None,
    ensures
        repository_error(doc) is Some,
{
    let items = array_field(doc, "extensions"@)->Some_0;
    let api = api_at(doc, k);
    assert(endpoint_error(k as usize, e, api) is Some);
    assert(api_error(k as usize, api) is Some);
    assert(extension_error(k as usize, items[k]) is Some);
    lemma_first_error_found(items, 0, k);
}

/// Where the first fault of a repository document is a missing endpoint,
/// the document is rejected with an error that names the extension's index
/// and that endpoint.
pub proof fn lemma_missing_endpoint_named(doc: JsonValue, k: usize, e: Endpoint)
    requires
        field(doc, "manifest"@) is Some,
        manifest_error(field(doc, "manifest"@)->Some_0) is None,
        array_field(doc, "extensions"@) is Some,
        k < array_field(doc, "extensions"@)->Some_0.len(),
        forall|j: int| 0 <= j < k ==> extension_error(j as usize, #[trigger] descriptor_at(doc, j)) is None,
        string_field(descriptor_at(doc, k as int), "id"@) is Some,
        string_field(descriptor_at(doc, k as int), "name"@) is Some,
        string_field(descriptor_at(doc, k as int), "version"@) is Some,
        field(descriptor_at(doc, k as int), "api"@) is Some,
        field(api_at(doc, k as int), endpoint_key(e)) is None,
        forall|e2: Endpoint|
            endpoint_rank(e2) < endpoint_rank(e) ==> #[trigger] endpoint_error(k, e2, api_at(doc, k as int)) is None,
    ensures
        repository_error(doc) == Some(SchemaError::MissingEndpoint { index: k, endpoint: e }),
{
    let items = array_field(doc, "extensions"@)->Some_0;
    let api = api_at(doc, k as int);
    assert forall|j: int| 0 <= j < k implies extension_error(j as usize, #[trigger] items[j]) is None by {
        assert(items[j] == descriptor_at(doc, j));
    }
    lemma_no_error_before(items, 0, k as int);
    assert(endpoint_error(k, Endpoint::Search, api) is None || e == Endpoint::Search);
    assert(endpoint_error(k, Endpoint::MangaDetails, api) is None || endpoint_rank(e) <= 1);
    assert(endpoint_error(k, Endpoint::ChapterList, api) is None || endpoint_rank(e) <= 2);
    assert(api_error(k, api) == Some(SchemaError::MissingEndpoint { index: k, endpoint: e }));
    assert(extension_error(k, items[k as int]) == Some(SchemaError::MissingEndpoint { index: k, endpoint: e }));
    assert(extensions_error(items, k as int) == Some(SchemaError::MissingEndpoint { index: k, endpoint: e }));
}

/// The key of endpoint `e`.
pub fn endpoint_name(e: Endpoint) -> (r: &'static str)
    ensures
        r@ == endpoint_key(e),
{
    match e {
        Endpoint::Search => "search",
        Endpoint::MangaDetails => "manga_details",
        Endpoint::ChapterList => "chapter_list",
        Endpoint::PageList => "page_list",
    }
}

/// Whether `m`, already upper-cased, is an allowed method.
pub fn is_allowed_method(m: &str) -> (r: bool)
    ensures
        r == method_allowed(m@),
{
    let t = m.to_owned();
    t == "GET".to_owned() || t == "POST".to_owned() || t == "PUT".to_owned() || t
        == "DELETE".to_owned()
}

/// Whether `t`, already lower-cased, is an allowed response type.
pub fn is_allowed_response_type(t: &str) -> (r: bool)
    ensures
        r == response_type_allowed(t@),
{
    let s = t.to_owned();
    s == "json".to_owned() || s == "html".to_owned() || s == "text".to_owned()
}

/// Whether `m` is an allowed method whatever the case of its ASCII letters.
pub open spec fn method_allowed_ignoring_case(m: Seq<char>) -> bool {
    same_upper(m, "GET"@) || same_upper(m, "POST"@) || same_upper(m, "PUT"@) || same_upper(m, "DELETE"@)
}

/// Whether `t` is an allowed response type whatever the case of its ASCII letters.
pub open spec fn response_type_allowed_ignoring_case(t: Seq<char>) -> bool {
    same_lower(t, "json"@) || same_lower(t, "html"@) || same_lower(t, "text"@)
}

proof fn lemma_upper_equals(m: Seq<char>, up: Seq<char>, lit: Seq<char>)
    requires
        up.len() == m.len(),
        forall|i: int| 0 <= i < m.len() ==> (#[trigger] up[i]) as int == ascii_upper_code(m[i]),
        forall|i: int| 0 <= i < lit.len() ==> ascii_upper_code(#[trigger] lit[i]) == lit[i] as int,
    ensures
        (up == lit) == same_upper(m, lit),
{
    if same_upper(m, lit) {
        assert forall|i: int| 0 <= i < up.len() implies up[i] == lit[i] by {
            assert(ascii_upper_code(m[i]) == ascii_upper_code(lit[i]));
        }
        assert(up =~= lit);
    }
    if up == lit {
        assert forall|i: int| 0 <= i < m.len() implies ascii_upper_code(#[trigger] m[i]) == ascii_upper_code(lit[i]) by {
            assert(up[i] == lit[i]);
        }
    }
}

proof fn lemma_lower_equals(t: Seq<char>, low: Seq<char>, lit: Seq<char>)
    requires
        low.len() == t.len(),
        forall|i: int| 0 <= i < t.len() ==> (#[trigger] low[i]) as int == ascii_lower_code(t[i]),
        forall|i: int| 0 <= i < lit.len() ==> ascii_lower_code(#[trigger] lit[i]) == lit[i] as int,
    ensures
        (low == lit) == same_lower(t, lit),
{
    if same_lower(t, lit) {
        assert forall|i: int| 0 <= i < low.len() implies low[i] == lit[i] by {
            assert(ascii_lower_code(t[i]) == ascii_lower_code(lit[i]));
        }
        assert(low =~= lit);
    }
    if low == lit {
        assert forall|i: int| 0 <= i < t.len() implies ascii_lower_code(#[trigger] t[i]) == ascii_lower_code(lit[i]) by {
            assert(low[i] == lit[i]);
        }
    }
}

/// The upper-cased `method`, and whether it is allowed. On ASCII text the
/// verdict ignores case: `get`, `Get` and `GET` are allowed alike, and no
/// case of `PATCH` is.
pub fn check_method(method: &str) -> (r: (String, bool))
    ensures
        r.0@ == upper_of(method@),
        r.1 == method_allowed(upper_of(method@)),
        is_ascii_text(method@) ==> r.1 == method_allowed_ignoring_case(method@),
{
    let upper = to_upper(method);
    let allowed = is_allowed_method(upper.as_str());
    proof {
        if is_ascii_text(method@) {
            reveal_strlit("GET");
            reveal_strlit("POST");
            reveal_strlit("PUT");
            reveal_strlit("DELETE");
            lemma_upper_equals(method@, upper@, "GET"@);
            lemma_upper_equals(method@, upper@, "POST"@);
            lemma_upper_equals(method@, upper@, "PUT"@);
            lemma_upper_equals(method@, upper@, "DELETE"@);
        }
    }
    (upper, allowed)
}

/// The lower-cased `response_type`, and whether it is allowed. On ASCII
/// text the verdict ignores case: `json`, `Json` and `JSON` are allowed alike.
pub fn check_response_type(response_type: &str) -> (r: (String, bool))
    ensures
        r.0@ == lower_of(response_type@),
        r.1 == response_type_allowed(lower_of(response_type@)),
        is_ascii_text(response_type@) ==> r.1 == response_type_allowed_ignoring_case(response_type@),
{
    let lower = to_lower(response_type);
    let allowed = is_allowed_response_type(lower.as_str());
    proof {
        if is_ascii_text(response_type@) {
            reveal_strlit("json");
            reveal_strlit("html");
            reveal_strlit("text");
            lemma_lower_equals(response_type@, lower@, "json"@);
            lemma_lower_equals(response_type@, lower@, "html"@);
            lemma_lower_equals(response_type@, lower@, "text"@);
        }
    }
    (lower, allowed)
}

/// Whether the endpoint `ep` has a URL and an ASCII method and response type.
pub open spec fn plain_json_endpoint(ep: JsonValue) -> bool {
    &&& string_field(ep, "url"@) is Some
    &&& string_field(ep, "method"@) is Some
    &&& string_field(ep, "response_type"@) is Some
    &&& is_ascii_text(string_field(ep, "method"@)->Some_0)
    &&& is_ascii_text(string_field(ep, "response_type"@)->Some_0)
}

/// Whether the method and response type of `ep` are allowed whatever their case.
pub open spec fn json_endpoint_allowed_ignoring_case(ep: JsonValue) -> bool {
    &&& method_allowed_ignoring_case(string_field(ep, "method"@)->Some_0)
    &&& response_type_allowed_ignoring_case(string_field(ep, "response_type"@)->Some_0)
}

/// Checks endpoint `e` of `api`, for the extension at `index`. Where the
/// endpoint has a URL and an ASCII method and response type, it accepts them
/// whatever their case.
pub fn check_endpoint(index: usize, e: Endpoint, api: &JsonValue) -> (r: Result<(), SchemaError>)
    ensures
        r == match endpoint_error(index, e, *api) {
            None => Ok(()),
            Some(err) => Err(err),
        },
        field(*api, endpoint_key(e)) is Some && plain_json_endpoint(field(*api, endpoint_key(e))->Some_0)
            ==> (r is Ok <==> json_endpoint_allowed_ignoring_case(field(*api, endpoint_key(e))->Some_0)),
{
    let ep = match api.get(endpoint_name(e)) {
        None => {
            return Err(SchemaError::MissingEndpoint { index, endpoint: e });
        },
        Some(ep) => ep,
    };
    if ep.get_str("url").is_none() {
        return Err(SchemaError::EndpointField { index, endpoint: e, field: EndpointField::Url });
    }
    let method = match ep.get_str("method") {
        None => {
            return Err(
                SchemaError::EndpointField { index, endpoint: e, field: EndpointField::Method },
            );
        },
        Some(m) => m,
    };
    let response_type = match ep.get_str("response_type") {
        None => {
            return Err(
                SchemaError::EndpointField {
                    index,
                    endpoint: e,
                    field: EndpointField::ResponseType,
                },
            );
        },
        Some(t) => t,
    };
    if !check_method(method.as_str()).1 {
        return Err(SchemaError::InvalidMethod { index, endpoint: e });
    }
    if !check_response_type(response_type.as_str()).1 {
        return Err(SchemaError::InvalidResponseType { index, endpoint: e });
    }
    Ok(())
}

/// Checks the four endpoints of `api` in their fixed order.
pub fn check_api(index: usize, api: &JsonValue) -> (r: Result<(), SchemaError>)
    ensures
        r == match api_error(index, *api) {
            None => Ok(()),
            Some(err) => Err(err),
        },
{
    check_endpoint(index, Endpoint::Search, api)?;
    check_endpoint(index, Endpoint::MangaDetails, api)?;
    check_endpoint(index, Endpoint::ChapterList, api)?;
    check_endpoint(index, Endpoint::PageList, api)
}

/// Checks one extension descriptor, found at `index` of a repository.
pub fn check_extension(index: usize, ext: &JsonValue) -> (r: Result<(), SchemaError>)
    ensures
        r == match extension_error(index, *ext) {
            None => Ok(()),
            Some(err) => Err(err),
        },
{
    if ext.get_str("id").is_none() {
        return Err(SchemaError::ExtensionField { index, field: ExtensionField::Id });
    }
    if ext.get_str("name").is_none() {
        return Err(SchemaError::ExtensionField { index, field: ExtensionField::Name });
    }
    if ext.get_str("version").is_none() {
        return Err(SchemaError::ExtensionField { index, field: ExtensionField::Version });
    }
    match ext.get("api") {
        None => Err(SchemaError::MissingApi { index }),
        Some(api) => check_api(index, api),
    }
}

/// Checks a manifest's four string fields.
pub fn check_manifest(m: &JsonValue) -> (r: Result<(), SchemaError>)
    ensures
        r == match manifest_error(*m) {
            None => Ok(()),
            Some(err) => Err(err),
        },
{
    if m.get_str("name").is_none() {
        return Err(SchemaError::ManifestField { field: ManifestField::Name });
    }
    if m.get_str("version").is_none() {
        return Err(SchemaError::ManifestField { field: ManifestField::Version });
    }
    if m.get_str("author").is_none() {
        return Err(SchemaError::ManifestField { field: ManifestField::Author });
    }
    if m.get_str("description").is_none() {
        return Err(SchemaError::ManifestField { field: ManifestField::Description });
    }
    Ok(())
}

/// Validates a repository document: succeeds exactly when it is valid, and
/// otherwise reports the first rule it breaks.
pub fn validate_repository(doc: &JsonValue) -> (r: Result<(), SchemaError>)
    ensures
        r == match repository_error(*doc) {
            None => Ok(()),
            Some(err) => Err(err),
        },
        r is Ok <==> valid_repository(*doc),
{
    let m = match doc.get("manifest") {
        None => {
            return Err(SchemaError::MissingManifest);
        },
        Some(m) => m,
    };
    check_manifest(m)?;
    let items = match doc.get("extensions") {
        Some(JsonValue::Array(items)) => items,
        _ => {
            return Err(SchemaError::MissingExtensions);
        },
    };
    if items.len() == 0 {
        return Err(SchemaError::EmptyExtensions);
    }
    let mut i: usize = 0;
    while i < items.len()
        invariant
            i <= items@.len(),
            items@.len() > 0,
            field(*doc, "manifest"@) == Some(*m),
            manifest_error(*m) is None,
            field(*doc, "extensions"@) == Some(JsonValue::Array(*items)),
            extensions_error(items@, 0) == extensions_error(items@, i as int),
        decreases items@.len() - i,
    {
        match check_extension(i, &items[i]) {
            Err(e) => {
                return Err(e);
            },
            Ok(()) => {},
        }
        i = i + 1;
    }
    Ok(())
}


/// The key of an extension field.
pub open spec fn extension_key(f: ExtensionField) -> Seq<char> {
    match f {
        ExtensionField::Id => "id"@,
        ExtensionField::Name => "name"@,
        ExtensionField::Version => "version"@,
    }
}

/// The key of an endpoint field.
pub open spec fn endpoint_field_key(f: EndpointField) -> Seq<char> {
    match f {
        EndpointField::Url => "url"@,
        EndpointField::Method => "method"@,
        EndpointField::ResponseType => "response_type"@,
    }
}

/// The path of the extension at `index`: `extensions[index]`.
pub open spec fn extension_path(index: usize) -> Seq<char> {
    "extensions["@ + decimal(index as nat) + "]"@
}

/// The path of endpoint `e` of the extension at `index`.
pub open spec fn endpoint_path(index: usize, e: Endpoint) -> Seq<char> {
    extension_path(index) + ".api."@ + endpoint_key(e)
}

/// The text of an error, naming the path of the field at fault.
pub open spec fn error_text(e: SchemaError) -> Seq<char> {
    match e {
        SchemaError::MissingManifest => "manifest is required"@,
        SchemaError::ManifestField { field } => "manifest."@ + manifest_key(field)
            + " must be a string"@,
        SchemaError::MissingExtensions => "extensions must be an array"@,
        SchemaError::EmptyExtensions => "extensions must not be empty"@,
        SchemaError::ExtensionField { index, field } => extension_path(index) + "."@
            + extension_key(field) + " must be a string"@,
        SchemaError::MissingApi { index } => extension_path(index) + ".api is required"@,
        SchemaError::MissingEndpoint { index, endpoint } => endpoint_path(index, endpoint)
            + " is required"@,
        SchemaError::EndpointField { index, endpoint, field } => endpoint_path(index, endpoint)
            + "."@ + endpoint_field_key(field) + " must be a string"@,
        SchemaError::InvalidMethod { index, endpoint } => endpoint_path(index, endpoint)
            + ".method must be GET, POST, PUT or DELETE"@,
        SchemaError::InvalidResponseType { index, endpoint } => endpoint_path(index, endpoint)
            + ".response_type must be json, html or text"@,
    }
}

fn manifest_field_name(f: ManifestField) -> (r: &'static str)
    ensures
        r@ == manifest_key(f),
{
    match f {
        ManifestField::Name => "name",
        ManifestField::Version => "version",
        ManifestField::Author => "author",
        ManifestField::Description => "description",
    }
}

fn extension_field_name(f: ExtensionField) -> (r: &'static str)
    ensures
        r@ == extension_key(f),
{
    match f {
        ExtensionField::Id => "id",
        ExtensionField::Name => "name",
        ExtensionField::Version => "version",
    }
}

fn endpoint_field_name(f: EndpointField) -> (r: &'static str)
    ensures
        r@ == endpoint_field_key(f),
{
    match f {
        EndpointField::Url => "url",
        EndpointField::Method => "method",
        EndpointField::ResponseType => "response_type",
    }
}

fn push_extension_path(out: &mut String, index: usize)
    ensures
        final(out)@ == old(out)@ + extension_path(index),
{
    push_text(out, "extensions[");
    push_decimal(out, index as u64);
    push_text(out, "]");
    proof {
        assert(final(out)@ =~= old(out)@ + extension_path(index));
    }
}

fn push_endpoint_path(out: &mut String, index: usize, e: Endpoint)
    ensures
        final(out)@ == old(out)@ + endpoint_path(index, e),
{
    push_extension_path(out, index);
    push_text(out, ".api.");
    push_text(out, endpoint_name(e));
    proof {
        assert(final(out)@ =~= old(out)@ + endpoint_path(index, e));
    }
}

impl SchemaError {
    /// A readable account of the error that names the path of the field at fault.
    pub fn message(&self) -> (r: String)
        ensures
            r@ == error_text(*self),
    {
        let mut out = String::new();
        match *self {
            SchemaError::MissingManifest => push_text(&mut out, "manifest is required"),
            SchemaError::ManifestField { field } => {
                push_text(&mut out, "manifest.");
                push_text(&mut out, manifest_field_name(field));
                push_text(&mut out, " must be a string");
            },
            SchemaError::MissingExtensions => push_text(&mut out, "extensions must be an array"),
            SchemaError::EmptyExtensions => push_text(&mut out, "extensions must not be empty"),
            SchemaError::ExtensionField { index, field } => {
                push_extension_path(&mut out, index);
                push_text(&mut out, ".");
                push_text(&mut out, extension_field_name(field));
                push_text(&mut out, " must be a string");
            },
            SchemaError::MissingApi { index } => {
                push_extension_path(&mut out, index);
                push_text(&mut out, ".api is required");
            },
            SchemaError::MissingEndpoint { index, endpoint } => {
                push_endpoint_path(&mut out, index, endpoint);
                push_text(&mut out, " is required");
            },
            SchemaError::EndpointField { index, endpoint, field } => {
                push_endpoint_path(&mut out, index, endpoint);
                push_text(&mut out, ".");
                push_text(&mut out, endpoint_field_name(field));
                push_text(&mut out, " must be a string");
            },
            SchemaError::InvalidMethod { index, endpoint } => {
                push_endpoint_path(&mut out, index, endpoint);
                push_text(&mut out, ".method must be GET, POST, PUT or DELETE");
            },
            SchemaError::InvalidResponseType { index, endpoint } => {
                push_endpoint_path(&mut out, index, endpoint);
                push_text(&mut out, ".response_type must be json, html or text");
            },
        }
        proof {
            assert(out@ =~= error_text(*self));
        }
        out
    }
}

} // verus!
