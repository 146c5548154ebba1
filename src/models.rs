//! Whole extension records, their standalone validator, and the keyed
//! collection that stores them.

use vstd::prelude::*;
use crate::json::JsonValue;
use crate::text::{upper_of, lower_of, push_text, is_ascii_text, has_prefix, has_suffix, starts_with, ends_with};
use crate::clock::now_text;
use crate::schema::{
    method_allowed, response_type_allowed, check_method, check_response_type,
    method_allowed_ignoring_case, response_type_allowed_ignoring_case,
};

verus! {

/// One HTTP endpoint of an extension. `headers`, `params` and `parser` are
/// carried through unchecked.
#[derive(Debug, Clone, PartialEq, Eq)]
pub struct ApiEndpoint {
    pub url: String,
    pub method: String,
    pub response_type: String,
    pub headers: Option<JsonValue>,
    pub params: Option<JsonValue>,
    pub parser: Option<JsonValue>,
}

/// The endpoints of an extension: four required, and an optional cover art one.
#[derive(Debug, Clone, PartialEq, Eq)]
pub struct ExtensionApi {
    pub search: ApiEndpoint,
    pub manga_details: ApiEndpoint,
    pub chapter_list: ApiEndpoint,
    pub page_list: ApiEndpoint,
    pub cover_art: Option<ApiEndpoint>,
}

/// An extension as installed on its own, with where it came from.
#[derive(Debug, Clone, PartialEq, Eq)]
pub struct Extension {
    pub id: String,
    pub name: String,
    pub version: String,
    pub author: String,
    pub description: String,
    pub nsfw: bool,
    pub language: Option<String>,
    pub source_type: String,
    pub source_path: String,
    pub api: ExtensionApi,
    pub icon: Option<String>,
    pub added_at: String,
}

/// The keyed collection of installed extensions.
#[derive(Debug, Clone, PartialEq, Eq)]
pub struct ExtensionCollection {
    pub extensions: Vec<Extension>,
    pub last_updated: String,
}

/// A file of the extensions directory with the extension it holds, or
/// `None` where it could not be read or parsed.
#[derive(Debug, Clone)]
pub struct StoredExtension {
    pub file_name: String,
    pub extension: Option<Extension>,
}

/// A manga of the library.
#[derive(Debug, Clone, PartialEq, Eq)]
pub struct Manga {
    pub id: String,
    pub title: String,
    pub path: String,
    pub category: String,
    pub cover: String,
    pub last_read: Option<String>,
    pub created_at: String,
    pub progress: u32,
    pub source: String,
}

/// What a user gives to import a manga.
#[derive(Debug, Clone, PartialEq, Eq)]
pub struct MangaInput {
    pub title: String,
    pub path: String,
    pub category: String,
}

/// The manga library.
#[derive(Debug, Clone, PartialEq, Eq)]
pub struct Library {
    pub manga: Vec<Manga>,
}

/// Why the endpoint `ep`, known as `name`, is rejected, if it is.
pub open spec fn endpoint_problem(ep: ApiEndpoint, name: Seq<char>) -> Option<Seq<char>> {
    if ep.url@.len() == 0 {
        Some("API endpoint '"@ + name + "' URL cannot be empty"@)
    } else if !method_allowed(upper_of(ep.method@)) {
        Some(
            "API endpoint '"@ + name + "' has invalid method: "@ + upper_of(ep.method@)
                + ". Must be GET, POST, PUT, or DELETE"@,
        )
    } else if !response_type_allowed(lower_of(ep.response_type@)) {
        Some(
            "API endpoint '"@ + name + "' has invalid response_type: "@ + lower_of(
                ep.response_type@,
            ) + ". Must be json, html, or text"@,
        )
    } else {
        None
    }
}

/// Why the extension `ext` is rejected, if it is: the first empty field
/// among id, name, version and author, then the first bad required endpoint.
pub open spec fn extension_problem(ext: Extension) -> Option<Seq<char>> {
    if ext.id@.len() == 0 {
        Some("Extension ID cannot be empty"@)
    } else if ext.name@.len() == 0 {
        Some("Extension name cannot be empty"@)
    } else if ext.version@.len() == 0 {
        Some("Extension version cannot be empty"@)
    } else if ext.author@.len() == 0 {
        Some("Extension author cannot be empty"@)
    } else if endpoint_problem(ext.api.search, "search"@) is Some {
        endpoint_problem(ext.api.search, "search"@)
    } else if endpoint_problem(ext.api.manga_details, "manga_details"@) is Some {
        endpoint_problem(ext.api.manga_details, "manga_details"@)
    } else if endpoint_problem(ext.api.chapter_list, "chapter_list"@) is Some {
        endpoint_problem(ext.api.chapter_list, "chapter_list"@)
    } else {
        endpoint_problem(ext.api.page_list, "page_list"@)
    }
}

/// Whether `r` reports `problem`: `Ok` where there is none, else its text.
pub open spec fn reports(r: Result<(), String>, problem: Option<Seq<char>>) -> bool {
    match problem {
        None => r is Ok,
        Some(p) => r matches Err(e) && e@ == p,
    }
}

/// Whether the endpoint has a URL and an ASCII method and response type.
pub open spec fn plain_endpoint(ep: ApiEndpoint) -> bool {
    ep.url@.len() > 0 && is_ascii_text(ep.method@) && is_ascii_text(ep.response_type@)
}

/// Whether the endpoint's method and response type are allowed whatever the
/// case of their letters.
pub open spec fn endpoint_allowed_ignoring_case(ep: ApiEndpoint) -> bool {
    method_allowed_ignoring_case(ep.method@) && response_type_allowed_ignoring_case(ep.response_type@)
}

/// Checks one endpoint of a standalone extension, known as `name`. On a
/// URL with an ASCII method and response type, it accepts them whatever
/// their case.
pub fn validate_api_endpoint(endpoint: &ApiEndpoint, name: &str) -> (r: Result<(), String>)
    ensures
        reports(r, endpoint_problem(*endpoint, name@)),
        plain_endpoint(*endpoint) ==> (r is Ok <==> endpoint_allowed_ignoring_case(*endpoint)),
{
    if endpoint.url.as_str().unicode_len() == 0 {
        let mut e = String::new();
        push_text(&mut e, "API endpoint '");
        push_text(&mut e, name);
        push_text(&mut e, "' URL cannot be empty");
        return Err(e);
    }
    let (method, method_ok) = check_method(endpoint.method.as_str());
    if !method_ok {
        let mut e = String::new();
        push_text(&mut e, "API endpoint '");
        push_text(&mut e, name);
        push_text(&mut e, "' has invalid method: ");
        push_text(&mut e, method.as_str());
        push_text(&mut e, ". Must be GET, POST, PUT, or DELETE");
        return Err(e);
    }
    let (response_type, response_type_ok) = check_response_type(endpoint.response_type.as_str());
    if !response_type_ok {
        let mut e = String::new();
        push_text(&mut e, "API endpoint '");
        push_text(&mut e, name);
        push_text(&mut e, "' has invalid response_type: ");
        push_text(&mut e, response_type.as_str());
        push_text(&mut e, ". Must be json, html, or text");
        return Err(e);
    }
    Ok(())
}

fn fail(text: &str) -> (r: Result<(), String>)
    ensures
        r matches Err(e) && e@ == text@,
{
    Err(text.to_owned())
}

/// Checks a standalone extension: id, name, version and author must be
/// non-empty, and the four required endpoints valid. Where the required
/// fields are there and each endpoint has a URL and an ASCII method and
/// response type, it accepts them whatever their case.
pub fn validate_extension(extension: &Extension) -> (r: Result<(), String>)
    ensures
        reports(r, extension_problem(*extension)),
        ({
            &&& extension.id@.len() > 0
            &&& extension.name@.len() > 0
            &&& extension.version@.len() > 0
            &&& extension.author@.len() > 0
            &&& plain_endpoint(extension.api.search)
            &&& plain_endpoint(extension.api.manga_details)
            &&& plain_endpoint(extension.api.chapter_list)
            &&& plain_endpoint(extension.api.page_list)
        }) ==> (r is Ok <==> {
            &&& endpoint_allowed_ignoring_case(extension.api.search)
            &&& endpoint_allowed_ignoring_case(extension.api.manga_details)
            &&& endpoint_allowed_ignoring_case(extension.api.chapter_list)
            &&& endpoint_allowed_ignoring_case(extension.api.page_list)
        }),
{
    if extension.id.as_str().unicode_len() == 0 {
        return fail("Extension ID cannot be empty");
    }
    if extension.name.as_str().unicode_len() == 0 {
        return fail("Extension name cannot be empty");
    }
    if extension.version.as_str().unicode_len() == 0 {
        return fail("Extension version cannot be empty");
    }
    if extension.author.as_str().unicode_len() == 0 {
        return fail("Extension author cannot be empty");
    }
    validate_api_endpoint(&extension.api.search, "search")?;
    validate_api_endpoint(&extension.api.manga_details, "manga_details")?;
    validate_api_endpoint(&extension.api.chapter_list, "chapter_list")?;
    validate_api_endpoint(&extension.api.page_list, "page_list")
}


/// Whether `x` is `ext` stamped as read from `kind` at `path`, at `added_at`.
pub open spec fn stamped(x: Extension, ext: Extension, kind: Seq<char>, path: Seq<char>, added_at: Seq<char>) -> bool {
    &&& x.id == ext.id
    &&& x.name == ext.name
    &&& x.version == ext.version
    &&& x.author == ext.author
    &&& x.description == ext.description
    &&& x.nsfw == ext.nsfw
    &&& x.language == ext.language
    &&& x.api == ext.api
    &&& x.icon == ext.icon
    &&& x.source_type@ == kind
    &&& x.source_path@ == path
    &&& x.added_at@ == added_at
}

fn stamp(extension: Extension, kind: &str, path: &str, added_at: String) -> (r: Extension)
    ensures
        stamped(r, extension, kind@, path@, added_at@),
{
    Extension {
        source_type: kind.to_owned(),
        source_path: path.to_owned(),
        added_at,
        ..extension
    }
}

/// The error given where the system clock cannot be read.
pub open spec fn clock_unavailable() -> Seq<char> {
    "System clock is unavailable"@
}

/// Accepts an extension read from the file at `path`: where it is valid,
/// returns it stamped with its source and the current time; fails where the
/// clock cannot be read.
pub fn validate_extension_file(path: &str, extension: Extension) -> (r: Result<Extension, String>)
    ensures
        match extension_problem(extension) {
            Some(p) => r matches Err(e) && e@ == p,
            None => {
                ||| r matches Ok(x) && stamped(x, extension, "file"@, path@, x.added_at@)
                ||| r matches Err(e) && e@ == clock_unavailable()
            },
        },
{
    match validate_extension(&extension) {
        Err(e) => Err(e),
        Ok(()) => match now_text() {
            Some(added_at) => Ok(stamp(extension, "file", path, added_at)),
            None => Err("System clock is unavailable".to_owned()),
        },
    }
}

/// Accepts an extension fetched from `url`: where it is valid, returns it
/// stamped with its source and the current time; fails where the clock
/// cannot be read.
pub fn validate_extension_url(url: &str, extension: Extension) -> (r: Result<Extension, String>)
    ensures
        match extension_problem(extension) {
            Some(p) => r matches Err(e) && e@ == p,
            None => {
                ||| r matches Ok(x) && stamped(x, extension, "url"@, url@, x.added_at@)
                ||| r matches Err(e) && e@ == clock_unavailable()
            },
        },
{
    match validate_extension(&extension) {
        Err(e) => Err(e),
        Ok(()) => match now_text() {
            Some(added_at) => Ok(stamp(extension, "url", url, added_at)),
            None => Err("System clock is unavailable".to_owned()),
        },
    }
}

/// Whether an HTTP status is a success (2xx).
pub fn is_success_status(status: u16) -> (r: bool)
    ensures
        r == (200 <= status && status < 300),
{
    200 <= status && status < 300
}

/// The position of the last extension with identifier `id`, or -1.
pub open spec fn extension_position(exts: Seq<Extension>, id: Seq<char>) -> int
    decreases exts.len(),
{
    if exts.len() == 0 {
        -1
    } else if exts.last().id@ == id {
        exts.len() - 1
    } else {
        extension_position(exts.drop_last(), id)
    }
}

/// Whether no two extensions share an identifier.
pub open spec fn unique_extension_ids(exts: Seq<Extension>) -> bool {
    forall|i: int, j: int|
        0 <= i < exts.len() && 0 <= j < exts.len() && i != j ==> (#[trigger] exts[i]).id@
            != (#[trigger] exts[j]).id@
}

/// `exts` with `ext` in place of the one with its identifier, or with `ext` added at the end.
pub open spec fn upserted(exts: Seq<Extension>, ext: Extension) -> Seq<Extension> {
    let p = extension_position(exts, ext.id@);
    if p >= 0 {
        exts.update(p, ext)
    } else {
        exts.push(ext)
    }
}

/// Whether a file of the extensions directory is an extension's file: its
/// name is something followed by `.json`, and it is no repository document,
/// whose name begins with `repo_`.
pub open spec fn extension_file_name(name: Seq<char>) -> bool {
    &&& name.len() > 5
    &&& has_suffix(name, ".json"@)
    &&& !has_prefix(name, "repo_"@)
}

/// The extensions that a directory listing yields: those of extension files
/// that could be read, in order.
pub open spec fn loaded(entries: Seq<StoredExtension>) -> Seq<Extension>
    decreases entries.len(),
{
    if entries.len() == 0 {
        Seq::empty()
    } else {
        let rest = loaded(entries.drop_first());
        if extension_file_name(entries[0].file_name@) && entries[0].extension is Some {
            seq![entries[0].extension->Some_0] + rest
        } else {
            rest
        }
    }
}

/// What `extension_position` finds: an index holding the identifier, or -1
/// where none does.
pub proof fn lemma_extension_position(exts: Seq<Extension>, id: Seq<char>)
    ensures
        -1 <= extension_position(exts, id) < exts.len(),
        extension_position(exts, id) >= 0 ==> exts[extension_position(exts, id)].id@ == id,
        extension_position(exts, id) == -1 ==> forall|i: int| 0 <= i < exts.len() ==> (#[trigger] exts[i]).id@ != id,
    decreases exts.len(),
{
    if exts.len() > 0 {
        lemma_extension_position(exts.drop_last(), id);
        if exts.last().id@ != id {
            assert forall|i: int| 0 <= i < exts.len() - 1 implies exts.drop_last()[i] == exts[i] by {}
        }
    }
}

fn find_extension(exts: &Vec<Extension>, id: &String) -> (r: Option<usize>)
    ensures
        r matches Some(p) ==> extension_position(exts@, id@) == p,
        r is None ==> extension_position(exts@, id@) == -1,
{
    let mut i: usize = exts.len();
    assert(exts@.subrange(0, i as int) =~= exts@);
    while i > 0
        invariant
            i <= exts@.len(),
            extension_position(exts@, id@) == extension_position(exts@.subrange(0, i as int), id@),
        decreases i,
    {
        proof {
            assert(exts@.subrange(0, i as int).drop_last() =~= exts@.subrange(0, i - 1));
        }
        if exts[i - 1].id == *id {
            return Some(i - 1);
        }
        i = i - 1;
    }
    None
}

impl ExtensionCollection {
    /// Whether no two extensions of the collection share an identifier.
    pub open spec fn wf(&self) -> bool {
        unique_extension_ids(self.extensions@)
    }
}

/// Installing two extensions with different identifiers, one after the
/// other, leaves a collection that holds both.
pub proof fn lemma_add_two_extensions(exts: Seq<Extension>, x: Extension, y: Extension)
    requires
        x.id@ != y.id@,
    ensures
        upserted(upserted(exts, x), y).contains(x),
        upserted(upserted(exts, x), y).contains(y),
{
    lemma_extension_position(exts, x.id@);
    let once = upserted(exts, x);
    let px = extension_position(exts, x.id@);
    let k = if px >= 0 { px } else { exts.len() as int };
    assert(once[k] == x);
    lemma_extension_position(once, y.id@);
    let twice = upserted(once, y);
    let py = extension_position(once, y.id@);
    if py >= 0 {
        assert(py != k);
        assert(twice[k] == x);
        assert(twice[py] == y);
    } else {
        assert(twice[k] == x);
        assert(twice[once.len() as int] == y);
    }
}

/// Installs `extension`, replacing the one with the same identifier.
pub fn add_extension(collection: &mut ExtensionCollection, extension: Extension)
    ensures
        final(collection).extensions@ == upserted(old(collection).extensions@, extension),
        final(collection).last_updated == old(collection).last_updated,
        old(collection).wf() ==> final(collection).wf(),
{
    proof {
        lemma_extension_position(collection.extensions@, extension.id@);
    }
    let ghost target = extension;
    match find_extension(&collection.extensions, &extension.id) {
        Some(p) => {
            let n = collection.extensions.len();
            assert(p < n);
            let next = p + 1;
            collection.extensions.insert(p, extension);
            collection.extensions.remove(next);
            proof {
                assert(collection.extensions@ =~= old(collection).extensions@.update(p as int, target));
            }
        },
        None => {
            collection.extensions.push(extension);
        },
    }
}

/// Removes the extension `extension_id`; fails where there is none.
pub fn remove_extension(collection: &mut ExtensionCollection, extension_id: &str) -> (r: Result<(), String>)
    ensures
        extension_position(old(collection).extensions@, extension_id@) >= 0 ==> {
            &&& r is Ok
            &&& final(collection).extensions@ == old(collection).extensions@.remove(
                extension_position(old(collection).extensions@, extension_id@),
            )
        },
        extension_position(old(collection).extensions@, extension_id@) < 0 ==> {
            &&& r matches Err(e) && e@ == "Extension with ID "@ + extension_id@ + " not found"@
            &&& final(collection).extensions == old(collection).extensions
        },
        final(collection).last_updated == old(collection).last_updated,
        old(collection).wf() ==> final(collection).wf(),
{
    proof {
        lemma_extension_position(collection.extensions@, extension_id@);
    }
    let key = extension_id.to_owned();
    match find_extension(&collection.extensions, &key) {
        Some(p) => {
            collection.extensions.remove(p);
            Ok(())
        },
        None => {
            let mut e = String::new();
            push_text(&mut e, "Extension with ID ");
            push_text(&mut e, extension_id);
            push_text(&mut e, " not found");
            Err(e)
        },
    }
}

/// The collection listed from a directory: the extension of every extension
/// file that could be read, in order, stamped with the current time (empty
/// where the clock cannot be read). Other files are skipped.
pub fn get_all_extensions(entries: Vec<StoredExtension>) -> (r: ExtensionCollection)
    ensures
        r.extensions@ == loaded(entries@),
{
    let mut rest = entries;
    let mut out: Vec<Extension> = Vec::new();
    while rest.len() > 0
        invariant
            out@ + loaded(rest@) == loaded(entries@),
        decreases rest@.len(),
    {
        let ghost before = rest@;
        let ghost out_before = out@;
        let entry = rest.remove(0);
        proof {
            assert(rest@ =~= before.drop_first());
        }
        let name = entry.file_name.as_str();
        proof {
            reveal_strlit(".json");
        }
        let keep = name.unicode_len() > 5 && ends_with(name, ".json") && !starts_with(name, "repo_");
        match entry.extension {
            Some(x) => {
                if keep {
                    out.push(x);
                    proof {
                        assert(loaded(before) == seq![x] + loaded(rest@));
                        assert(out@ + loaded(rest@) =~= out_before + (seq![x] + loaded(rest@)));
                    }
                }
            },
            None => {},
        }
    }
    proof {
        assert(loaded(rest@) =~= Seq::<Extension>::empty());
        assert(out@ + loaded(rest@) =~= out@);
    }
    let last_updated = match now_text() {
        Some(t) => t,
        None => String::new(),
    };
    ExtensionCollection { extensions: out, last_updated }
}

} // verus!
