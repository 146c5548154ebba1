//! Turning a validated repository document into what is stored for it.

use vstd::prelude::*;
use crate::json::{JsonValue, field, string_field};
use crate::schema::{SchemaError, repository_error, valid_repository, validate_repository, manifest_error};
use crate::decompose::{ExtensionFile, decompose, decomposition_of, descriptors, manifest_of};
use crate::catalog::{RepositoryRecord, SourceKind, fresh_repository_id, position_of};
use crate::text::has_prefix;
use crate::naming::{id_file_name, id_file_of, repository_id, repository_id_of};
use crate::clock::{unix_seconds_now, now_text};

verus! {

/// A repository document made ready to store: its record for the catalog,
/// the repository document itself under `blob_name`, and one file per extension.
pub struct Ingest {
    pub record: RepositoryRecord,
    pub blob_name: String,
    pub blob: JsonValue,
    pub files: Vec<ExtensionFile>,
}

/// The documents stored for a repository: itself under `blob_name`, and one
/// file per extension.
pub struct RepositoryDocuments {
    pub blob_name: String,
    pub blob: JsonValue,
    pub files: Vec<ExtensionFile>,
}

/// Whether `blob` is `doc` with its manifest's `id` set to `id`, all else kept.
pub open spec fn with_manifest_id(blob: JsonValue, doc: JsonValue, id: Seq<char>) -> bool {
    &&& field(blob, "manifest"@) matches Some(m) && string_field(m, "id"@) == Some(id) && forall|
        k: Seq<char>,
    | k != "id"@ ==> #[trigger] field(m, k) == field(manifest_of(doc), k)
    &&& forall|k: Seq<char>| k != "manifest"@ ==> #[trigger] field(blob, k) == field(doc, k)
}

/// Whether `blob_name`, `blob` and `files` are what is stored for the valid
/// document `doc` under the repository identifier `id`.
pub open spec fn stored_for(
    blob_name: Seq<char>,
    blob: JsonValue,
    files: Seq<ExtensionFile>,
    doc: JsonValue,
    id: Seq<char>,
) -> bool {
    &&& blob_name == id_file_of(id)
    &&& with_manifest_id(blob, doc, id)
    &&& valid_repository(blob)
    &&& descriptors(blob) == descriptors(doc)
    &&& decomposition_of(blob, files)
}

/// The name under which a repository is recorded: the one given, else the
/// manifest's, else `Unknown Repository`.
pub open spec fn repository_name(name: Option<String>, doc: JsonValue) -> Seq<char> {
    match name {
        Some(n) => n@,
        None => match string_field(manifest_of(doc), "name"@) {
            Some(n) => n,
            None => "Unknown Repository"@,
        },
    }
}

/// `doc` with its manifest's `id` set to `id`.
pub fn assign_manifest_id(doc: JsonValue, id: &str) -> (r: JsonValue)
    requires
        valid_repository(doc),
    ensures
        with_manifest_id(r, doc, id@),
        valid_repository(r),
        descriptors(r) == descriptors(doc),
{
    let ghost input = doc;
    let (rest, manifest) = doc.replace_field("manifest", JsonValue::Null);
    let m = manifest.unwrap();
    assert(m is Object);
    let ghost old_manifest = m;
    let id_value = JsonValue::Str(id.to_owned());
    let m2 = m.with_field("id", id_value);
    let r = rest.with_field("manifest", m2);
    proof {
        reveal_strlit("id");
        reveal_strlit("name");
        reveal_strlit("version");
        reveal_strlit("author");
        reveal_strlit("description");
        reveal_strlit("manifest");
        reveal_strlit("extensions");
        assert("name"@.len() != "id"@.len());
        assert("version"@.len() != "id"@.len());
        assert("author"@ != "id"@);
        assert("description"@ != "id"@);
        assert("extensions"@ != "manifest"@);
        assert(field(r, "manifest"@) == Some(m2));
        assert(field(r, "extensions"@) == field(input, "extensions"@));
        assert(field(m2, "name"@) == field(old_manifest, "name"@));
        assert(field(m2, "version"@) == field(old_manifest, "version"@));
        assert(field(m2, "author"@) == field(old_manifest, "author"@));
        assert(field(m2, "description"@) == field(old_manifest, "description"@));
        assert(manifest_error(m2) == manifest_error(old_manifest));
        assert(forall|k: Seq<char>| k != "manifest"@ ==> #[trigger] field(r, k) == field(rest, k));
    }
    r
}

/// Validates `doc` and prepares what is stored for it under the repository
/// identifier `id`: the document with its manifest's `id` set, named
/// `{id}.json`, and its decomposition.
pub fn prepare_repository(doc: JsonValue, id: &str) -> (r: Result<RepositoryDocuments, SchemaError>)
    ensures
        r matches Err(e) ==> repository_error(doc) == Some(e),
        r is Ok <==> valid_repository(doc),
        r matches Ok(p) ==> stored_for(p.blob_name@, p.blob, p.files@, doc, id@),
{
    match validate_repository(&doc) {
        Err(e) => Err(e),
        Ok(()) => {
            let blob = assign_manifest_id(doc, id);
            let files = decompose(&blob);
            Ok(RepositoryDocuments { blob_name: id_file_name(id), blob, files })
        },
    }
}

/// Validates `doc` and prepares what is stored for it as the new repository
/// `id`, read from `location` of the given kind, named `name` where given,
/// and added at `added_at`.
pub fn ingest_repository(
    doc: JsonValue,
    id: String,
    kind: SourceKind,
    location: String,
    name: Option<String>,
    added_at: String,
) -> (r: Result<Ingest, SchemaError>)
    ensures
        r matches Err(e) ==> repository_error(doc) == Some(e),
        r is Ok <==> valid_repository(doc),
        r matches Ok(g) ==> {
            &&& stored_for(g.blob_name@, g.blob, g.files@, doc, id@)
            &&& g.record.id == id
            &&& g.record.name@ == repository_name(name, doc)
            &&& g.record.kind == kind
            &&& g.record.url_or_path == location
            &&& g.record.added_at == added_at
        },
{
    let record_name = match &name {
        Some(n) => n.clone(),
        None => match doc.get("manifest") {
            Some(m) => match m.get_str("name") {
                Some(n) => n.clone(),
                None => "Unknown Repository".to_owned(),
            },
            None => "Unknown Repository".to_owned(),
        },
    };
    let prepared = prepare_repository(doc, id.as_str())?;
    Ok(
        Ingest {
            record: RepositoryRecord { id, name: record_name, kind, url_or_path: location, added_at },
            blob_name: prepared.blob_name,
            blob: prepared.blob,
            files: prepared.files,
        },
    )
}

/// Why a repository could not be created.
#[derive(Debug, Clone, Copy, PartialEq, Eq)]
pub enum IngestError {
    /// The document breaks a rule of the repository schema.
    Invalid(SchemaError),
    /// The system clock could not be read.
    ClockUnavailable,
}

/// A new repository identifier that none of `known` has: `repo_` and the
/// current Unix time in seconds, with `_` added where that is taken. `None`
/// where the clock cannot be read.
pub fn new_repository_id(known: &Vec<RepositoryRecord>) -> (r: Option<String>)
    ensures
        r matches Some(id) ==> {
            &&& exists|t: i64| has_prefix(id@, #[trigger] repository_id_of(t as int))
            &&& position_of(known@, id@) == -1
        },
{
    match unix_seconds_now() {
        Some(seconds) => {
            let base = repository_id(seconds);
            let id = fresh_repository_id(base.as_str(), known);
            assert(has_prefix(id@, repository_id_of(seconds as int)));
            Some(id)
        },
        None => None,
    }
}

/// Validates `doc` and prepares what is stored for it as a new repository,
/// with an identifier made from the current time that none of `known` has,
/// read from `location`.
pub fn create_repository(
    doc: JsonValue,
    kind: SourceKind,
    location: String,
    name: Option<String>,
    known: &Vec<RepositoryRecord>,
) -> (r: Result<Ingest, IngestError>)
    ensures
        repository_error(doc) matches Some(e) ==> r == Err::<Ingest, IngestError>(IngestError::Invalid(e)),
        valid_repository(doc) ==> r is Ok || r == Err::<Ingest, IngestError>(IngestError::ClockUnavailable),
        r matches Ok(g) ==> {
            &&& exists|t: i64| has_prefix(g.record.id@, #[trigger] repository_id_of(t as int))
            &&& position_of(known@, g.record.id@) == -1
            &&& stored_for(g.blob_name@, g.blob, g.files@, doc, g.record.id@)
            &&& g.record.name@ == repository_name(name, doc)
            &&& g.record.kind == kind
            &&& g.record.url_or_path == location
        },
{
    if let Err(e) = validate_repository(&doc) {
        return Err(IngestError::Invalid(e));
    }
    let id = match new_repository_id(known) {
        Some(id) => id,
        None => {
            return Err(IngestError::ClockUnavailable);
        },
    };
    let added_at = match now_text() {
        Some(t) => t,
        None => {
            return Err(IngestError::ClockUnavailable);
        },
    };
    match ingest_repository(doc, id, kind, location, name, added_at) {
        Ok(g) => Ok(g),
        Err(e) => Err(IngestError::Invalid(e)),
    }
}
} // verus!
