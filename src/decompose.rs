//! Splitting a repository document into one document per extension.

use vstd::prelude::*;
use crate::json::{JsonValue, Json, model, item_models, member_models, field, string_field, array_field};
use crate::naming::{extension_file_of, extension_file_name};
use crate::text::{decimal, push_text, push_decimal};
use crate::schema::{valid_repository, lemma_valid_descriptors, descriptor_at};

verus! {

/// One extension's document, with the name of the file that holds it.
pub struct ExtensionFile {
    pub file_name: String,
    pub document: JsonValue,
}

/// Whether `doc` has what decomposition reads: a manifest and an array of extensions.
pub open spec fn decomposable(doc: JsonValue) -> bool {
    field(doc, "manifest"@) is Some && array_field(doc, "extensions"@) is Some
}

/// The identifier of the descriptor `ext` at `index`: its `id`, or `ext_{index}` without one.
pub open spec fn descriptor_id(ext: JsonValue, index: int) -> Seq<char> {
    match string_field(ext, "id"@) {
        Some(id) => id,
        None => "ext_"@ + decimal(index as nat),
    }
}

/// The name of the descriptor `ext`; empty without one.
pub open spec fn descriptor_name(ext: JsonValue) -> Seq<char> {
    match string_field(ext, "name"@) {
        Some(n) => n,
        None => Seq::empty(),
    }
}

/// The file name under which the descriptor `ext` at `index` is stored.
pub open spec fn descriptor_file(ext: JsonValue, index: int) -> Seq<char> {
    extension_file_of(descriptor_name(ext), descriptor_id(ext, index))
}

/// A document holding `manifest` and an `extensions` array with `ext` alone.
pub open spec fn single_document(manifest: Json, ext: Json) -> Json {
    Json::Object(seq![("manifest"@, manifest), ("extensions"@, Json::Array(seq![ext]))])
}

/// The descriptors of a decomposable document.
pub open spec fn descriptors(doc: JsonValue) -> Seq<JsonValue> {
    array_field(doc, "extensions"@)->0
}

/// The manifest of a decomposable document.
pub open spec fn manifest_of(doc: JsonValue) -> JsonValue {
    field(doc, "manifest"@)->0
}

/// Whether `files` is the decomposition of `doc`: one file per descriptor,
/// in order, each holding the manifest and that descriptor alone.
pub open spec fn decomposition_of(doc: JsonValue, files: Seq<ExtensionFile>) -> bool {
    &&& files.len() == descriptors(doc).len()
    &&& forall|i: int|
        0 <= i < files.len() ==> {
            &&& (#[trigger] files[i]).file_name@ == descriptor_file(descriptors(doc)[i], i)
            &&& model(files[i].document) == single_document(
                model(manifest_of(doc)),
                model(descriptors(doc)[i]),
            )
        }
}

/// A valid repository document can be decomposed: it has a manifest and at
/// least one descriptor, and every descriptor has its own identifier and
/// name, which its file is named after.
pub proof fn lemma_valid_repository_decomposes(doc: JsonValue)
    requires
        valid_repository(doc),
    ensures
        decomposable(doc),
        descriptors(doc).len() > 0,
        forall|i: int|
            0 <= i < descriptors(doc).len() ==> {
                &&& string_field(#[trigger] descriptors(doc)[i], "id"@) is Some
                &&& descriptor_id(descriptors(doc)[i], i) == string_field(descriptors(doc)[i], "id"@)->Some_0
                &&& descriptor_name(descriptors(doc)[i]) == string_field(descriptors(doc)[i], "name"@)->Some_0
            },
{
    lemma_valid_descriptors(doc);
    assert forall|i: int| 0 <= i < descriptors(doc).len() implies string_field(#[trigger] descriptors(doc)[i], "id"@) is Some
        && string_field(descriptors(doc)[i], "name"@) is Some by {
        assert(descriptors(doc)[i] == descriptor_at(doc, i));
    }
}

/// The identifier of the descriptor `ext` at `index`.
pub fn extension_id(ext: &JsonValue, index: usize) -> (r: String)
    ensures
        r@ == descriptor_id(*ext, index as int),
{
    match ext.get_str("id") {
        Some(id) => id.clone(),
        None => {
            let mut out = String::new();
            push_text(&mut out, "ext_");
            push_decimal(&mut out, index as u64);
            out
        },
    }
}

/// A document holding `manifest` and the single descriptor `ext`.
pub fn single_extension_document(manifest: &JsonValue, ext: &JsonValue) -> (r: JsonValue)
    ensures
        model(r) == single_document(model(*manifest), model(*ext)),
{
    let mut items: Vec<JsonValue> = Vec::new();
    items.push(ext.duplicate());
    let mut members: Vec<(String, JsonValue)> = Vec::new();
    members.push(("manifest".to_owned(), manifest.duplicate()));
    members.push(("extensions".to_owned(), JsonValue::Array(items)));
    let r = JsonValue::Object(members);
    proof {
        assert(item_models(items, 1) =~= Seq::<Json>::empty());
        assert(item_models(items, 0) =~= seq![model(*ext)]);
        assert(member_models(members, 2) =~= Seq::<(Seq<char>, Json)>::empty());
        assert(model(JsonValue::Array(items)) == Json::Array(item_models(items, 0)));
        assert(members@[1].1 == JsonValue::Array(items));
        assert(member_models(members, 1) =~= seq![("extensions"@, Json::Array(seq![model(*ext)]))]);
        assert(member_models(members, 0) =~= seq![
            ("manifest"@, model(*manifest)),
            ("extensions"@, Json::Array(seq![model(*ext)])),
        ]);
    }
    r
}

/// Splits `doc` into one document per extension descriptor. Each holds the
/// manifest and that descriptor alone, and is named `{slug}-{id}.json` after
/// the descriptor's name and identifier.
pub fn decompose(doc: &JsonValue) -> (r: Vec<ExtensionFile>)
    requires
        decomposable(*doc),
    ensures
        decomposition_of(*doc, r@),
{
    let manifest = doc.get("manifest").unwrap();
    let items = doc.get_array("extensions").unwrap();
    let mut out: Vec<ExtensionFile> = Vec::new();
    let mut i: usize = 0;
    while i < items.len()
        invariant
            i <= items@.len(),
            *manifest == manifest_of(*doc),
            items@ == descriptors(*doc),
            out@.len() == i,
            forall|j: int|
                0 <= j < i ==> {
                    &&& (#[trigger] out@[j]).file_name@ == descriptor_file(items@[j], j)
                    &&& model(out@[j].document) == single_document(model(*manifest), model(items@[j]))
                },
        decreases items@.len() - i,
    {
        let ext = &items[i];
        let id = extension_id(ext, i);
        let file_name = match ext.get_str("name") {
            Some(n) => extension_file_name(n.as_str(), id.as_str()),
            None => extension_file_name("", id.as_str()),
        };
        proof {
            reveal_strlit("");
            assert(""@ =~= Seq::<char>::empty());
            assert(file_name@ == descriptor_file(items@[i as int], i as int));
        }
        let document = single_extension_document(manifest, ext);
        out.push(ExtensionFile { file_name, document });
        i = i + 1;
    }
    out
}

} // verus!
