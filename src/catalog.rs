//! The catalog of known repositories and installed extensions.

use vstd::prelude::*;
use crate::json::{JsonValue, field, string_field, array_field, bool_field};
use crate::text::{has_prefix, has_suffix, starts_with, ends_with};

verus! {

/// Where a repository document came from.
#[derive(Debug, Clone, Copy, PartialEq, Eq, Structural)]
pub enum SourceKind {
    File,
    Url,
}

/// A repository known to the catalog.
#[derive(Debug, Clone, PartialEq, Eq)]
pub struct RepositoryRecord {
    pub id: String,
    pub name: String,
    pub kind: SourceKind,
    pub url_or_path: String,
    pub added_at: String,
}

/// An installed extension, as listed from its own file.
#[derive(Debug, Clone, PartialEq, Eq)]
pub struct ExtensionRecord {
    pub id: String,
    pub repo_id: String,
    pub name: String,
    pub version: String,
    pub description: String,
    pub nsfw: bool,
    pub language: String,
    pub path: String,
    pub enabled: bool,
}

/// The persisted index: repositories, the extensions listed from disk, and
/// the time of the last change, in seconds past the Unix epoch.
#[derive(Debug, Clone, PartialEq, Eq)]
pub struct Catalog {
    pub repositories: Vec<RepositoryRecord>,
    pub extensions: Vec<ExtensionRecord>,
    pub updated_at: i64,
}

/// A file found in the extensions directory, with its parsed content, or
/// `None` where it could not be read or parsed.
#[derive(Debug, Clone)]
pub struct DirEntry {
    pub file_name: String,
    pub path: String,
    pub document: Option<JsonValue>,
}

/// A change to the catalog's repositories.
#[derive(Debug, Clone)]
pub enum RepositoryChange {
    /// Adds a repository, or replaces the one with the same identifier.
    Add(RepositoryRecord),
    /// Removes the repository with this identifier, where there is one.
    Remove(String),
}

/// Whether no two repositories share an identifier.
pub open spec fn unique_ids(repos: Seq<RepositoryRecord>) -> bool {
    forall|i: int, j: int|
        0 <= i < repos.len() && 0 <= j < repos.len() && i != j ==> (#[trigger] repos[i]).id@
            != (#[trigger] repos[j]).id@
}

/// The position of the repository with identifier `id`, or -1.
pub open spec fn position_of(repos: Seq<RepositoryRecord>, id: Seq<char>) -> int
    decreases repos.len(),
{
    if repos.len() == 0 {
        -1
    } else if repos.last().id@ == id {
        repos.len() - 1
    } else {
        position_of(repos.drop_last(), id)
    }
}

/// `repos` with `rec` in place of the repository of the same identifier, or
/// with `rec` added at the end.
pub open spec fn with_repository(repos: Seq<RepositoryRecord>, rec: RepositoryRecord) -> Seq<
    RepositoryRecord,
> {
    let p = position_of(repos, rec.id@);
    if p >= 0 {
        repos.update(p, rec)
    } else {
        repos.push(rec)
    }
}

/// `repos` without the repository with identifier `id`.
pub open spec fn without_repository(repos: Seq<RepositoryRecord>, id: Seq<char>) -> Seq<
    RepositoryRecord,
> {
    let p = position_of(repos, id);
    if p >= 0 {
        repos.remove(p)
    } else {
        repos
    }
}

/// The repositories after `change`.
pub open spec fn changed(repos: Seq<RepositoryRecord>, change: RepositoryChange) -> Seq<
    RepositoryRecord,
> {
    match change {
        RepositoryChange::Add(rec) => with_repository(repos, rec),
        RepositoryChange::Remove(id) => without_repository(repos, id@),
    }
}

/// What `position_of` finds: an index holding the identifier, or -1 where
/// none does.
pub proof fn lemma_position_of(repos: Seq<RepositoryRecord>, id: Seq<char>)
    ensures
        -1 <= position_of(repos, id) < repos.len(),
        position_of(repos, id) >= 0 ==> repos[position_of(repos, id)].id@ == id,
        position_of(repos, id) == -1 ==> forall|i: int| 0 <= i < repos.len() ==> (#[trigger] repos[i]).id@ != id,
    decreases repos.len(),
{
    if repos.len() > 0 {
        lemma_position_of(repos.drop_last(), id);
        if repos.last().id@ != id {
            assert forall|i: int| 0 <= i < repos.len() - 1 implies repos.drop_last()[i] == repos[i] by {}
        }
    }
}

proof fn lemma_absent_position(repos: Seq<RepositoryRecord>, id: Seq<char>)
    requires
        forall|i: int| 0 <= i < repos.len() ==> (#[trigger] repos[i]).id@ != id,
    ensures
        position_of(repos, id) == -1,
    decreases repos.len(),
{
    if repos.len() > 0 {
        assert(repos.last() == repos[repos.len() - 1]);
        assert forall|i: int| 0 <= i < repos.len() - 1 implies (#[trigger] repos.drop_last()[i]).id@ != id by {
            assert(repos.drop_last()[i] == repos[i]);
        }
        lemma_absent_position(repos.drop_last(), id);
    }
}

/// Removing a repository leaves none with that identifier, so removing it a
/// second time changes nothing: deletion is idempotent.
pub proof fn lemma_delete_twice(repos: Seq<RepositoryRecord>, id: Seq<char>)
    requires
        unique_ids(repos),
    ensures
        position_of(without_repository(repos, id), id) == -1,
        without_repository(without_repository(repos, id), id) == without_repository(repos, id),
{
    lemma_position_of(repos, id);
    let once = without_repository(repos, id);
    let p = position_of(repos, id);
    if p >= 0 {
        assert forall|i: int| 0 <= i < once.len() implies (#[trigger] once[i]).id@ != id by {
            if i < p {
                assert(once[i] == repos[i]);
            } else {
                assert(once[i] == repos[i + 1]);
            }
        }
    }
    lemma_absent_position(once, id);
}

proof fn lemma_with_repository(repos: Seq<RepositoryRecord>, rec: RepositoryRecord)
    requires
        unique_ids(repos),
    ensures
        unique_ids(with_repository(repos, rec)),
        with_repository(repos, rec).contains(rec),
        forall|i: int|
            0 <= i < repos.len() && (#[trigger] repos[i]).id@ != rec.id@ ==> with_repository(
                repos,
                rec,
            ).contains(repos[i]),
{
    lemma_position_of(repos, rec.id@);
    let r = with_repository(repos, rec);
    let p = position_of(repos, rec.id@);
    if p >= 0 {
        assert(r[p] == rec);
        assert forall|i: int| 0 <= i < repos.len() && (#[trigger] repos[i]).id@ != rec.id@ implies r.contains(repos[i]) by {
            assert(r[i] == repos[i]);
        }
    } else {
        assert(r[repos.len() as int] == rec);
        assert forall|i: int| 0 <= i < repos.len() && (#[trigger] repos[i]).id@ != rec.id@ implies r.contains(repos[i]) by {
            assert(r[i] == repos[i]);
        }
    }
}

/// Adding two repositories with different identifiers, one after the other,
/// leaves a catalog that holds both, with identifiers still unique.
pub proof fn lemma_add_two(repos: Seq<RepositoryRecord>, x: RepositoryRecord, y: RepositoryRecord)
    requires
        unique_ids(repos),
        x.id@ != y.id@,
    ensures
        unique_ids(changed(changed(repos, RepositoryChange::Add(x)), RepositoryChange::Add(y))),
        changed(changed(repos, RepositoryChange::Add(x)), RepositoryChange::Add(y)).contains(x),
        changed(changed(repos, RepositoryChange::Add(x)), RepositoryChange::Add(y)).contains(y),
{
    lemma_with_repository(repos, x);
    let once = with_repository(repos, x);
    lemma_with_repository(once, y);
    let k = choose|k: int| 0 <= k < once.len() && once[k] == x;
    assert(once[k].id@ != y.id@);
}

proof fn lemma_all_listed(entries: Seq<DirEntry>, repos: Seq<RepositoryRecord>)
    requires
        forall|i: int| 0 <= i < entries.len() ==> lists_extension(#[trigger] entries[i], repos),
    ensures
        listed_entries(entries, repos).len() == entries.len(),
    decreases entries.len(),
{
    if entries.len() > 0 {
        assert(lists_extension(entries[entries.len() - 1], repos));
        assert forall|i: int| 0 <= i < entries.len() - 1 implies lists_extension(
            #[trigger] entries.drop_last()[i],
            repos,
        ) by {
            assert(entries.drop_last()[i] == entries[i]);
        }
        lemma_all_listed(entries.drop_last(), repos);
    }
}

/// Among files that are all listed as extensions, one that could not be
/// read or parsed is skipped and the others are all listed.
pub proof fn lemma_corrupt_entry_skipped(
    entries: Seq<DirEntry>,
    repos: Seq<RepositoryRecord>,
    k: int,
)
    requires
        0 <= k < entries.len(),
        entries[k].document is None,
        forall|i: int| 0 <= i < entries.len() && i != k ==> lists_extension(#[trigger] entries[i], repos),
    ensures
        listed_entries(entries, repos).len() == entries.len() - 1,
    decreases entries.len(),
{
    let last = entries.len() - 1;
    assert(entries.last() == entries[last]);
    if k == last {
        assert forall|i: int| 0 <= i < entries.len() - 1 implies lists_extension(
            #[trigger] entries.drop_last()[i],
            repos,
        ) by {
            assert(entries.drop_last()[i] == entries[i]);
        }
        lemma_all_listed(entries.drop_last(), repos);
    } else {
        assert(lists_extension(entries[last], repos));
        assert(entries.drop_last()[k] == entries[k]);
        assert forall|i: int| 0 <= i < entries.len() - 1 && i != k implies lists_extension(
            #[trigger] entries.drop_last()[i],
            repos,
        ) by {
            assert(entries.drop_last()[i] == entries[i]);
        }
        lemma_corrupt_entry_skipped(entries.drop_last(), repos, k);
    }
}

/// The text of `t`, or the empty text.
pub open spec fn text_or_empty(t: Option<Seq<char>>) -> Seq<char> {
    match t {
        Some(s) => s,
        None => Seq::empty(),
    }
}

/// Whether `path` is where one of `repos` was read from.
pub open spec fn is_listed_source(path: Seq<char>, repos: Seq<RepositoryRecord>) -> bool {
    exists|i: int| 0 <= i < repos.len() && (#[trigger] repos[i]).url_or_path@ == path
}

/// The sole descriptor of a single-extension document, where it has an
/// `id`, a `name` and a `version`.
pub open spec fn sole_descriptor(doc: JsonValue) -> Option<JsonValue> {
    match array_field(doc, "extensions"@) {
        Some(items) => {
            if items.len() == 1 && string_field(items[0], "id"@) is Some && string_field(
                items[0],
                "name"@,
            ) is Some && string_field(items[0], "version"@) is Some {
                Some(items[0])
            } else {
                None
            }
        },
        None => None,
    }
}

/// Whether `entry` is listed as an extension: a `.json` file that is no
/// repository document (by its `repo_` prefix or its path) and holds one
/// readable descriptor.
pub open spec fn lists_extension(entry: DirEntry, repos: Seq<RepositoryRecord>) -> bool {
    &&& has_suffix(entry.file_name@, ".json"@)
    &&& !has_prefix(entry.file_name@, "repo_"@)
    &&& !is_listed_source(entry.path@, repos)
    &&& entry.document matches Some(doc) && sole_descriptor(doc) is Some
}

/// The entries listed as extensions, in order.
pub open spec fn listed_entries(entries: Seq<DirEntry>, repos: Seq<RepositoryRecord>) -> Seq<
    DirEntry,
>
    decreases entries.len(),
{
    if entries.len() == 0 {
        Seq::empty()
    } else {
        let rest = listed_entries(entries.drop_last(), repos);
        if lists_extension(entries.last(), repos) {
            rest.push(entries.last())
        } else {
            rest
        }
    }
}

/// Whether `rec` is the record of the listed entry `entry`: the fields of its
/// descriptor, its repository from the manifest's `id`, its path, and enabled.
pub open spec fn record_of(rec: ExtensionRecord, entry: DirEntry) -> bool {
    let doc = entry.document->Some_0;
    let ext = sole_descriptor(doc)->Some_0;
    &&& rec.id@ == string_field(ext, "id"@)->Some_0
    &&& rec.name@ == string_field(ext, "name"@)->Some_0
    &&& rec.version@ == string_field(ext, "version"@)->Some_0
    &&& rec.description@ == text_or_empty(string_field(ext, "description"@))
    &&& rec.language@ == text_or_empty(string_field(ext, "language"@))
    &&& rec.nsfw == (bool_field(ext, "nsfw"@) == Some(true))
    &&& rec.repo_id@ == text_or_empty(
        match field(doc, "manifest"@) {
            Some(m) => string_field(m, "id"@),
            None => None,
        },
    )
    &&& rec.path@ == entry.path@
    &&& rec.enabled
}

/// Whether `records` list exactly the entries of `entries` that are extensions.
pub open spec fn projection_of(
    records: Seq<ExtensionRecord>,
    entries: Seq<DirEntry>,
    repos: Seq<RepositoryRecord>,
) -> bool {
    &&& records.len() == listed_entries(entries, repos).len()
    &&& forall|k: int|
        0 <= k < records.len() ==> record_of(#[trigger] records[k], listed_entries(entries, repos)[k])
}

fn clone_text(t: Option<&String>) -> (r: String)
    ensures
        r@ == text_or_empty(
            match t {
                Some(s) => Some(s@),
                None => None,
            },
        ),
{
    match t {
        Some(s) => s.clone(),
        None => String::new(),
    }
}

/// Whether `path` is where one of `repos` was read from.
pub fn is_repository_source(path: &String, repos: &Vec<RepositoryRecord>) -> (r: bool)
    ensures
        r == is_listed_source(path@, repos@),
{
    let mut i: usize = 0;
    while i < repos.len()
        invariant
            i <= repos@.len(),
            forall|j: int| 0 <= j < i ==> (#[trigger] repos@[j]).url_or_path@ != path@,
        decreases repos@.len() - i,
    {
        if repos[i].url_or_path == *path {
            return true;
        }
        i = i + 1;
    }
    false
}

/// The record of `entry`, where it is listed as an extension.
pub fn extension_record(entry: &DirEntry, repos: &Vec<RepositoryRecord>) -> (r: Option<ExtensionRecord>)
    ensures
        r is Some <==> lists_extension(*entry, repos@),
        r matches Some(rec) ==> record_of(rec, *entry),
{
    if !ends_with(entry.file_name.as_str(), ".json") || starts_with(entry.file_name.as_str(), "repo_") {
        return None;
    }
    if is_repository_source(&entry.path, repos) {
        return None;
    }
    let doc = match &entry.document {
        Some(doc) => doc,
        None => {
            return None;
        },
    };
    let items = match doc.get_array("extensions") {
        Some(items) => items,
        None => {
            return None;
        },
    };
    if items.len() != 1 {
        return None;
    }
    let ext = &items[0];
    let id = match ext.get_str("id") {
        Some(t) => t.clone(),
        None => {
            return None;
        },
    };
    let name = match ext.get_str("name") {
        Some(t) => t.clone(),
        None => {
            return None;
        },
    };
    let version = match ext.get_str("version") {
        Some(t) => t.clone(),
        None => {
            return None;
        },
    };
    let repo_id = match doc.get("manifest") {
        Some(m) => clone_text(m.get_str("id")),
        None => String::new(),
    };
    let nsfw = match ext.get_bool("nsfw") {
        Some(b) => b,
        None => false,
    };
    Some(
        ExtensionRecord {
            id,
            repo_id,
            name,
            version,
            description: clone_text(ext.get_str("description")),
            nsfw,
            language: clone_text(ext.get_str("language")),
            path: entry.path.clone(),
            enabled: true,
        },
    )
}

/// The extension list rebuilt from the files of the extensions directory:
/// one record, enabled, per `.json` file that is no repository document and
/// holds a readable single-extension document. Other files are skipped, so
/// a corrupt file does not keep the rest from being listed.
pub fn rebuild_extension_projection(entries: &Vec<DirEntry>, repos: &Vec<RepositoryRecord>) -> (r:
    Vec<ExtensionRecord>)
    ensures
        projection_of(r@, entries@, repos@),
{
    let mut out: Vec<ExtensionRecord> = Vec::new();
    let mut i: usize = 0;
    while i < entries.len()
        invariant
            i <= entries@.len(),
            projection_of(out@, entries@.subrange(0, i as int), repos@),
        decreases entries@.len() - i,
    {
        let ghost before = out@;
        proof {
            assert(entries@.subrange(0, i + 1).drop_last() =~= entries@.subrange(0, i as int));
            assert(entries@.subrange(0, i + 1).last() == entries@[i as int]);
        }
        match extension_record(&entries[i], repos) {
            Some(rec) => {
                out.push(rec);
                proof {
                    let listed = listed_entries(entries@.subrange(0, i + 1), repos@);
                    assert forall|k: int| 0 <= k < out@.len() implies record_of(
                        #[trigger] out@[k],
                        listed[k],
                    ) by {
                        if k < before.len() {
                            assert(out@[k] == before[k]);
                        }
                    }
                }
            },
            None => {},
        }
        i = i + 1;
    }
    assert(entries@.subrange(0, entries@.len() as int) =~= entries@);
    out
}

/// `base` where no repository has that identifier, else `base` followed by
/// as few `_` as make an identifier that no repository has.
pub fn fresh_repository_id(base: &str, repos: &Vec<RepositoryRecord>) -> (r: String)
    ensures
        position_of(repos@, r@) == -1,
        has_prefix(r@, base@),
        position_of(repos@, base@) == -1 ==> r@ == base@,
{
    let mut longest: usize = 0;
    let mut i: usize = 0;
    while i < repos.len()
        invariant
            i <= repos@.len(),
            forall|j: int| 0 <= j < i ==> (#[trigger] repos@[j]).id@.len() <= longest,
        decreases repos@.len() - i,
    {
        let n = repos[i].id.as_str().unicode_len();
        if n > longest {
            longest = n;
        }
        i = i + 1;
    }
    let mut candidate = base.to_owned();
    assert(candidate@.subrange(0, base@.len() as int) =~= base@);
    loop
        invariant
            forall|j: int| 0 <= j < repos@.len() ==> (#[trigger] repos@[j]).id@.len() <= longest,
            has_prefix(candidate@, base@),
            candidate@.len() >= base@.len(),
            candidate@.len() == base@.len() ==> candidate@ == base@,
            candidate@.len() > base@.len() ==> position_of(repos@, base@) != -1,
        decreases longest + 1 - candidate@.len(),
    {
        proof {
            lemma_position_of(repos@, candidate@);
        }
        match find_repository(repos, &candidate) {
            None => {
                return candidate;
            },
            Some(p) => {
                assert(repos@[p as int].id@ == candidate@);
            },
        }
        let ghost before = candidate@;
        crate::text::push_char(&mut candidate, '_');
        proof {
            assert(candidate@.subrange(0, base@.len() as int) =~= before.subrange(0, base@.len() as int));
        }
    }
}

/// The later of two stamps.
pub open spec fn later(a: i64, b: i64) -> i64 {
    if b > a {
        b
    } else {
        a
    }
}

/// The catalog as persisted, or an empty one stamped `now` where none was stored.
pub fn read_or_init(stored: Option<Catalog>, now: i64) -> (r: Catalog)
    ensures
        stored matches Some(c) ==> r == c,
        stored is None ==> r.repositories@.len() == 0 && r.extensions@.len() == 0 && r.updated_at
            == now,
{
    match stored {
        Some(c) => c,
        None => Catalog { repositories: Vec::new(), extensions: Vec::new(), updated_at: now },
    }
}

/// The position of the repository with identifier `id`, or `None`.
pub fn find_repository(repos: &Vec<RepositoryRecord>, id: &String) -> (r: Option<usize>)
    ensures
        r matches Some(p) ==> position_of(repos@, id@) == p,
        r is None ==> position_of(repos@, id@) == -1,
{
    let mut i: usize = repos.len();
    assert(repos@.subrange(0, i as int) =~= repos@);
    while i > 0
        invariant
            i <= repos@.len(),
            position_of(repos@, id@) == position_of(repos@.subrange(0, i as int), id@),
        decreases i,
    {
        proof {
            assert(repos@.subrange(0, i as int).drop_last() =~= repos@.subrange(0, i - 1));
        }
        if repos[i - 1].id == *id {
            return Some(i - 1);
        }
        i = i - 1;
    }
    None
}

impl Catalog {
    /// Whether no two of the catalog's repositories share an identifier.
    pub open spec fn wf(&self) -> bool {
        unique_ids(self.repositories@)
    }

    /// Whether no two of the catalog's repositories share an identifier.
    pub fn has_unique_ids(&self) -> (r: bool)
        ensures
            r == self.wf(),
    {
        let repos = &self.repositories;
        let mut i: usize = 0;
        while i < repos.len()
            invariant
                repos@ == self.repositories@,
                i <= repos@.len(),
                forall|a: int, b: int|
                    0 <= a < i && 0 <= b < repos@.len() && a != b ==> (#[trigger] repos@[a]).id@
                        != (#[trigger] repos@[b]).id@,
            decreases repos@.len() - i,
        {
            let mut j: usize = 0;
            while j < repos.len()
                invariant
                    repos@ == self.repositories@,
                    i < repos@.len(),
                    j <= repos@.len(),
                    forall|b: int| 0 <= b < j && b != i ==> repos@[i as int].id@ != (#[trigger] repos@[b]).id@,
                decreases repos@.len() - j,
            {
                if j != i && repos[i].id == repos[j].id {
                    assert(repos@[i as int].id@ == repos@[j as int].id@);
                    return false;
                }
                j = j + 1;
            }
            i = i + 1;
        }
        true
    }

    /// Applies `change` to the repositories and stamps the catalog with `now`,
    /// or keeps its stamp where that is later, so that the stamp never goes back.
    pub fn merge_repositories(&mut self, change: RepositoryChange, now: i64)
        requires
            old(self).wf(),
        ensures
            final(self).wf(),
            final(self).repositories@ == changed(old(self).repositories@, change),
            final(self).extensions == old(self).extensions,
            final(self).updated_at == later(old(self).updated_at, now),
            final(self).updated_at >= old(self).updated_at,
    {
        proof {
            assert(self.repositories@.subrange(0, self.repositories@.len() as int) =~= self.repositories@);
        }
        match change {
            RepositoryChange::Add(rec) => {
                let ghost target = rec;
                proof {
                    lemma_position_of(self.repositories@, rec.id@);
                }
                match find_repository(&self.repositories, &rec.id) {
                    Some(p) => {
                        let n = self.repositories.len();
                        assert(p < n);
                        let next = p + 1;
                        self.repositories.insert(p, rec);
                        self.repositories.remove(next);
                        proof {
                            assert(self.repositories@ =~= old(self).repositories@.update(p as int, target));
                        }
                    },
                    None => {
                        self.repositories.push(rec);
                    },
                }
            },
            RepositoryChange::Remove(id) => {
                proof {
                    lemma_position_of(self.repositories@, id@);
                }
                match find_repository(&self.repositories, &id) {
                    Some(p) => {
                        self.repositories.remove(p);
                    },
                    None => {},
                }
            },
        }
        if now > self.updated_at {
            self.updated_at = now;
        }
    }

    /// Removes the repository `id`, where there is one, and stamps the catalog
    /// as `merge_repositories` does; returns whether there was one. Removing
    /// an absent repository is no error.
    pub fn delete_repository(&mut self, id: &str, now: i64) -> (r: bool)
        requires
            old(self).wf(),
        ensures
            final(self).wf(),
            r == (position_of(old(self).repositories@, id@) >= 0),
            final(self).repositories@ == without_repository(old(self).repositories@, id@),
            final(self).extensions == old(self).extensions,
            final(self).updated_at == later(old(self).updated_at, now),
    {
        let key = id.to_owned();
        let present = find_repository(&self.repositories, &key).is_some();
        self.merge_repositories(RepositoryChange::Remove(key), now);
        present
    }

    /// Sets the extension list to the one rebuilt from `entries`.
    pub fn refresh_extensions(&mut self, entries: &Vec<DirEntry>)
        ensures
            final(self).repositories == old(self).repositories,
            final(self).updated_at == old(self).updated_at,
            projection_of(final(self).extensions@, entries@, old(self).repositories@),
    {
        self.extensions = rebuild_extension_projection(entries, &self.repositories);
    }
}

} // verus!
