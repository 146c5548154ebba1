//! Storage keys and file names for repositories and extensions.

use vstd::prelude::*;
use crate::text::{lower_of, to_lower, push_char, push_text, push_decimal, decimal};

verus! {

/// Whether `c` may not stand in a file name and becomes `_`.
pub open spec fn is_reserved(c: char) -> bool {
    c == '/' || c == '\\' || c == ':' || c == '*' || c == '?' || c == '"' || c == '<' || c == '>'
        || c == '|'
}

/// What `char::is_alphanumeric` says of a character.
pub uninterp spec fn alphanumeric(c: char) -> bool;

/// Relies on `char::is_alphanumeric`: whether `c` is a letter or a digit in
/// Unicode's sense, which depends on the character alone.
#[verifier::external_body]
fn is_alphanumeric(c: char) -> (r: bool)
    ensures
        r == alphanumeric(c),
{
    c.is_alphanumeric()
}

/// What character `c` of a lower-cased name becomes in its slug.
pub open spec fn slug_char(c: char) -> char {
    if is_reserved(c) {
        '_'
    } else if c == ' ' {
        '-'
    } else if alphanumeric(c) {
        c
    } else {
        '_'
    }
}

/// Whether `c` is trimmed from the ends of a slug.
pub open spec fn is_separator(c: char) -> bool {
    c == '-' || c == '_'
}

/// `s` without its leading separators.
pub open spec fn trim_front(s: Seq<char>) -> Seq<char>
    decreases s.len(),
{
    if s.len() > 0 && is_separator(s[0]) {
        trim_front(s.drop_first())
    } else {
        s
    }
}

/// `s` without its trailing separators.
pub open spec fn trim_back(s: Seq<char>) -> Seq<char>
    decreases s.len(),
{
    if s.len() > 0 && is_separator(s.last()) {
        trim_back(s.drop_last())
    } else {
        s
    }
}

/// The file-name-safe form of an extension name.
pub open spec fn slug_of(name: Seq<char>) -> Seq<char> {
    let t = trim_back(trim_front(lower_of(name).map_values(|c: char| slug_char(c))));
    if t.len() == 0 {
        "unknown"@
    } else {
        t
    }
}

fn map_char(c: char) -> (r: char)
    ensures
        r == slug_char(c),
{
    if c == '/' || c == '\\' || c == ':' || c == '*' || c == '?' || c == '"' || c == '<' || c
        == '>' || c == '|' {
        '_'
    } else if c == ' ' {
        '-'
    } else if is_alphanumeric(c) {
        c
    } else {
        '_'
    }
}

fn separator(c: char) -> (r: bool)
    ensures
        r == is_separator(c),
{
    c == '-' || c == '_'
}

proof fn lemma_trim_front_skip(s: Seq<char>, a: int)
    requires
        0 <= a < s.len(),
        is_separator(s[a]),
    ensures
        trim_front(s.subrange(a, s.len() as int)) == trim_front(s.subrange(a + 1, s.len() as int)),
{
    assert(s.subrange(a, s.len() as int).drop_first() =~= s.subrange(a + 1, s.len() as int));
}

proof fn lemma_trim_back_skip(s: Seq<char>, a: int, b: int)
    requires
        0 <= a < b <= s.len(),
        is_separator(s[b - 1]),
    ensures
        trim_back(s.subrange(a, b)) == trim_back(s.subrange(a, b - 1)),
{
    assert(s.subrange(a, b).drop_last() =~= s.subrange(a, b - 1));
}

/// The slug of `name`: lower-cased; `/ \ : * ? " < > |` become `_`, spaces
/// become `-`, other characters that are no letter or digit become `_`;
/// leading and trailing `-` and `_` are dropped; an empty result is `unknown`.
pub fn slug(name: &str) -> (r: String)
    ensures
        r@ == slug_of(name@),
{
    let lower = to_lower(name);
    let n = lower.as_str().unicode_len();
    let mut mapped: Vec<char> = Vec::new();
    let mut i: usize = 0;
    while i < n
        invariant
            n == lower@.len(),
            i <= n,
            mapped@ == lower@.subrange(0, i as int).map_values(|c: char| slug_char(c)),
        decreases n - i,
    {
        let c = lower.as_str().get_char(i);
        mapped.push(map_char(c));
        proof {
            assert(lower@.subrange(0, i + 1).map_values(|c: char| slug_char(c)) =~= lower@.subrange(
                0,
                i as int,
            ).map_values(|c: char| slug_char(c)).push(slug_char(lower@[i as int])));
        }
        i = i + 1;
    }
    proof {
        assert(lower@.subrange(0, n as int) =~= lower@);
        assert(mapped@.subrange(0, n as int) =~= mapped@);
    }
    let mut a: usize = 0;
    while a < n && separator(mapped[a])
        invariant
            n == mapped@.len(),
            a <= n,
            trim_front(mapped@) == trim_front(mapped@.subrange(a as int, n as int)),
        decreases n - a,
    {
        proof {
            lemma_trim_front_skip(mapped@, a as int);
        }
        a = a + 1;
    }
    proof {
        if a < n {
            assert(mapped@.subrange(a as int, n as int)[0] == mapped@[a as int]);
        }
    }
    let mut b: usize = n;
    while b > a && separator(mapped[b - 1])
        invariant
            n == mapped@.len(),
            a <= b <= n,
            trim_front(mapped@) == mapped@.subrange(a as int, n as int),
            trim_back(mapped@.subrange(a as int, n as int)) == trim_back(
                mapped@.subrange(a as int, b as int),
            ),
        decreases b - a,
    {
        proof {
            lemma_trim_back_skip(mapped@, a as int, b as int);
        }
        b = b - 1;
    }
    proof {
        if b > a {
            assert(mapped@.subrange(a as int, b as int).last() == mapped@[b - 1]);
        }
    }
    let mut out = String::new();
    if a == b {
        push_text(&mut out, "unknown");
        return out;
    }
    let mut k: usize = a;
    while k < b
        invariant
            n == mapped@.len(),
            a <= k <= b <= n,
            out@ == mapped@.subrange(a as int, k as int),
        decreases b - k,
    {
        push_char(&mut out, mapped[k]);
        proof {
            assert(mapped@.subrange(a as int, k + 1) =~= mapped@.subrange(a as int, k as int).push(
                mapped@[k as int],
            ));
        }
        k = k + 1;
    }
    out
}

proof fn lemma_trim_front_clean(s: Seq<char>)
    ensures
        trim_front(s).len() > 0 ==> !is_separator(trim_front(s)[0]),
    decreases s.len(),
{
    if s.len() > 0 && is_separator(s[0]) {
        lemma_trim_front_clean(s.drop_first());
    }
}

proof fn lemma_trim_front_all_separators(s: Seq<char>)
    requires
        forall|i: int| 0 <= i < s.len() ==> is_separator(#[trigger] s[i]),
    ensures
        trim_front(s).len() == 0,
    decreases s.len(),
{
    if s.len() > 0 {
        assert forall|i: int| 0 <= i < s.len() - 1 implies is_separator(#[trigger] s.drop_first()[i]) by {
            assert(s.drop_first()[i] == s[i + 1]);
        }
        lemma_trim_front_all_separators(s.drop_first());
    }
}

proof fn lemma_trim_back_clean(s: Seq<char>)
    ensures
        trim_back(s).len() <= s.len(),
        trim_back(s) == s.subrange(0, trim_back(s).len() as int),
        trim_back(s).len() > 0 ==> !is_separator(trim_back(s).last()),
        s.len() > 0 && !is_separator(s[0]) ==> trim_back(s).len() > 0,
    decreases s.len(),
{
    if s.len() > 0 && is_separator(s.last()) {
        lemma_trim_back_clean(s.drop_last());
        let t = trim_back(s.drop_last());
        assert(s.drop_last().subrange(0, t.len() as int) =~= s.subrange(0, t.len() as int));
        if s.len() > 0 && !is_separator(s[0]) {
            assert(s.len() > 1);
            assert(s.drop_last()[0] == s[0]);
        }
    } else {
        assert(s.subrange(0, s.len() as int) =~= s);
    }
}

/// A slug is never empty, and neither begins nor ends with `-` or `_`.
pub proof fn lemma_slug_trimmed(name: Seq<char>)
    ensures
        slug_of(name).len() > 0,
        !is_separator(slug_of(name)[0]),
        !is_separator(slug_of(name).last()),
{
    let mapped = lower_of(name).map_values(|c: char| slug_char(c));
    let f = trim_front(mapped);
    lemma_trim_front_clean(mapped);
    lemma_trim_back_clean(f);
    let t = trim_back(f);
    if t.len() == 0 {
        reveal_strlit("unknown");
        assert("unknown"@[0] == 'u');
        assert("unknown"@.last() == 'n');
    } else {
        assert(f.len() > 0);
        assert(t[0] == f[0]);
    }
}

/// A name whose lower-case form holds no letter or digit has the slug `unknown`.
pub proof fn lemma_slug_without_alphanumerics(name: Seq<char>)
    requires
        forall|i: int| 0 <= i < lower_of(name).len() ==> !alphanumeric(#[trigger] lower_of(name)[i]),
    ensures
        slug_of(name) == "unknown"@,
{
    let mapped = lower_of(name).map_values(|c: char| slug_char(c));
    assert forall|i: int| 0 <= i < mapped.len() implies is_separator(#[trigger] mapped[i]) by {
        assert(!alphanumeric(lower_of(name)[i]));
    }
    lemma_trim_front_all_separators(mapped);
    assert(trim_front(mapped) =~= Seq::<char>::empty());
}

proof fn lemma_trim_front_suffix(s: Seq<char>)
    ensures
        exists|k: int| 0 <= k <= s.len() && trim_front(s) == s.subrange(k, s.len() as int),
    decreases s.len(),
{
    if s.len() > 0 && is_separator(s[0]) {
        lemma_trim_front_suffix(s.drop_first());
        let k = choose|k: int|
            0 <= k <= s.drop_first().len() && trim_front(s.drop_first()) == s.drop_first().subrange(
                k,
                s.drop_first().len() as int,
            );
        assert(s.drop_first().subrange(k, s.drop_first().len() as int) =~= s.subrange(k + 1, s.len() as int));
    } else {
        assert(s.subrange(0, s.len() as int) =~= s);
    }
}

/// Every character of a slug is `-`, `_`, or a letter or digit of the
/// lower-cased name, unless the slug is `unknown`.
pub proof fn lemma_slug_characters(name: Seq<char>)
    ensures
        slug_of(name) == "unknown"@ || forall|i: int|
            0 <= i < slug_of(name).len() ==> is_separator(#[trigger] slug_of(name)[i]) || (alphanumeric(
                slug_of(name)[i],
            ) && lower_of(name).contains(slug_of(name)[i])),
{
    let lower = lower_of(name);
    let mapped = lower.map_values(|c: char| slug_char(c));
    let f = trim_front(mapped);
    lemma_trim_front_suffix(mapped);
    let k = choose|k: int| 0 <= k <= mapped.len() && f == mapped.subrange(k, mapped.len() as int);
    lemma_trim_back_clean(f);
    let t = trim_back(f);
    if t.len() > 0 {
        assert forall|i: int| 0 <= i < t.len() implies is_separator(#[trigger] t[i]) || (alphanumeric(t[i])
            && lower.contains(t[i])) by {
            assert(t[i] == f[i]);
            assert(f[i] == mapped[k + i]);
            assert(mapped[k + i] == slug_char(lower[k + i]));
            if !is_separator(t[i]) {
                assert(lower[k + i] == t[i]);
            }
        }
    }
}

/// Extensions whose identifiers differ and hold no `-` are stored under
/// different file names, whatever their names.
pub proof fn lemma_extension_files_distinct(name1: Seq<char>, id1: Seq<char>, name2: Seq<char>, id2: Seq<char>)
    requires
        id1 != id2,
        !id1.contains('-'),
        !id2.contains('-'),
    ensures
        extension_file_of(name1, id1) != extension_file_of(name2, id2),
{
    let a = slug_of(name1) + "-"@ + id1;
    let b = slug_of(name2) + "-"@ + id2;
    reveal_strlit("-");
    reveal_strlit(".json");
    if extension_file_of(name1, id1) == extension_file_of(name2, id2) {
        assert(a + ".json"@ == b + ".json"@);
        assert(a.len() == b.len());
        assert(a =~= (a + ".json"@).subrange(0, a.len() as int));
        assert(b =~= (b + ".json"@).subrange(0, b.len() as int));
        assert(a == b);
        let n = a.len();
        if id1.len() < id2.len() {
            let p = n - id1.len() - 1;
            assert(a[p] == '-');
            assert(b[p] == id2[p - (n - id2.len())]);
            assert(id2.contains('-'));
        } else if id2.len() < id1.len() {
            let p = n - id2.len() - 1;
            assert(b[p] == '-');
            assert(a[p] == id1[p - (n - id1.len())]);
            assert(id1.contains('-'));
        } else {
            assert forall|i: int| 0 <= i < id1.len() implies id1[i] == id2[i] by {
                assert(a[n - id1.len() + i] == id1[i]);
                assert(b[n - id2.len() + i] == id2[i]);
            }
            assert(id1 =~= id2);
        }
    }
}

/// The identifier text for a repository registered at `seconds` past the Unix epoch.
pub open spec fn repository_id_of(seconds: int) -> Seq<char> {
    if seconds < 0 {
        "repo_-"@ + decimal((-seconds) as nat)
    } else {
        "repo_"@ + decimal(seconds as nat)
    }
}

/// The identifier of a repository registered at `seconds` past the Unix epoch.
pub fn repository_id(seconds: i64) -> (r: String)
    ensures
        r@ == repository_id_of(seconds as int),
{
    let mut out = String::new();
    if seconds < 0 {
        push_text(&mut out, "repo_-");
        let magnitude: u64 = (0i128 - seconds as i128) as u64;
        push_decimal(&mut out, magnitude);
    } else {
        push_text(&mut out, "repo_");
        push_decimal(&mut out, seconds as u64);
    }
    out
}

/// The file that holds an item stored under `id` alone: `{id}.json`.
pub open spec fn id_file_of(id: Seq<char>) -> Seq<char> {
    id + ".json"@
}

/// The file of a decomposed extension: `{slug}-{id}.json`.
pub open spec fn extension_file_of(name: Seq<char>, id: Seq<char>) -> Seq<char> {
    slug_of(name) + "-"@ + id + ".json"@
}

/// The file name `{id}.json`.
pub fn id_file_name(id: &str) -> (r: String)
    ensures
        r@ == id_file_of(id@),
{
    let mut out = id.to_owned();
    push_text(&mut out, ".json");
    out
}

/// The file name `{slug(name)}-{id}.json` of a decomposed extension.
pub fn extension_file_name(name: &str, id: &str) -> (r: String)
    ensures
        r@ == extension_file_of(name@, id@),
{
    let mut out = slug(name);
    push_text(&mut out, "-");
    push_text(&mut out, id);
    push_text(&mut out, ".json");
    out
}

} // verus!
