//! A plain JSON tree that the rest of the crate reads.

use vstd::prelude::*;

verus! {

/// A JSON value. Numbers keep their literal text: nothing here does
/// arithmetic on them, and they are carried through unchanged.
#[derive(Debug, PartialEq, Eq)]
pub enum JsonValue {
    Null,
    Bool(bool),
    Number(String),
    Str(String),
    Array(Vec<JsonValue>),
    Object(Vec<(String, JsonValue)>),
}

/// The mathematical content of a JSON value, by which two trees are compared.
pub enum Json {
    Null,
    Bool(bool),
    Number(Seq<char>),
    Str(Seq<char>),
    Array(Seq<Json>),
    Object(Seq<(Seq<char>, Json)>),
}

/// The content of `v`.
pub open spec fn model(v: JsonValue) -> Json
    decreases v, 0nat,
{
    match v {
        JsonValue::Null => Json::Null,
        JsonValue::Bool(b) => Json::Bool(b),
        JsonValue::Number(n) => Json::Number(n@),
        JsonValue::Str(s) => Json::Str(s@),
        JsonValue::Array(items) => Json::Array(item_models(items, 0)),
        JsonValue::Object(members) => Json::Object(member_models(members, 0)),
    }
}

/// The contents of `items[i..]`.
pub open spec fn item_models(items: Vec<JsonValue>, i: int) -> Seq<Json>
    decreases items, items.len() - i,
{
    if 0 <= i < items.len() {
        seq![model(items[i])] + item_models(items, i + 1)
    } else {
        Seq::empty()
    }
}

/// The keys and contents of `members[i..]`.
pub open spec fn member_models(members: Vec<(String, JsonValue)>, i: int) -> Seq<(Seq<char>, Json)>
    decreases members, members.len() - i,
{
    if 0 <= i < members.len() {
        seq![(members[i].0@, model(members[i].1))] + member_models(members, i + 1)
    } else {
        Seq::empty()
    }
}

/// The value stored under `key` among `members`: the first member with that key.
pub open spec fn member_lookup(members: Seq<(String, JsonValue)>, key: Seq<char>) -> Option<JsonValue>
    decreases members.len(),
{
    if members.len() == 0 {
        None
    } else if members[0].0@ == key {
        Some(members[0].1)
    } else {
        member_lookup(members.drop_first(), key)
    }
}

/// The value of field `key` of `v`; `None` when `v` is no object or lacks the key.
pub open spec fn field(v: JsonValue, key: Seq<char>) -> Option<JsonValue> {
    match v {
        JsonValue::Object(members) => member_lookup(members@, key),
        _ => None,
    }
}

/// The text of field `key` of `v`, where that field holds a string.
pub open spec fn string_field(v: JsonValue, key: Seq<char>) -> Option<Seq<char>> {
    match field(v, key) {
        Some(JsonValue::Str(s)) => Some(s@),
        _ => None,
    }
}

/// The items of field `key` of `v`, where that field holds an array.
pub open spec fn array_field(v: JsonValue, key: Seq<char>) -> Option<Seq<JsonValue>> {
    match field(v, key) {
        Some(JsonValue::Array(items)) => Some(items@),
        _ => None,
    }
}

/// The flag in field `key` of `v`, where that field holds a boolean.
pub open spec fn bool_field(v: JsonValue, key: Seq<char>) -> Option<bool> {
    match field(v, key) {
        Some(JsonValue::Bool(b)) => Some(b),
        _ => None,
    }
}

proof fn lemma_lookup_step(members: Seq<(String, JsonValue)>, i: int, key: Seq<char>)
    requires
        0 <= i < members.len(),
        members[i].0@ != key,
    ensures
        member_lookup(members.subrange(i, members.len() as int), key) == member_lookup(
            members.subrange(i + 1, members.len() as int),
            key,
        ),
{
    assert(members.subrange(i, members.len() as int).drop_first() =~= members.subrange(
        i + 1,
        members.len() as int,
    ));
}

proof fn lemma_item_models_agree(a: Vec<JsonValue>, b: Vec<JsonValue>, i: int)
    requires
        a.len() == b.len(),
        forall|j: int| i <= j < a.len() ==> model(#[trigger] a[j]) == model(b[j]),
    ensures
        item_models(a, i) == item_models(b, i),
    decreases a.len() - i,
{
    if 0 <= i < a.len() {
        lemma_item_models_agree(a, b, i + 1);
    }
}

proof fn lemma_member_models_agree(a: Vec<(String, JsonValue)>, b: Vec<(String, JsonValue)>, i: int)
    requires
        a.len() == b.len(),
        forall|j: int|
            i <= j < a.len() ==> (#[trigger] a[j]).0@ == b[j].0@ && model(a[j].1) == model(b[j].1),
    ensures
        member_models(a, i) == member_models(b, i),
    decreases a.len() - i,
{
    if 0 <= i < a.len() {
        lemma_member_models_agree(a, b, i + 1);
    }
}

proof fn lemma_lookup_push(members: Seq<(String, JsonValue)>, m: (String, JsonValue), key: Seq<char>)
    ensures
        member_lookup(members.push(m), key) == (if member_lookup(members, key) is Some {
            member_lookup(members, key)
        } else if m.0@ == key {
            Some(m.1)
        } else {
            None
        }),
    decreases members.len(),
{
    let pushed = members.push(m);
    if members.len() > 0 {
        assert(pushed[0] == members[0]);
        assert(pushed.drop_first() =~= members.drop_first().push(m));
        lemma_lookup_push(members.drop_first(), m, key);
        if members[0].0@ != key {
            assert(member_lookup(pushed, key) == member_lookup(pushed.drop_first(), key));
            assert(member_lookup(members, key) == member_lookup(members.drop_first(), key));
        }
    } else {
        assert(pushed[0] == m);
        assert(pushed.drop_first() =~= Seq::<(String, JsonValue)>::empty());
        assert(member_lookup(members, key) is None);
        if m.0@ != key {
            assert(member_lookup(pushed, key) == member_lookup(pushed.drop_first(), key));
        }
    }
}

proof fn lemma_lookup_update(members: Seq<(String, JsonValue)>, j: int, e: (String, JsonValue), key: Seq<char>)
    requires
        0 <= j < members.len(),
        members[j].0@ == e.0@,
        forall|i: int| 0 <= i < j ==> (#[trigger] members[i]).0@ != e.0@,
    ensures
        member_lookup(members.update(j, e), key) == (if key == e.0@ {
            Some(e.1)
        } else {
            member_lookup(members, key)
        }),
    decreases j,
{
    let updated = members.update(j, e);
    if j == 0 {
        assert(updated[0] == e);
        assert(updated.drop_first() =~= members.drop_first());
    } else {
        assert(updated[0] == members[0]);
        assert(updated.drop_first() =~= members.drop_first().update(j - 1, e));
        assert forall|i: int| 0 <= i < j - 1 implies (#[trigger] members.drop_first()[i]).0@ != e.0@ by {
            assert(members.drop_first()[i] == members[i + 1]);
        }
        lemma_lookup_update(members.drop_first(), j - 1, e, key);
    }
}

proof fn lemma_lookup_absent(members: Seq<(String, JsonValue)>, key: Seq<char>)
    requires
        forall|j: int| 0 <= j < members.len() ==> (#[trigger] members[j]).0@ != key,
    ensures
        member_lookup(members, key) is None,
    decreases members.len(),
{
    if members.len() > 0 {
        assert forall|j: int| 0 <= j < members.len() - 1 implies (#[trigger] members.drop_first()[j]).0@ != key by {
            assert(members.drop_first()[j] == members[j + 1]);
        }
        lemma_lookup_absent(members.drop_first(), key);
    }
}

impl Clone for JsonValue {
    fn clone(&self) -> (r: JsonValue)
        ensures
            model(r) == model(*self),
    {
        self.duplicate()
    }
}

impl JsonValue {
    /// A copy of `self`, with the same content.
    pub fn duplicate(&self) -> (r: JsonValue)
        ensures
            model(r) == model(*self),
        decreases *self,
    {
        match self {
            JsonValue::Null => JsonValue::Null,
            JsonValue::Bool(b) => JsonValue::Bool(*b),
            JsonValue::Number(n) => JsonValue::Number(n.clone()),
            JsonValue::Str(t) => JsonValue::Str(t.clone()),
            JsonValue::Array(items) => {
                let mut out: Vec<JsonValue> = Vec::new();
                let mut i: usize = 0;
                while i < items.len()
                    invariant
                        i <= items.len(),
                        out.len() == i,
                        *self == JsonValue::Array(*items),
                        forall|j: int| 0 <= j < i ==> model(#[trigger] out[j]) == model(items[j]),
                    decreases items.len() - i,
                {
                    proof {
                        assert(decreases_to!(*self => self->Array_0));
                        assert(decreases_to!(*items => items[i as int]));
                    }
                    let c = items[i].duplicate();
                    out.push(c);
                    i = i + 1;
                }
                proof {
                    lemma_item_models_agree(out, *items, 0);
                }
                JsonValue::Array(out)
            },
            JsonValue::Object(members) => {
                let mut out: Vec<(String, JsonValue)> = Vec::new();
                let mut i: usize = 0;
                while i < members.len()
                    invariant
                        i <= members.len(),
                        out.len() == i,
                        *self == JsonValue::Object(*members),
                        forall|j: int|
                            0 <= j < i ==> (#[trigger] out[j]).0@ == members[j].0@ && model(out[j].1)
                                == model(members[j].1),
                    decreases members.len() - i,
                {
                    proof {
                        assert(decreases_to!(*self => self->Object_0));
                        assert(decreases_to!(*members => members[i as int]));
                        assert(decreases_to!(members[i as int] => members[i as int].1));
                    }
                    let c = members[i].1.duplicate();
                    out.push((members[i].0.clone(), c));
                    i = i + 1;
                }
                proof {
                    lemma_member_models_agree(out, *members, 0);
                }
                JsonValue::Object(out)
            },
        }
    }

    /// The value of field `key`, where `self` is an object that has it.
    pub fn get(&self, key: &str) -> (r: Option<&JsonValue>)
        ensures
            r matches Some(x) ==> field(*self, key@) == Some(*x),
            r is None ==> field(*self, key@) is None,
    {
        match self {
            JsonValue::Object(members) => {
                let wanted = key.to_owned();
                let mut i: usize = 0;
                assert(members@.subrange(0, members@.len() as int) =~= members@);
                while i < members.len()
                    invariant
                        0 <= i <= members@.len(),
                        wanted@ == key@,
                        *self == JsonValue::Object(*members),
                        member_lookup(members@, key@) == member_lookup(
                            members@.subrange(i as int, members@.len() as int),
                            key@,
                        ),
                    decreases members@.len() - i,
                {
                    if members[i].0 == wanted {
                        let ghost rest = members@.subrange(i as int, members@.len() as int);
                        assert(rest[0] == members@[i as int]);
                        assert(member_lookup(rest, key@) == Some(members@[i as int].1));
                        return Some(&members[i].1);
                    }
                    proof {
                        lemma_lookup_step(members@, i as int, key@);
                    }
                    i = i + 1;
                }
                None
            },
            _ => None,
        }
    }

    /// The text of field `key`, where `self` is an object whose field holds a string.
    pub fn get_str(&self, key: &str) -> (r: Option<&String>)
        ensures
            r matches Some(t) ==> string_field(*self, key@) == Some(t@),
            r is None ==> string_field(*self, key@) is None,
    {
        match self.get(key) {
            Some(JsonValue::Str(t)) => Some(t),
            _ => None,
        }
    }

    /// The items of field `key`, where `self` is an object whose field holds an array.
    pub fn get_array(&self, key: &str) -> (r: Option<&Vec<JsonValue>>)
        ensures
            r matches Some(items) ==> array_field(*self, key@) == Some(items@),
            r is None ==> array_field(*self, key@) is None,
    {
        match self.get(key) {
            Some(JsonValue::Array(items)) => Some(items),
            _ => None,
        }
    }

    /// The flag in field `key`, where `self` is an object whose field holds a boolean.
    pub fn get_bool(&self, key: &str) -> (r: Option<bool>)
        ensures
            r == bool_field(*self, key@),
    {
        match self.get(key) {
            Some(JsonValue::Bool(b)) => Some(*b),
            _ => None,
        }
    }

    /// The object `self` with field `key` set to `value`, and the value that
    /// field held before: the first member with that key takes the value, or
    /// a member is added at the end. Every other field keeps its value.
    pub fn replace_field(self, key: &str, value: JsonValue) -> (r: (JsonValue, Option<JsonValue>))
        requires
            self is Object,
        ensures
            r.0 is Object,
            r.1 == field(self, key@),
            field(r.0, key@) == Some(value),
            forall|k: Seq<char>| k != key@ ==> #[trigger] field(r.0, k) == field(self, k),
    {
        let ghost whole = self;
        let mut members = match self {
            JsonValue::Object(members) => members,
            _ => {
                return (JsonValue::Null, None);
            },
        };
        let wanted = key.to_owned();
        let mut i: usize = 0;
        assert(members@.subrange(0, 0) =~= Seq::<(String, JsonValue)>::empty());
        while i < members.len()
            invariant
                i <= members@.len(),
                wanted@ == key@,
                whole == self,
                whole == JsonValue::Object(members),
                forall|j: int| 0 <= j < i ==> (#[trigger] members@[j]).0@ != key@,
            decreases members@.len() - i,
        {
            if members[i].0 == wanted {
                let entry = (wanted, value);
                proof {
                    assert forall|k: Seq<char>| true implies #[trigger] member_lookup(
                        members@.update(i as int, entry),
                        k,
                    ) == (if k == entry.0@ {
                        Some(entry.1)
                    } else {
                        member_lookup(members@, k)
                    }) by {
                        lemma_lookup_update(members@, i as int, entry, k);
                    }
                    assert(member_lookup(members@, key@) == Some(members@[i as int].1)) by {
                        let e0 = (members@[i as int].0, members@[i as int].1);
                        lemma_lookup_update(members@, i as int, e0, key@);
                        assert(members@.update(i as int, e0) =~= members@);
                    }
                }
                let ghost before = members@;
                let next = i + 1;
                members.insert(i, entry);
                let previous = members.remove(next);
                assert(members@ =~= before.update(i as int, entry));
                return (JsonValue::Object(members), Some(previous.1));
            }
            i = i + 1;
        }
        let entry = (wanted, value);
        proof {
            assert forall|k: Seq<char>| true implies #[trigger] member_lookup(members@.push(entry), k)
                == (if member_lookup(members@, k) is Some {
                member_lookup(members@, k)
            } else if entry.0@ == k {
                Some(entry.1)
            } else {
                None
            }) by {
                lemma_lookup_push(members@, entry, k);
            }
            assert(member_lookup(members@, key@) is None) by {
                lemma_lookup_absent(members@, key@);
            }
        }
        members.push(entry);
        (JsonValue::Object(members), None)
    }

    /// The object `self` with field `key` set to `value`; every other field
    /// keeps its value.
    pub fn with_field(self, key: &str, value: JsonValue) -> (r: JsonValue)
        requires
            self is Object,
        ensures
            r is Object,
            field(r, key@) == Some(value),
            forall|k: Seq<char>| k != key@ ==> #[trigger] field(r, k) == field(self, k),
    {
        self.replace_field(key, value).0
    }
}

} // verus!
