//! A JSON value model for the configuration edits.
//!
//! Objects keep their entries in order; looking up or replacing a key acts
//! on its first entry, and a new key is appended.

use vstd::prelude::*;
use crate::text::str_eq;

verus! {

/// A JSON number: a non-negative integer, a negative integer, or any other
/// number kept in its textual form.
pub enum JsonNumber {
    PosInt(u64),
    NegInt(i64),
    Float(String),
}

/// A JSON value.
pub enum JsonValue {
    Null,
    Bool(bool),
    Number(JsonNumber),
    String(String),
    Array(Vec<JsonValue>),
    Object(JsonObject),
}

/// A JSON object: its entries in order.
pub struct JsonObject {
    pub entries: Vec<(String, JsonValue)>,
}

/// The mathematical form of a JSON number.
pub enum SpecNumber {
    PosInt(u64),
    NegInt(i64),
    Float(Seq<char>),
}

/// The mathematical form of a JSON value.
pub enum SpecJson {
    Null,
    Bool(bool),
    Number(SpecNumber),
    Str(Seq<char>),
    Array(Seq<SpecJson>),
    Object(Seq<(Seq<char>, SpecJson)>),
}

pub open spec fn number_model(n: JsonNumber) -> SpecNumber {
    match n {
        JsonNumber::PosInt(u) => SpecNumber::PosInt(u),
        JsonNumber::NegInt(i) => SpecNumber::NegInt(i),
        JsonNumber::Float(s) => SpecNumber::Float(s@),
    }
}

/// The mathematical form of `v`.
pub open spec fn json_model(v: JsonValue) -> SpecJson
    decreases v,
{
    match v {
        JsonValue::Null => SpecJson::Null,
        JsonValue::Bool(b) => SpecJson::Bool(b),
        JsonValue::Number(n) => SpecJson::Number(number_model(n)),
        JsonValue::String(s) => SpecJson::Str(s@),
        JsonValue::Array(items) => SpecJson::Array(items_model(items@)),
        JsonValue::Object(o) => SpecJson::Object(entries_model(o.entries@)),
    }
}

/// The mathematical form of a sequence of values.
pub open spec fn items_model(s: Seq<JsonValue>) -> Seq<SpecJson>
    decreases s,
{
    if s.len() == 0 {
        seq![]
    } else {
        items_model(s.drop_last()).push(json_model(s.last()))
    }
}

/// The mathematical form of a sequence of object entries.
pub open spec fn entries_model(s: Seq<(String, JsonValue)>) -> Seq<(Seq<char>, SpecJson)>
    decreases s,
{
    if s.len() == 0 {
        seq![]
    } else {
        entries_model(s.drop_last()).push((s.last().0@, json_model(s.last().1)))
    }
}

/// Index of the first entry of `e`, at or after `i`, whose key is `k`.
pub open spec fn key_index_from(e: Seq<(Seq<char>, SpecJson)>, k: Seq<char>, i: int) -> Option<
    int,
>
    decreases e.len() - i,
{
    if i < 0 || i >= e.len() {
        None
    } else if e[i].0 == k {
        Some(i)
    } else {
        key_index_from(e, k, i + 1)
    }
}

/// Index of the first entry of `e` whose key is `k`.
pub open spec fn key_index(e: Seq<(Seq<char>, SpecJson)>, k: Seq<char>) -> Option<int> {
    key_index_from(e, k, 0)
}

/// The value of key `k` in the object `e`.
pub open spec fn obj_get(e: Seq<(Seq<char>, SpecJson)>, k: Seq<char>) -> Option<SpecJson> {
    match key_index(e, k) {
        Some(i) => Some(e[i].1),
        None => None,
    }
}

/// The object `e` with key `k` set to `v`: the first entry of `k` is
/// replaced in place, or a new entry is appended.
pub open spec fn obj_insert(e: Seq<(Seq<char>, SpecJson)>, k: Seq<char>, v: SpecJson) -> Seq<
    (Seq<char>, SpecJson),
> {
    match key_index(e, k) {
        Some(i) => e.update(i, (k, v)),
        None => e.push((k, v)),
    }
}

/// The object `e` with key `k` set to `v` only where `k` is absent.
pub open spec fn obj_insert_if_absent(
    e: Seq<(Seq<char>, SpecJson)>,
    k: Seq<char>,
    v: SpecJson,
) -> Seq<(Seq<char>, SpecJson)> {
    match key_index(e, k) {
        Some(i) => e,
        None => e.push((k, v)),
    }
}

/// The keys of the object `e`, in order.
pub open spec fn obj_keys(e: Seq<(Seq<char>, SpecJson)>) -> Seq<Seq<char>> {
    Seq::new(e.len(), |i: int| e[i].0)
}

proof fn lemma_key_index_from(e: Seq<(Seq<char>, SpecJson)>, k: Seq<char>, i: int)
    requires
        0 <= i,
    ensures
        key_index_from(e, k, i) matches Some(j) ==> i <= j < e.len() && e[j].0 == k && forall|
            m: int,
        |
            i <= m < j ==> e[m].0 != k,
        key_index_from(e, k, i) is None ==> forall|m: int| i <= m < e.len() ==> e[m].0 != k,
    decreases e.len() - i,
{
    if i < e.len() && e[i].0 != k {
        lemma_key_index_from(e, k, i + 1);
    }
}

/// `key_index` finds the first entry with the key, or reports that there is
/// none.
pub proof fn lemma_key_index(e: Seq<(Seq<char>, SpecJson)>, k: Seq<char>)
    ensures
        key_index(e, k) matches Some(j) ==> 0 <= j < e.len() && e[j].0 == k && forall|m: int|
            0 <= m < j ==> e[m].0 != k,
        key_index(e, k) is None ==> forall|m: int| 0 <= m < e.len() ==> e[m].0 != k,
{
    lemma_key_index_from(e, k, 0);
}

/// The first entry with the key determines `key_index`.
pub proof fn lemma_key_index_is(e: Seq<(Seq<char>, SpecJson)>, k: Seq<char>, j: int)
    requires
        0 <= j <= e.len(),
        j < e.len() ==> e[j].0 == k,
        forall|m: int| 0 <= m < j ==> e[m].0 != k,
    ensures
        key_index(e, k) == if j < e.len() {
            Some(j)
        } else {
            None::<int>
        },
{
    lemma_key_index(e, k);
}

/// `entries_model` maps each entry to its key's view and value's model.
pub proof fn lemma_entries_model(s: Seq<(String, JsonValue)>)
    ensures
        entries_model(s).len() == s.len(),
        forall|i: int|
            0 <= i < s.len() ==> #[trigger] entries_model(s)[i] == (s[i].0@, json_model(s[i].1)),
    decreases s.len(),
{
    if s.len() > 0 {
        lemma_entries_model(s.drop_last());
    }
}

/// `items_model` maps each item to its model.
pub proof fn lemma_items_model(s: Seq<JsonValue>)
    ensures
        items_model(s).len() == s.len(),
        forall|i: int| 0 <= i < s.len() ==> #[trigger] items_model(s)[i] == json_model(s[i]),
    decreases s.len(),
{
    if s.len() > 0 {
        lemma_items_model(s.drop_last());
    }
}

proof fn lemma_entries_model_update(s: Seq<(String, JsonValue)>, i: int, x: (String, JsonValue))
    requires
        0 <= i < s.len(),
    ensures
        entries_model(s.update(i, x)) == entries_model(s).update(i, (x.0@, json_model(x.1))),
{
    lemma_entries_model(s);
    lemma_entries_model(s.update(i, x));
    assert(entries_model(s.update(i, x)) =~= entries_model(s).update(i, (x.0@, json_model(x.1))));
}

proof fn lemma_entries_model_push(s: Seq<(String, JsonValue)>, x: (String, JsonValue))
    ensures
        entries_model(s.push(x)) == entries_model(s).push((x.0@, json_model(x.1))),
{
    assert(s.push(x).drop_last() =~= s);
}

impl JsonObject {
    /// The entries of the object in mathematical form.
    pub open spec fn model(&self) -> Seq<(Seq<char>, SpecJson)> {
        entries_model(self.entries@)
    }

    /// The empty object.
    pub fn new() -> (o: JsonObject)
        ensures
            o.model() == Seq::<(Seq<char>, SpecJson)>::empty(),
    {
        JsonObject { entries: Vec::new() }
    }

    /// Number of entries.
    pub fn len(&self) -> (n: usize)
        ensures
            n == self.model().len(),
    {
        proof {
            lemma_entries_model(self.entries@);
        }
        self.entries.len()
    }

    /// Index of the first entry with key `key`.
    pub fn find(&self, key: &str) -> (r: Option<usize>)
        ensures
            match r {
                Some(i) => key_index(self.model(), key@) == Some(i as int),
                None => key_index(self.model(), key@) is None,
            },
    {
        let ghost e = self.model();
        proof {
            lemma_entries_model(self.entries@);
        }
        let mut i: usize = 0;
        while i < self.entries.len()
            invariant
                e == self.model(),
                e.len() == self.entries@.len(),
                forall|j: int| 0 <= j < e.len() ==> #[trigger] e[j] == (
                    self.entries@[j].0@,
                    json_model(self.entries@[j].1),
                ),
                i <= e.len(),
                forall|m: int| 0 <= m < i ==> e[m].0 != key@,
            decreases e.len() - i,
        {
            if str_eq(self.entries[i].0.as_str(), key) {
                proof {
                    lemma_key_index_is(e, key@, i as int);
                }
                return Some(i);
            }
            i += 1;
        }
        proof {
            lemma_key_index_is(e, key@, e.len() as int);
        }
        None
    }

    /// The value of key `key`.
    pub fn get(&self, key: &str) -> (r: Option<&JsonValue>)
        ensures
            match r {
                Some(v) => obj_get(self.model(), key@) == Some(json_model(*v)),
                None => obj_get(self.model(), key@) is None,
            },
    {
        proof {
            lemma_entries_model(self.entries@);
        }
        let found = self.find(key);
        proof {
            lemma_key_index(self.model(), key@);
        }
        match found {
            Some(i) => Some(&self.entries[i].1),
            None => None,
        }
    }

    /// Sets key `key` to `value`: the first entry of the key is replaced in
    /// place, or a new entry is appended.
    pub fn insert(&mut self, key: String, value: JsonValue)
        ensures
            final(self).model() == obj_insert(old(self).model(), key@, json_model(value)),
    {
        proof {
            lemma_entries_model(self.entries@);
        }
        let found = self.find(key.as_str());
        proof {
            lemma_key_index(self.model(), key@);
        }
        match found {
            Some(i) => {
                proof {
                    lemma_entries_model_update(self.entries@, i as int, (key, value));
                }
                self.entries.set(i, (key, value));
            },
            None => {
                proof {
                    lemma_entries_model_push(self.entries@, (key, value));
                }
                self.entries.push((key, value));
            },
        }
    }

    /// Sets key `key` to `value` only where the key is absent
    /// (`entry(key).or_insert(value)`).
    pub fn insert_if_absent(&mut self, key: String, value: JsonValue)
        ensures
            final(self).model() == obj_insert_if_absent(old(self).model(), key@, json_model(value)),
    {
        if self.find(key.as_str()).is_none() {
            proof {
                lemma_entries_model_push(self.entries@, (key, value));
            }
            self.entries.push((key, value));
        }
    }

    /// Takes the value of key `key` out of the object, leaving `null` in its
    /// place.
    pub fn take(&mut self, key: &str) -> (r: Option<JsonValue>)
        ensures
            match key_index(old(self).model(), key@) {
                Some(i) => r matches Some(v) && json_model(v) == old(self).model()[i].1
                    && final(self).model() == old(self).model().update(i, (key@, SpecJson::Null)),
                None => r is None && final(self).model() == old(self).model(),
            },
    {
        proof {
            lemma_entries_model(self.entries@);
        }
        let found = self.find(key);
        proof {
            lemma_key_index(self.model(), key@);
        }
        match found {
            Some(i) => {
                let mut slot = (String::from_str(key), JsonValue::Null);
                proof {
                    lemma_entries_model_update(self.entries@, i as int, slot);
                }
                self.entries.set_and_swap(i, &mut slot);
                Some(slot.1)
            },
            None => None,
        }
    }
}

impl JsonValue {
    /// The value in mathematical form.
    pub open spec fn model(&self) -> SpecJson {
        json_model(*self)
    }

    /// The member `key` of an object; `None` for other values.
    pub fn get(&self, key: &str) -> (r: Option<&JsonValue>)
        ensures
            match self.model() {
                SpecJson::Object(e) => match r {
                    Some(v) => obj_get(e, key@) == Some(v.model()),
                    None => obj_get(e, key@) is None,
                },
                _ => r is None,
            },
    {
        match self {
            JsonValue::Object(o) => o.get(key),
            _ => None,
        }
    }

    /// The text of a string value.
    pub fn as_str(&self) -> (r: Option<&str>)
        ensures
            match self.model() {
                SpecJson::Str(s) => r matches Some(t) && t@ == s,
                _ => r is None,
            },
    {
        match self {
            JsonValue::String(s) => Some(s.as_str()),
            _ => None,
        }
    }

    /// The value of a boolean.
    pub fn as_bool(&self) -> (r: Option<bool>)
        ensures
            match self.model() {
                SpecJson::Bool(b) => r == Some(b),
                _ => r is None,
            },
    {
        match self {
            JsonValue::Bool(b) => Some(*b),
            _ => None,
        }
    }

    /// The value of a non-negative integer.
    pub fn as_u64(&self) -> (r: Option<u64>)
        ensures
            match self.model() {
                SpecJson::Number(SpecNumber::PosInt(u)) => r == Some(u),
                _ => r is None,
            },
    {
        match self {
            JsonValue::Number(JsonNumber::PosInt(u)) => Some(*u),
            _ => None,
        }
    }

    /// The items of an array.
    pub fn as_array(&self) -> (r: Option<&Vec<JsonValue>>)
        ensures
            match *self {
                JsonValue::Array(items) => r matches Some(a) && *a == items,
                _ => r is None,
            },
    {
        match self {
            JsonValue::Array(items) => Some(items),
            _ => None,
        }
    }

    /// The object of an object value.
    pub fn as_object(&self) -> (r: Option<&JsonObject>)
        ensures
            match *self {
                JsonValue::Object(o) => r matches Some(p) && *p == o,
                _ => r is None,
            },
    {
        match self {
            JsonValue::Object(o) => Some(o),
            _ => None,
        }
    }

    /// Whether the value is an object.
    pub fn is_object(&self) -> (r: bool)
        ensures
            r == (self.model() is Object),
    {
        match self {
            JsonValue::Object(_) => true,
            _ => false,
        }
    }
}

// ---------------------------------------------------------------------------
// Laws of objects
// ---------------------------------------------------------------------------

/// A key reads back the value last set for it.
pub proof fn law_get_after_insert(e: Seq<(Seq<char>, SpecJson)>, k: Seq<char>, v: SpecJson)
    ensures
        obj_get(obj_insert(e, k, v), k) == Some(v),
{
    lemma_key_index(e, k);
    let r = obj_insert(e, k, v);
    match key_index(e, k) {
        Some(i) => {
            lemma_key_index_is(r, k, i);
        },
        None => {
            lemma_key_index_is(r, k, e.len() as int);
        },
    }
}

/// Setting a key leaves every other key's value unchanged.
pub proof fn law_get_other_after_insert(
    e: Seq<(Seq<char>, SpecJson)>,
    k: Seq<char>,
    v: SpecJson,
    k2: Seq<char>,
)
    requires
        k2 != k,
    ensures
        obj_get(obj_insert(e, k, v), k2) == obj_get(e, k2),
{
    lemma_key_index(e, k);
    lemma_key_index(e, k2);
    let r = obj_insert(e, k, v);
    match key_index(e, k2) {
        Some(j) => {
            lemma_key_index_is(r, k2, j);
        },
        None => {
            lemma_key_index_is(r, k2, r.len() as int);
        },
    }
}

/// Setting a key that is present keeps the keys and their order; setting
/// one that is absent appends it.
pub proof fn law_insert_keys(e: Seq<(Seq<char>, SpecJson)>, k: Seq<char>, v: SpecJson)
    ensures
        obj_keys(obj_insert(e, k, v)) == if key_index(e, k) is Some {
            obj_keys(e)
        } else {
            obj_keys(e).push(k)
        },
{
    lemma_key_index(e, k);
    assert(obj_keys(obj_insert(e, k, v)) =~= if key_index(e, k) is Some {
        obj_keys(e)
    } else {
        obj_keys(e).push(k)
    });
}

/// Setting a key twice to the same value is setting it once.
pub proof fn law_insert_idempotent(e: Seq<(Seq<char>, SpecJson)>, k: Seq<char>, v: SpecJson)
    ensures
        obj_insert(obj_insert(e, k, v), k, v) == obj_insert(e, k, v),
{
    lemma_key_index(e, k);
    let r = obj_insert(e, k, v);
    match key_index(e, k) {
        Some(i) => {
            lemma_key_index_is(r, k, i);
            assert(r.update(i, (k, v)) =~= r);
        },
        None => {
            lemma_key_index_is(r, k, e.len() as int);
            assert(r.update(e.len() as int, (k, v)) =~= r);
        },
    }
}

/// Setting an absent key reads back the value; a present key keeps its
/// value.
pub proof fn law_get_after_insert_if_absent(
    e: Seq<(Seq<char>, SpecJson)>,
    k: Seq<char>,
    v: SpecJson,
)
    ensures
        obj_get(obj_insert_if_absent(e, k, v), k) == match obj_get(e, k) {
            Some(old) => Some(old),
            None => Some(v),
        },
{
    lemma_key_index(e, k);
    if key_index(e, k) is None {
        lemma_key_index_is(e.push((k, v)), k, e.len() as int);
    }
}

} // verus!
