//! JSON-shaped values: the semi-structured records that a canvas is made of.
//!
//! [`Json`] is the value that programs hold; [`Value`] is the mathematical
//! value it stands for, and every contract in the crate speaks of that one.
//! An object is an ordered list of entries. Looking a key up finds its first
//! entry; setting a key overwrites that entry in place or appends a new one.

use crate::binary64::Binary64;
use crate::text::same_text;
use vstd::prelude::*;

verus! {

/// A JSON number: a non-negative integer, a negative one, or a binary64.
#[derive(Clone, Copy, Debug, PartialEq, Eq, Structural)]
pub enum Number {
    Unsigned(u64),
    Signed(i64),
    Real(Binary64),
}

/// A JSON value as programs hold it.
#[derive(Debug, PartialEq)]
pub enum Json {
    Null,
    Bool(bool),
    Number(Number),
    Text(String),
    List(Vec<Json>),
    Object(Vec<(String, Json)>),
}

/// The entries of an object, in order.
pub type Entries = Seq<(Seq<char>, Value)>;

/// A JSON value as mathematics sees it.
pub enum Value {
    Null,
    Bool(bool),
    Number(Number),
    Text(Seq<char>),
    List(Seq<Value>),
    Object(Entries),
}

/// The value that `json` stands for.
pub open spec fn value_of(json: Json) -> Value
    decreases json,
{
    match json {
        Json::Null => Value::Null,
        Json::Bool(b) => Value::Bool(b),
        Json::Number(n) => Value::Number(n),
        Json::Text(s) => Value::Text(s@),
        Json::List(items) => Value::List(
            Seq::new(
                items@.len(),
                |i: int|
                    if 0 <= i < items@.len() {
                        value_of(items@[i])
                    } else {
                        Value::Null
                    },
            ),
        ),
        Json::Object(fields) => Value::Object(
            Seq::new(
                fields@.len(),
                |i: int|
                    if 0 <= i < fields@.len() {
                        (fields@[i].0@, value_of(fields@[i].1))
                    } else {
                        (Seq::empty(), Value::Null)
                    },
            ),
        ),
    }
}

impl View for Json {
    type V = Value;

    open spec fn view(&self) -> Value {
        value_of(*self)
    }
}

/// The values that a list of items stands for.
pub open spec fn values(items: Seq<Json>) -> Seq<Value> {
    Seq::new(
        items.len(),
        |i: int|
            if 0 <= i < items.len() {
                items[i]@
            } else {
                Value::Null
            },
    )
}

/// The entries that a list of fields stands for.
pub open spec fn entries(fields: Seq<(String, Json)>) -> Entries {
    Seq::new(
        fields.len(),
        |i: int|
            if 0 <= i < fields.len() {
                (fields[i].0@, fields[i].1@)
            } else {
                (Seq::empty(), Value::Null)
            },
    )
}

/// Whether some entry has the key.
pub open spec fn has_key(fields: Entries, key: Seq<char>) -> bool {
    exists|i: int| 0 <= i < fields.len() && #[trigger] fields[i].0 == key
}

/// Whether `i` is the place of the first entry with the key.
pub open spec fn is_first_with_key(fields: Entries, key: Seq<char>, i: int) -> bool {
    &&& 0 <= i < fields.len()
    &&& fields[i].0 == key
    &&& forall|j: int| 0 <= j < i ==> #[trigger] fields[j].0 != key
}

/// The place of the first entry with the key, where there is one.
pub open spec fn first_with_key(fields: Entries, key: Seq<char>) -> int {
    choose|i: int| is_first_with_key(fields, key, i)
}

/// The value of the first entry with the key.
pub open spec fn lookup(fields: Entries, key: Seq<char>) -> Option<Value> {
    if has_key(fields, key) {
        Some(fields[first_with_key(fields, key)].1)
    } else {
        None
    }
}

/// The entries with the key set to the value: the first entry with the key
/// is overwritten where it stands, and a key that is new goes to the end.
pub open spec fn upsert(fields: Entries, key: Seq<char>, value: Value) -> Entries {
    if has_key(fields, key) {
        fields.update(first_with_key(fields, key), (key, value))
    } else {
        fields.push((key, value))
    }
}

impl Value {
    /// The member of an object under the key; nothing for other values.
    pub open spec fn get(self, key: Seq<char>) -> Option<Value> {
        match self {
            Value::Object(fields) => lookup(fields, key),
            _ => None,
        }
    }

    /// The characters of a text; nothing for other values.
    pub open spec fn text(self) -> Option<Seq<char>> {
        match self {
            Value::Text(s) => Some(s),
            _ => None,
        }
    }

    /// The number that a number value holds; nothing for other values.
    pub open spec fn number(self) -> Option<Number> {
        match self {
            Value::Number(n) => Some(n),
            _ => None,
        }
    }

    /// The items of a list; nothing for other values.
    pub open spec fn items(self) -> Option<Seq<Value>> {
        match self {
            Value::List(items) => Some(items),
            _ => None,
        }
    }

    /// The object with the key set to the value; other values are left as
    /// they are.
    pub open spec fn with(self, key: Seq<char>, value: Value) -> Value {
        match self {
            Value::Object(fields) => Value::Object(upsert(fields, key, value)),
            _ => self,
        }
    }
}

/// A list stands for the list of what its items stand for.
pub proof fn lemma_list_view(items: Vec<Json>)
    ensures
        Json::List(items)@ == Value::List(values(items@)),
{
    assert(Json::List(items)@->List_0 =~= values(items@));
}

/// An object stands for the entries of its fields.
pub proof fn lemma_object_view(fields: Vec<(String, Json)>)
    ensures
        Json::Object(fields)@ == Value::Object(entries(fields@)),
{
    assert(Json::Object(fields)@->Object_0 =~= entries(fields@));
}

/// The first entry with a key is the only place that is first with it.
pub proof fn lemma_first_with_key(fields: Entries, key: Seq<char>, i: int)
    requires
        is_first_with_key(fields, key, i),
    ensures
        has_key(fields, key),
        first_with_key(fields, key) == i,
        lookup(fields, key) == Some(fields[i].1),
{
    let j = first_with_key(fields, key);
    assert(is_first_with_key(fields, key, j));
    if j < i {
        assert(fields[j].0 != key);
    }
    if i < j {
        assert(fields[i].0 != key);
    }
}

/// Among the entries up to `k`, some entry is the first with the key.
proof fn lemma_least_with_key(fields: Entries, key: Seq<char>, k: int)
    requires
        0 <= k < fields.len(),
        fields[k].0 == key,
    ensures
        exists|i: int| is_first_with_key(fields, key, i),
    decreases k,
{
    if exists|m: int| 0 <= m < k && #[trigger] fields[m].0 == key {
        let m = choose|m: int| 0 <= m < k && #[trigger] fields[m].0 == key;
        lemma_least_with_key(fields, key, m);
    } else {
        assert(is_first_with_key(fields, key, k));
    }
}

/// Where some entry has the key, the chosen first place is first with it.
pub proof fn lemma_has_first_with_key(fields: Entries, key: Seq<char>)
    requires
        has_key(fields, key),
    ensures
        is_first_with_key(fields, key, first_with_key(fields, key)),
{
    let k = choose|k: int| 0 <= k < fields.len() && #[trigger] fields[k].0 == key;
    lemma_least_with_key(fields, key, k);
}

/// A key that was set is found with the value it was set to.
pub proof fn lemma_upsert_same(fields: Entries, key: Seq<char>, value: Value)
    ensures
        lookup(upsert(fields, key, value), key) == Some(value),
        upsert(fields, key, value).len() >= fields.len(),
{
    let after = upsert(fields, key, value);
    if has_key(fields, key) {
        lemma_has_first_with_key(fields, key);
        let i = first_with_key(fields, key);
        assert forall|j: int| 0 <= j < i implies #[trigger] after[j].0 != key by {
            assert(fields[j].0 != key);
        }
        assert(is_first_with_key(after, key, i));
        lemma_first_with_key(after, key, i);
    } else {
        let i = fields.len() as int;
        assert forall|j: int| 0 <= j < i implies #[trigger] after[j].0 != key by {
            assert(fields[j].0 == after[j].0);
        }
        assert(is_first_with_key(after, key, i));
        lemma_first_with_key(after, key, i);
    }
}

/// Setting one key leaves what is found under every other key as it was.
pub proof fn lemma_upsert_other(fields: Entries, key: Seq<char>, value: Value, other: Seq<char>)
    requires
        other != key,
    ensures
        lookup(upsert(fields, key, value), other) == lookup(fields, other),
{
    let after = upsert(fields, key, value);
    if has_key(fields, key) {
        lemma_has_first_with_key(fields, key);
    }
    assert(forall|j: int| 0 <= j < fields.len() ==> (#[trigger] after[j].0 == other) == (fields[j].0 == other));
    if has_key(fields, other) {
        lemma_has_first_with_key(fields, other);
        let i = first_with_key(fields, other);
        assert forall|j: int| 0 <= j < i implies #[trigger] after[j].0 != other by {
            assert(fields[j].0 != other);
        }
        assert(is_first_with_key(after, other, i));
        lemma_first_with_key(after, other, i);
    } else {
        assert forall|j: int| 0 <= j < after.len() implies #[trigger] after[j].0 != other by {
            if j < fields.len() {
                assert(fields[j].0 != other);
            }
        }
        lemma_no_key(after, other);
    }
}

/// Setting a key twice is setting it to the second value.
pub proof fn lemma_upsert_twice(fields: Entries, key: Seq<char>, a: Value, b: Value)
    ensures
        upsert(upsert(fields, key, a), key, b) == upsert(fields, key, b),
{
    let once = upsert(fields, key, a);
    lemma_upsert_same(fields, key, a);
    if has_key(fields, key) {
        lemma_has_first_with_key(fields, key);
        let i = first_with_key(fields, key);
        assert forall|j: int| 0 <= j < i implies #[trigger] once[j].0 != key by {
            assert(fields[j].0 != key);
        }
        assert(is_first_with_key(once, key, i));
        lemma_first_with_key(once, key, i);
        assert(upsert(once, key, b) =~= upsert(fields, key, b));
    } else {
        let i = fields.len() as int;
        assert forall|j: int| 0 <= j < i implies #[trigger] once[j].0 != key by {
            assert(fields[j].0 == once[j].0);
        }
        assert(is_first_with_key(once, key, i));
        lemma_first_with_key(once, key, i);
        assert(upsert(once, key, b) =~= upsert(fields, key, b));
    }
}

/// Where no entry has the key, nothing is found.
pub proof fn lemma_no_key(fields: Entries, key: Seq<char>)
    requires
        forall|j: int| 0 <= j < fields.len() ==> #[trigger] fields[j].0 != key,
    ensures
        !has_key(fields, key),
        lookup(fields, key) is None,
{
}

/// The place of the first field with the key, or the number of fields where
/// none has it.
pub fn position_of(fields: &Vec<(String, Json)>, key: &str) -> (i: usize)
    ensures
        i <= fields@.len(),
        i < fields@.len() ==> is_first_with_key(entries(fields@), key@, i as int),
        i == fields@.len() ==> !has_key(entries(fields@), key@),
{
    let mut i: usize = 0;
    while i < fields.len()
        invariant
            i <= fields@.len(),
            forall|j: int| 0 <= j < i ==> #[trigger] entries(fields@)[j].0 != key@,
        decreases fields@.len() - i,
    {
        if same_text(fields[i].0.as_str(), key) {
            return i;
        }
        i += 1;
    }
    proof {
        lemma_no_key(entries(fields@), key@);
    }
    i
}

/// Sets the key to the value: the first field with the key is overwritten
/// where it stands, and a key that is new goes to the end.
pub fn set_field(fields: &mut Vec<(String, Json)>, key: &str, value: Json)
    ensures
        entries(final(fields)@) == upsert(entries(old(fields)@), key@, value@),
{
    let i = position_of(fields, key);
    let ghost before = entries(fields@);
    if i < fields.len() {
        proof {
            lemma_first_with_key(before, key@, i as int);
        }
        fields[i] = (key.to_owned(), value);
        assert(entries(fields@) =~= before.update(i as int, (key@, value@)));
    } else {
        fields.push((key.to_owned(), value));
        assert(entries(fields@) =~= before.push((key@, value@)));
    }
}

impl Clone for Json {
    /// A copy that stands for the same value.
    fn clone(&self) -> (r: Json)
        ensures
            r@ == self@,
        decreases self,
    {
        match self {
            Json::Null => Json::Null,
            Json::Bool(b) => Json::Bool(*b),
            Json::Number(n) => Json::Number(*n),
            Json::Text(s) => Json::Text(s.clone()),
            Json::List(items) => {
                let mut out: Vec<Json> = Vec::new();
                let mut i: usize = 0;
                while i < items.len()
                    invariant
                        i <= items@.len(),
                        out@.len() == i,
                        forall|k: int| 0 <= k < i ==> out@[k]@ == items@[k]@,
                        self == Json::List(*items),
                    decreases items@.len() - i,
                {
                    proof {
                        assert(decreases_to!(*self => self->List_0));
                    }
                    let item = items[i].clone();
                    out.push(item);
                    i += 1;
                }
                proof {
                    lemma_list_view(*items);
                    lemma_list_view(out);
                    assert(values(out@) =~= values(items@));
                }
                Json::List(out)
            },
            Json::Object(fields) => {
                let mut out: Vec<(String, Json)> = Vec::new();
                let mut i: usize = 0;
                while i < fields.len()
                    invariant
                        i <= fields@.len(),
                        out@.len() == i,
                        forall|k: int|
                            0 <= k < i ==> out@[k].0@ == fields@[k].0@ && out@[k].1@
                                == fields@[k].1@,
                        self == Json::Object(*fields),
                    decreases fields@.len() - i,
                {
                    let key = fields[i].0.clone();
                    proof {
                        assert(decreases_to!(*self => self->Object_0));
                        assert(decreases_to!(fields@[i as int] => fields@[i as int].1));
                    }
                    let value = fields[i].1.clone();
                    out.push((key, value));
                    i += 1;
                }
                proof {
                    lemma_object_view(*fields);
                    lemma_object_view(out);
                    assert(entries(out@) =~= entries(fields@));
                }
                Json::Object(out)
            },
        }
    }
}

impl Json {
    /// The member of an object under the key.
    pub fn get(&self, key: &str) -> (r: Option<&Json>)
        ensures
            match r {
                Some(v) => self@.get(key@) == Some(v@),
                None => self@.get(key@) is None,
            },
    {
        match self {
            Json::Object(fields) => {
                proof {
                    lemma_object_view(*fields);
                }
                let i = position_of(fields, key);
                if i < fields.len() {
                    proof {
                        lemma_first_with_key(entries(fields@), key@, i as int);
                    }
                    Some(&fields[i].1)
                } else {
                    None
                }
            },
            _ => None,
        }
    }

    /// The characters of a text.
    pub fn as_str(&self) -> (r: Option<&str>)
        ensures
            match r {
                Some(s) => self@.text() == Some(s@),
                None => self@.text() is None,
            },
    {
        match self {
            Json::Text(s) => Some(s.as_str()),
            _ => None,
        }
    }

    /// The number that a number value holds.
    pub fn as_number(&self) -> (r: Option<Number>)
        ensures
            r == self@.number(),
    {
        match self {
            Json::Number(n) => Some(*n),
            _ => None,
        }
    }

    /// The items of a list.
    pub fn as_array(&self) -> (r: Option<&Vec<Json>>)
        ensures
            match r {
                Some(items) => self@.items() == Some(values(items@)),
                None => self@.items() is None,
            },
    {
        match self {
            Json::List(items) => {
                proof {
                    lemma_list_view(*items);
                }
                Some(items)
            },
            _ => None,
        }
    }

    /// The fields of an object.
    pub fn as_object(&self) -> (r: Option<&Vec<(String, Json)>>)
        ensures
            match r {
                Some(fields) => self@ == Value::Object(entries(fields@)),
                None => !(self@ is Object),
            },
    {
        match self {
            Json::Object(fields) => {
                proof {
                    lemma_object_view(*fields);
                }
                Some(fields)
            },
            _ => None,
        }
    }

    /// A text value with the characters of `s`.
    pub fn text(s: &str) -> (r: Json)
        ensures
            r@ == Value::Text(s@),
    {
        Json::Text(s.to_owned())
    }

    /// A number value that holds a binary64.
    pub fn binary64(x: Binary64) -> (r: Json)
        ensures
            r@ == Value::Number(Number::Real(x)),
    {
        Json::Number(Number::Real(x))
    }

    /// A number value.
    pub fn number(n: Number) -> (r: Json)
        ensures
            r@ == Value::Number(n),
    {
        Json::Number(n)
    }

    /// A number value that holds a non-negative integer.
    pub fn unsigned(n: u64) -> (r: Json)
        ensures
            r@ == Value::Number(Number::Unsigned(n)),
    {
        Json::Number(Number::Unsigned(n))
    }

    /// A list value with the given items.
    pub fn list(items: Vec<Json>) -> (r: Json)
        ensures
            r@ == Value::List(values(items@)),
    {
        proof {
            lemma_list_view(items);
        }
        Json::List(items)
    }

    /// An object value with the given fields.
    pub fn object(fields: Vec<(String, Json)>) -> (r: Json)
        ensures
            r@ == Value::Object(entries(fields@)),
    {
        proof {
            lemma_object_view(fields);
        }
        Json::Object(fields)
    }
}

} // verus!
