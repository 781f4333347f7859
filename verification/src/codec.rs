//! How a document is written as a JSON value and read back from one.
//!
//! The members of a document file are `formatVersion`, `name`, `canvas`,
//! `viewport` (with `zoom` and `transform`), `createdAt` and `updatedAt`.
//! Reading asks for the shape of each and for nothing more; members that
//! are not named here are passed over.

use crate::document::{Document, EaselFile, ViewportState};
use crate::error::{EaselError, ErrorKind};
use crate::json::{
    entries, is_first_with_key, lemma_first_with_key, lemma_object_view, lemma_upsert_same,
    set_field, values, Json, Number, Value,
};
use crate::tree::{holds_members, objects_key};
use vstd::prelude::*;

verus! {

/// The number values of a sequence of numbers.
pub open spec fn number_values(numbers: Seq<Number>) -> Seq<Value> {
    Seq::new(numbers.len(), |i: int| Value::Number(numbers[i]))
}

/// Whether every value of the sequence is a number.
pub open spec fn all_numbers(items: Seq<Value>) -> bool {
    forall|i: int| 0 <= i < items.len() ==> (#[trigger] items[i]) is Number
}

/// The numbers that a sequence of number values holds.
pub open spec fn numbers_of(items: Seq<Value>) -> Seq<Number> {
    Seq::new(items.len(), |i: int| items[i]->Number_0)
}

/// The viewport of a document, written as a value.
pub open spec fn encode_viewport(zoom: Number, transform: Seq<Number>) -> Value {
    Value::Object(
        seq![
            ("zoom"@, Value::Number(zoom)),
            ("transform"@, Value::List(number_values(transform))),
        ],
    )
}

/// A document written as a value: its six members, in the order in which a
/// file holds them.
pub open spec fn encode(d: Document) -> Value {
    Value::Object(
        seq![
            ("formatVersion"@, Value::Number(Number::Unsigned(d.format_version as u64))),
            ("name"@, Value::Text(d.name)),
            ("canvas"@, d.canvas),
            ("viewport"@, encode_viewport(d.zoom, d.transform)),
            ("createdAt"@, Value::Text(d.created_at)),
            ("updatedAt"@, Value::Text(d.updated_at)),
        ],
    )
}

/// Whether a value can be the canvas of a document: an object that, if it
/// has an `objects` member, holds a list there.
pub open spec fn canvas_shaped(c: Value) -> bool {
    c is Object && (c.get(objects_key()) is None || c.get(objects_key())->0 is List)
}

/// The canvas as a document holds it: where it has no `objects` member, an
/// empty list is put there.
pub open spec fn normal_canvas(c: Value) -> Value {
    if c.get(objects_key()) is None {
        c.with(objects_key(), Value::List(Seq::empty()))
    } else {
        c
    }
}

/// Whether a value has the shape of a viewport: a number under `zoom`, and a
/// list of numbers under `transform`.
pub open spec fn viewport_shaped(v: Value) -> bool {
    &&& v.get("zoom"@) matches Some(Value::Number(_))
    &&& v.get("transform"@) matches Some(Value::List(items)) && all_numbers(items)
}

/// The document that a value holds, or else the name of the first member
/// that is missing or has the wrong shape: `document` for a value that is no
/// object; `formatVersion`, which must be a non-negative integer of at most
/// thirty-two bits; `name`, a text; `canvas`; `viewport`; `createdAt` and
/// `updatedAt`, both texts.
pub open spec fn decode(v: Value) -> Result<Document, Seq<char>> {
    if !(v is Object) {
        Err("document"@)
    } else if !(v.get("formatVersion"@) matches Some(Value::Number(Number::Unsigned(n))) && n
        <= u32::MAX) {
        Err("formatVersion"@)
    } else if !(v.get("name"@) matches Some(Value::Text(_))) {
        Err("name"@)
    } else if !(v.get("canvas"@) matches Some(c) && canvas_shaped(c)) {
        Err("canvas"@)
    } else if !(v.get("viewport"@) matches Some(vp) && viewport_shaped(vp)) {
        Err("viewport"@)
    } else if !(v.get("createdAt"@) matches Some(Value::Text(_))) {
        Err("createdAt"@)
    } else if !(v.get("updatedAt"@) matches Some(Value::Text(_))) {
        Err("updatedAt"@)
    } else {
        let vp = v.get("viewport"@)->0;
        Ok(
            Document {
                format_version: v.get("formatVersion"@)->0->Number_0->Unsigned_0 as u32,
                name: v.get("name"@)->0->Text_0,
                canvas: normal_canvas(v.get("canvas"@)->0),
                zoom: vp.get("zoom"@)->0->Number_0,
                transform: numbers_of(vp.get("transform"@)->0->List_0),
                created_at: v.get("createdAt"@)->0->Text_0,
                updated_at: v.get("updatedAt"@)->0->Text_0,
            },
        )
    }
}

/// A canvas of the right shape is, once normal, an object that lists its
/// nodes: every document that is read is well formed.
pub proof fn lemma_normal_canvas(c: Value)
    requires
        canvas_shaped(c),
    ensures
        holds_members(normal_canvas(c)),
{
    if c.get(objects_key()) is None {
        lemma_upsert_same(c->Object_0, objects_key(), Value::List(Seq::empty()));
    }
}

/// Every document that is read is well formed.
pub proof fn lemma_decoded_well_formed(v: Value)
    requires
        decode(v) is Ok,
    ensures
        decode(v)->Ok_0.well_formed(),
{
    lemma_normal_canvas(v.get("canvas"@)->0);
}

/// The six members of a written document are found under their names.
proof fn lemma_encoded_members(d: Document)
    ensures
        encode(d).get("formatVersion"@) == Some(
            Value::Number(Number::Unsigned(d.format_version as u64)),
        ),
        encode(d).get("name"@) == Some(Value::Text(d.name)),
        encode(d).get("canvas"@) == Some(d.canvas),
        encode(d).get("viewport"@) == Some(encode_viewport(d.zoom, d.transform)),
        encode(d).get("createdAt"@) == Some(Value::Text(d.created_at)),
        encode(d).get("updatedAt"@) == Some(Value::Text(d.updated_at)),
{
    reveal_strlit("formatVersion");
    reveal_strlit("name");
    reveal_strlit("canvas");
    reveal_strlit("viewport");
    reveal_strlit("createdAt");
    reveal_strlit("updatedAt");
    let fields = encode(d)->Object_0;
    assert(fields[0].0.len() == 13);
    assert(fields[1].0.len() == 4);
    assert(fields[2].0.len() == 6);
    assert(fields[3].0.len() == 8);
    assert(fields[4].0.len() == 9);
    assert(fields[5].0.len() == 9);
    assert(fields[4].0[0] == 'c');
    assert(fields[5].0[0] == 'u');
    assert(is_first_with_key(fields, "formatVersion"@, 0));
    assert(is_first_with_key(fields, "name"@, 1));
    assert(is_first_with_key(fields, "canvas"@, 2));
    assert(is_first_with_key(fields, "viewport"@, 3));
    assert(is_first_with_key(fields, "createdAt"@, 4));
    assert(is_first_with_key(fields, "updatedAt"@, 5));
    lemma_first_with_key(fields, "formatVersion"@, 0);
    lemma_first_with_key(fields, "name"@, 1);
    lemma_first_with_key(fields, "canvas"@, 2);
    lemma_first_with_key(fields, "viewport"@, 3);
    lemma_first_with_key(fields, "createdAt"@, 4);
    lemma_first_with_key(fields, "updatedAt"@, 5);
}

/// The two members of a written viewport are found under their names.
proof fn lemma_encoded_viewport(zoom: Number, transform: Seq<Number>)
    ensures
        encode_viewport(zoom, transform).get("zoom"@) == Some(Value::Number(zoom)),
        encode_viewport(zoom, transform).get("transform"@) == Some(
            Value::List(number_values(transform)),
        ),
        all_numbers(number_values(transform)),
        numbers_of(number_values(transform)) == transform,
{
    reveal_strlit("zoom");
    reveal_strlit("transform");
    let fields = encode_viewport(zoom, transform)->Object_0;
    assert(fields[0].0.len() == 4);
    assert(fields[1].0.len() == 9);
    assert(is_first_with_key(fields, "zoom"@, 0));
    assert(is_first_with_key(fields, "transform"@, 1));
    lemma_first_with_key(fields, "zoom"@, 0);
    lemma_first_with_key(fields, "transform"@, 1);
    assert(numbers_of(number_values(transform)) =~= transform);
}

/// Writing a well-formed document as a value and reading the value back
/// gives the document again, member for member.
pub proof fn lemma_round_trip(d: Document)
    requires
        d.well_formed(),
    ensures
        decode(encode(d)) == Ok::<Document, Seq<char>>(d),
{
    lemma_encoded_members(d);
    lemma_encoded_viewport(d.zoom, d.transform);
    assert(canvas_shaped(d.canvas));
    assert(normal_canvas(d.canvas) == d.canvas);
    assert(viewport_shaped(encode_viewport(d.zoom, d.transform)));
    let back = decode(encode(d))->Ok_0;
    assert(back.format_version == d.format_version);
    assert(back.transform == d.transform);
}

/// A failure to read a document, about the member of the given name.
fn malformed(member: &str) -> (e: EaselError)
    ensures
        e.kind == ErrorKind::Format,
        e.subject@ == member@,
{
    EaselError::new(ErrorKind::Format, member)
}

/// The numbers that a list of values holds, where every one is a number.
pub fn read_numbers(items: &Vec<Json>) -> (r: Option<Vec<Number>>)
    ensures
        match r {
            Some(numbers) => all_numbers(values(items@)) && numbers@ == numbers_of(
                values(items@),
            ),
            None => !all_numbers(values(items@)),
        },
{
    let mut out: Vec<Number> = Vec::new();
    let mut i: usize = 0;
    while i < items.len()
        invariant
            i <= items@.len(),
            out@.len() == i,
            forall|k: int| 0 <= k < i ==> (#[trigger] values(items@)[k]) is Number,
            forall|k: int| 0 <= k < i ==> out@[k] == values(items@)[k]->Number_0,
        decreases items@.len() - i,
    {
        match items[i].as_number() {
            Some(n) => {
                out.push(n);
            },
            None => {
                assert(!(values(items@)[i as int] is Number));
                return None;
            },
        }
        i += 1;
    }
    assert(out@ =~= numbers_of(values(items@)));
    Some(out)
}

/// The number values of a list of numbers.
pub fn write_numbers(numbers: &Vec<Number>) -> (r: Vec<Json>)
    ensures
        values(r@) == number_values(numbers@),
{
    let mut out: Vec<Json> = Vec::new();
    let mut i: usize = 0;
    while i < numbers.len()
        invariant
            i <= numbers@.len(),
            out@.len() == i,
            forall|k: int| 0 <= k < i ==> out@[k]@ == Value::Number(numbers@[k]),
        decreases numbers@.len() - i,
    {
        out.push(Json::number(numbers[i]));
        i += 1;
    }
    assert(values(out@) =~= number_values(numbers@));
    out
}

/// Reads a canvas: the value must be an object that, if it has an `objects`
/// member, holds a list there; where it has none, an empty list is put
/// there.
pub fn read_canvas(value: &Json) -> (r: Option<Json>)
    ensures
        match r {
            Some(canvas) => canvas_shaped(value@) && canvas@ == normal_canvas(value@),
            None => !canvas_shaped(value@),
        },
{
    if value.as_object().is_none() {
        return None;
    }
    match value.get("objects") {
        Some(listed) => {
            if listed.as_array().is_none() {
                return None;
            }
            Some(value.clone())
        },
        None => {
            let mut canvas = value.clone();
            match &mut canvas {
                Json::Object(fields) => {
                    proof {
                        lemma_object_view(*fields);
                    }
                    set_field(fields, "objects", Json::list(Vec::new()));
                    proof {
                        assert(values(Seq::<Json>::empty()) =~= Seq::<Value>::empty());
                        lemma_object_view(*fields);
                    }
                },
                _ => {},
            }
            Some(canvas)
        },
    }
}

/// Reads a viewport: a number under `zoom`, and a list of numbers under
/// `transform`.
pub fn read_viewport(value: &Json) -> (r: Option<ViewportState>)
    ensures
        match r {
            Some(viewport) => viewport_shaped(value@) && viewport.zoom == value@.get(
                "zoom"@,
            )->0->Number_0 && viewport.transform@ == numbers_of(
                value@.get("transform"@)->0->List_0,
            ),
            None => !viewport_shaped(value@),
        },
{
    let zoom = match value.get("zoom") {
        Some(held) => match held.as_number() {
            Some(n) => n,
            None => {
                return None;
            },
        },
        None => {
            return None;
        },
    };
    let transform = match value.get("transform") {
        Some(held) => match held.as_array() {
            Some(items) => match read_numbers(items) {
                Some(numbers) => numbers,
                None => {
                    return None;
                },
            },
            None => {
                return None;
            },
        },
        None => {
            return None;
        },
    };
    Some(ViewportState { zoom, transform })
}

/// The text under a key of an object.
fn read_text(value: &Json, key: &str) -> (r: Option<String>)
    ensures
        match r {
            Some(s) => value@.get(key@) == Some(Value::Text(s@)),
            None => !(value@.get(key@) matches Some(Value::Text(_))),
        },
{
    match value.get(key) {
        Some(held) => match held.as_str() {
            Some(s) => Some(s.to_owned()),
            None => None,
        },
        None => None,
    }
}

impl ViewportState {
    /// The viewport written as a value.
    pub fn to_json(&self) -> (r: Json)
        ensures
            r@ == encode_viewport(self.zoom, self.transform@),
    {
        let mut fields: Vec<(String, Json)> = Vec::new();
        fields.push(("zoom".to_owned(), Json::number(self.zoom)));
        fields.push(("transform".to_owned(), Json::list(write_numbers(&self.transform))));
        assert(entries(fields@) =~= encode_viewport(self.zoom, self.transform@)->Object_0);
        Json::object(fields)
    }
}

impl EaselFile {
    /// Reads a document from the value that its file holds. Fails where a
    /// member is missing or has the wrong shape, and names the first such
    /// member. Nothing is asked of the version but that it is a number.
    pub fn load(value: &Json) -> (r: Result<EaselFile, EaselError>)
        ensures
            match r {
                Ok(easel) => decode(value@) == Ok::<Document, Seq<char>>(easel@)
                    && easel@.well_formed(),
                Err(e) => decode(value@) matches Err(member) && e.kind == ErrorKind::Format
                    && e.subject@ == member,
            },
    {
        if value.as_object().is_none() {
            return Err(malformed("document"));
        }
        let format_version: u32 = match value.get("formatVersion") {
            Some(held) => match held.as_number() {
                Some(Number::Unsigned(n)) => {
                    if n > u32::MAX as u64 {
                        return Err(malformed("formatVersion"));
                    }
                    n as u32
                },
                _ => {
                    return Err(malformed("formatVersion"));
                },
            },
            None => {
                return Err(malformed("formatVersion"));
            },
        };
        let name = match read_text(value, "name") {
            Some(s) => s,
            None => {
                return Err(malformed("name"));
            },
        };
        let canvas = match value.get("canvas") {
            Some(held) => match read_canvas(held) {
                Some(canvas) => canvas,
                None => {
                    return Err(malformed("canvas"));
                },
            },
            None => {
                return Err(malformed("canvas"));
            },
        };
        let viewport = match value.get("viewport") {
            Some(held) => match read_viewport(held) {
                Some(viewport) => viewport,
                None => {
                    return Err(malformed("viewport"));
                },
            },
            None => {
                return Err(malformed("viewport"));
            },
        };
        let created_at = match read_text(value, "createdAt") {
            Some(s) => s,
            None => {
                return Err(malformed("createdAt"));
            },
        };
        let updated_at = match read_text(value, "updatedAt") {
            Some(s) => s,
            None => {
                return Err(malformed("updatedAt"));
            },
        };
        proof {
            lemma_decoded_well_formed(value@);
        }
        Ok(EaselFile { format_version, name, canvas, viewport, created_at, updated_at })
    }

    /// Writes the document as the value that its file holds: all of it, its
    /// six members in their order.
    pub fn save(&self) -> (r: Json)
        ensures
            r@ == encode(self@),
    {
        let mut fields: Vec<(String, Json)> = Vec::new();
        fields.push(("formatVersion".to_owned(), Json::unsigned(self.format_version as u64)));
        fields.push(("name".to_owned(), Json::text(self.name.as_str())));
        fields.push(("canvas".to_owned(), self.canvas.clone()));
        fields.push(("viewport".to_owned(), self.viewport.to_json()));
        fields.push(("createdAt".to_owned(), Json::text(self.created_at.as_str())));
        fields.push(("updatedAt".to_owned(), Json::text(self.updated_at.as_str())));
        assert(entries(fields@) =~= encode(self@)->Object_0);
        Json::object(fields)
    }
}

} // verus!
