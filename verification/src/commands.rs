//! The operations that callers ask for, on a document held in memory: what
//! each one takes, what it changes in the tree, and what it answers.

use crate::binary64::Binary64;
use crate::clock::{chrono_now, is_timestamp};
use crate::document::{lemma_with_objects, Document, EaselFile};
use crate::error::{EaselError, ErrorKind};
use crate::ident::{is_uuid_text, random_uuid};
use crate::json::{
    entries, is_first_with_key, lemma_first_with_key, lemma_object_view, lemma_upsert_other,
    lemma_upsert_same, lookup, set_field, upsert, values, Entries, Json, Number, Value,
};
use crate::text::{joined, same_text, texts};
use crate::tree::{
    find, has_id, id_key, is_first_with_id, lemma_first_with_id, locate, node_at, node_id,
    present, purged_all, put_at, removed_ids, type_key, Place,
};
use vstd::prelude::*;

verus! {

/// The encoding of the binary64 number 100, where a node stands unless told
/// otherwise.
pub const DEFAULT_POSITION_BITS: u64 = 0x4059_0000_0000_0000;

/// The encoding of the binary64 number 200, the width and height of a node
/// unless told otherwise.
pub const DEFAULT_SIZE_BITS: u64 = 0x4069_0000_0000_0000;

/// The encoding of the binary64 number 16, the font size of a text unless
/// told otherwise.
pub const DEFAULT_FONT_SIZE_BITS: u64 = 0x4030_0000_0000_0000;

/// What it takes to make a document file.
#[derive(Clone, Debug, PartialEq)]
pub struct CreateEaselFileParams {
    pub file_path: String,
    pub name: String,
}

/// What it takes to make a node.
#[derive(Clone, Debug, PartialEq)]
pub struct CreateObjectParams {
    pub file_path: String,
    pub object_type: String,
    pub x: Binary64,
    pub y: Binary64,
    pub width: Binary64,
    pub height: Binary64,
    pub fill: Option<String>,
    pub stroke: Option<String>,
    pub name: Option<String>,
    pub text: Option<String>,
    pub font_size: Option<Binary64>,
}

/// The name of a document that was given none.
pub fn default_canvas_name() -> (r: String)
    ensures
        r@ == "Untitled"@,
{
    "Untitled".to_owned()
}

/// Where a node stands unless told otherwise: 100.
pub fn default_position() -> (r: Binary64)
    ensures
        r.bits == DEFAULT_POSITION_BITS,
{
    Binary64 { bits: DEFAULT_POSITION_BITS }
}

/// The width and height of a node unless told otherwise: 200.
pub fn default_size() -> (r: Binary64)
    ensures
        r.bits == DEFAULT_SIZE_BITS,
{
    Binary64 { bits: DEFAULT_SIZE_BITS }
}

/// The font size of a text unless told otherwise: 16.
pub fn default_font_size() -> (r: Binary64)
    ensures
        r.bits == DEFAULT_FONT_SIZE_BITS,
{
    Binary64 { bits: DEFAULT_FONT_SIZE_BITS }
}

/// A request to make a node, as mathematics sees it.
pub struct CreateRequest {
    pub object_type: Seq<char>,
    pub x: Binary64,
    pub y: Binary64,
    pub width: Binary64,
    pub height: Binary64,
    pub fill: Option<Seq<char>>,
    pub stroke: Option<Seq<char>>,
    pub name: Option<Seq<char>>,
    pub text: Option<Seq<char>>,
    pub font_size: Option<Binary64>,
}

/// The characters of a text that may be missing.
pub open spec fn chars_of(s: Option<String>) -> Option<Seq<char>> {
    match s {
        Some(s) => Some(s@),
        None => None,
    }
}

impl View for CreateObjectParams {
    type V = CreateRequest;

    open spec fn view(&self) -> CreateRequest {
        CreateRequest {
            object_type: self.object_type@,
            x: self.x,
            y: self.y,
            width: self.width,
            height: self.height,
            fill: chars_of(self.fill),
            stroke: chars_of(self.stroke),
            name: chars_of(self.name),
            text: chars_of(self.text),
            font_size: self.font_size,
        }
    }
}

/// The text that was given, or else the default.
pub open spec fn text_or(given: Option<Seq<char>>, default: Seq<char>) -> Seq<char> {
    match given {
        Some(s) => s,
        None => default,
    }
}

/// A JSON number that holds a binary64.
pub open spec fn double(x: Binary64) -> Value {
    Value::Number(Number::Real(x))
}

/// Whether the type is one that nodes are made of.
pub open spec fn known_type(t: Seq<char>) -> bool {
    t == "rect"@ || t == "ellipse"@ || t == "text"@ || t == "frame"@
}

/// A new rectangle: grey fill, darker stroke of width one, its origin at
/// the top left.
pub open spec fn rect_node(p: CreateRequest, id: Seq<char>) -> Entries {
    seq![
        ("type"@, Value::Text("Rect"@)),
        ("id"@, Value::Text(id)),
        ("name"@, Value::Text(text_or(p.name, "Rectangle"@))),
        ("left"@, double(p.x)),
        ("top"@, double(p.y)),
        ("width"@, double(p.width)),
        ("height"@, double(p.height)),
        ("fill"@, Value::Text(text_or(p.fill, "#d9d9d9"@))),
        ("stroke"@, Value::Text(text_or(p.stroke, "#b3b3b3"@))),
        ("strokeWidth"@, Value::Number(Number::Unsigned(1))),
        ("strokeUniform"@, Value::Bool(true)),
        ("originX"@, Value::Text("left"@)),
        ("originY"@, Value::Text("top"@)),
        ("version"@, Value::Text("7.0.0"@)),
    ]
}

/// A new ellipse: the palette of a rectangle, and for its geometry the two
/// radii, which are half the width and half the height.
pub open spec fn ellipse_node(p: CreateRequest, id: Seq<char>) -> Entries {
    seq![
        ("type"@, Value::Text("Ellipse"@)),
        ("id"@, Value::Text(id)),
        ("name"@, Value::Text(text_or(p.name, "Ellipse"@))),
        ("left"@, double(p.x)),
        ("top"@, double(p.y)),
        ("rx"@, double(p.width.spec_halved())),
        ("ry"@, double(p.height.spec_halved())),
        ("fill"@, Value::Text(text_or(p.fill, "#d9d9d9"@))),
        ("stroke"@, Value::Text(text_or(p.stroke, "#b3b3b3"@))),
        ("strokeWidth"@, Value::Number(Number::Unsigned(1))),
        ("strokeUniform"@, Value::Bool(true)),
        ("originX"@, Value::Text("left"@)),
        ("originY"@, Value::Text("top"@)),
        ("version"@, Value::Text("7.0.0"@)),
    ]
}

/// A new text: white fill, font size sixteen, the default font family, and
/// a placeholder for its content.
pub open spec fn text_node(p: CreateRequest, id: Seq<char>) -> Entries {
    seq![
        ("type"@, Value::Text("IText"@)),
        ("id"@, Value::Text(id)),
        ("name"@, Value::Text(text_or(p.name, "Text"@))),
        ("text"@, Value::Text(text_or(p.text, "Text"@))),
        ("left"@, double(p.x)),
        ("top"@, double(p.y)),
        (
            "fontSize"@,
            double(
                match p.font_size {
                    Some(size) => size,
                    None => Binary64 { bits: DEFAULT_FONT_SIZE_BITS },
                },
            ),
        ),
        ("fontFamily"@, Value::Text("Inter, system-ui, sans-serif"@)),
        ("fill"@, Value::Text(text_or(p.fill, "#ffffff"@))),
        ("originX"@, Value::Text("left"@)),
        ("originY"@, Value::Text("top"@)),
        ("version"@, Value::Text("7.0.0"@)),
    ]
}

/// A new frame: a rectangle marked as a frame, white, with a light stroke.
/// The fill and the stroke that were asked for play no part.
pub open spec fn frame_node(p: CreateRequest, id: Seq<char>) -> Entries {
    seq![
        ("type"@, Value::Text("Rect"@)),
        ("id"@, Value::Text(id)),
        ("name"@, Value::Text(text_or(p.name, "Frame"@))),
        ("isFrame"@, Value::Bool(true)),
        ("left"@, double(p.x)),
        ("top"@, double(p.y)),
        ("width"@, double(p.width)),
        ("height"@, double(p.height)),
        ("fill"@, Value::Text("#ffffff"@)),
        ("stroke"@, Value::Text("#e0e0e0"@)),
        ("strokeWidth"@, Value::Number(Number::Unsigned(1))),
        ("strokeUniform"@, Value::Bool(true)),
        ("originX"@, Value::Text("left"@)),
        ("originY"@, Value::Text("top"@)),
        ("version"@, Value::Text("7.0.0"@)),
    ]
}

/// The node that a request makes under an identifier. The type decides its
/// members and their defaults; for a type that is not known there is no
/// node to speak of, and this is the empty object.
pub open spec fn new_node(p: CreateRequest, id: Seq<char>) -> Value {
    if p.object_type == "rect"@ {
        Value::Object(rect_node(p, id))
    } else if p.object_type == "ellipse"@ {
        Value::Object(ellipse_node(p, id))
    } else if p.object_type == "text"@ {
        Value::Object(text_node(p, id))
    } else if p.object_type == "frame"@ {
        Value::Object(frame_node(p, id))
    } else {
        Value::Object(Seq::empty())
    }
}

/// Appends a member that holds a text.
fn put_text(fields: &mut Vec<(String, Json)>, key: &str, value: &str)
    ensures
        entries(final(fields)@) == entries(old(fields)@).push((key@, Value::Text(value@))),
{
    fields.push((key.to_owned(), Json::text(value)));
    assert(entries(fields@) =~= entries(old(fields)@).push((key@, Value::Text(value@))));
}

/// Appends a member that holds a binary64.
fn put_real(fields: &mut Vec<(String, Json)>, key: &str, value: Binary64)
    ensures
        entries(final(fields)@) == entries(old(fields)@).push((key@, double(value))),
{
    fields.push((key.to_owned(), Json::binary64(value)));
    assert(entries(fields@) =~= entries(old(fields)@).push((key@, double(value))));
}

/// Appends a member.
fn put(fields: &mut Vec<(String, Json)>, key: &str, value: Json)
    ensures
        entries(final(fields)@) == entries(old(fields)@).push((key@, value@)),
{
    fields.push((key.to_owned(), value));
    assert(entries(fields@) =~= entries(old(fields)@).push((key@, value@)));
}

/// The text that was given, or else the default.
fn given_or<'a>(given: &'a Option<String>, default: &'a str) -> (r: &'a str)
    ensures
        r@ == text_or(chars_of(*given), default@),
{
    match given {
        Some(s) => s.as_str(),
        None => default,
    }
}

/// The members that every new node ends with: where its origin lies, and
/// the renderer's version tag.
fn put_tail(fields: &mut Vec<(String, Json)>)
    ensures
        entries(final(fields)@) == entries(old(fields)@).push(
            ("originX"@, Value::Text("left"@)),
        ).push(("originY"@, Value::Text("top"@))).push(("version"@, Value::Text("7.0.0"@))),
{
    put_text(fields, "originX", "left");
    put_text(fields, "originY", "top");
    put_text(fields, "version", "7.0.0");
}

/// The members of a stroke of width one that keeps its width under scaling.
fn put_stroke_width(fields: &mut Vec<(String, Json)>)
    ensures
        entries(final(fields)@) == entries(old(fields)@).push(
            ("strokeWidth"@, Value::Number(Number::Unsigned(1))),
        ).push(("strokeUniform"@, Value::Bool(true))),
{
    put(fields, "strokeWidth", Json::unsigned(1));
    put(fields, "strokeUniform", Json::Bool(true));
}

/// Makes the node that a request asks for, under the given identifier. A
/// request for a type that is not known fails, and names the type.
pub fn build_object(params: &CreateObjectParams, id: &str) -> (r: Result<Json, EaselError>)
    ensures
        match r {
            Ok(node) => known_type(params@.object_type) && node@ == new_node(params@, id@),
            Err(e) => !known_type(params@.object_type) && e.kind == ErrorKind::InvalidArgument
                && e.subject@ == params@.object_type,
        },
{
    let kind = params.object_type.as_str();
    let mut fields: Vec<(String, Json)> = Vec::new();
    assert(entries(fields@) =~= Seq::empty());
    if same_text(kind, "rect") {
        put_text(&mut fields, "type", "Rect");
        put_text(&mut fields, "id", id);
        put_text(&mut fields, "name", given_or(&params.name, "Rectangle"));
        put_real(&mut fields, "left", params.x);
        put_real(&mut fields, "top", params.y);
        put_real(&mut fields, "width", params.width);
        put_real(&mut fields, "height", params.height);
        put_text(&mut fields, "fill", given_or(&params.fill, "#d9d9d9"));
        put_text(&mut fields, "stroke", given_or(&params.stroke, "#b3b3b3"));
        put_stroke_width(&mut fields);
        put_tail(&mut fields);
        assert(entries(fields@) =~= rect_node(params@, id@));
        Ok(Json::object(fields))
    } else if same_text(kind, "ellipse") {
        put_text(&mut fields, "type", "Ellipse");
        put_text(&mut fields, "id", id);
        put_text(&mut fields, "name", given_or(&params.name, "Ellipse"));
        put_real(&mut fields, "left", params.x);
        put_real(&mut fields, "top", params.y);
        put_real(&mut fields, "rx", params.width.halved());
        put_real(&mut fields, "ry", params.height.halved());
        put_text(&mut fields, "fill", given_or(&params.fill, "#d9d9d9"));
        put_text(&mut fields, "stroke", given_or(&params.stroke, "#b3b3b3"));
        put_stroke_width(&mut fields);
        put_tail(&mut fields);
        assert(entries(fields@) =~= ellipse_node(params@, id@));
        Ok(Json::object(fields))
    } else if same_text(kind, "text") {
        let size = match params.font_size {
            Some(size) => size,
            None => default_font_size(),
        };
        put_text(&mut fields, "type", "IText");
        put_text(&mut fields, "id", id);
        put_text(&mut fields, "name", given_or(&params.name, "Text"));
        put_text(&mut fields, "text", given_or(&params.text, "Text"));
        put_real(&mut fields, "left", params.x);
        put_real(&mut fields, "top", params.y);
        put_real(&mut fields, "fontSize", size);
        put_text(&mut fields, "fontFamily", "Inter, system-ui, sans-serif");
        put_text(&mut fields, "fill", given_or(&params.fill, "#ffffff"));
        put_tail(&mut fields);
        assert(entries(fields@) =~= text_node(params@, id@));
        Ok(Json::object(fields))
    } else if same_text(kind, "frame") {
        put_text(&mut fields, "type", "Rect");
        put_text(&mut fields, "id", id);
        put_text(&mut fields, "name", given_or(&params.name, "Frame"));
        put(&mut fields, "isFrame", Json::Bool(true));
        put_real(&mut fields, "left", params.x);
        put_real(&mut fields, "top", params.y);
        put_real(&mut fields, "width", params.width);
        put_real(&mut fields, "height", params.height);
        put_text(&mut fields, "fill", "#ffffff");
        put_text(&mut fields, "stroke", "#e0e0e0");
        put_stroke_width(&mut fields);
        put_tail(&mut fields);
        assert(entries(fields@) =~= frame_node(params@, id@));
        Ok(Json::object(fields))
    } else {
        Err(EaselError::new(ErrorKind::InvalidArgument, kind))
    }
}

/// A document with its last change stamped at a moment.
pub open spec fn touched(d: Document, now: Seq<char>) -> Document {
    Document { updated_at: now, ..d }
}

/// The document after a node was made in it: the node stands last at the
/// top level, and the change is stamped. Where the type is not known the
/// document is as before.
pub open spec fn after_create(
    d: Document,
    p: CreateRequest,
    id: Seq<char>,
    now: Seq<char>,
) -> Document {
    if known_type(p.object_type) {
        touched(d.with_objects(d.objects().push(new_node(p, id))), now)
    } else {
        d
    }
}

/// A new node carries the identifier it was made under.
pub proof fn lemma_new_node_id(p: CreateRequest, id: Seq<char>)
    requires
        known_type(p.object_type),
    ensures
        node_id(new_node(p, id)) == Some(id),
{
    reveal_strlit("type");
    reveal_strlit("id");
    let fields = new_node(p, id)->Object_0;
    assert(fields[0].0.len() == 4);
    assert(id_key().len() == 2);
    assert(fields[1].0 == id_key());
    assert(is_first_with_key(fields, id_key(), 1));
    lemma_first_with_key(fields, id_key(), 1);
}

/// A node made under an identifier that did not occur in the tree is the
/// one node that a search for the identifier finds, and it stands last at
/// the top level.
pub proof fn lemma_created_is_found(nodes: Seq<Value>, p: CreateRequest, id: Seq<char>)
    requires
        known_type(p.object_type),
        !present(nodes, id),
    ensures
        locate(nodes.push(new_node(p, id)), id) == Some(Place::Top(nodes.len() as int)),
        find(nodes.push(new_node(p, id)), id) == Some(new_node(p, id)),
{
    lemma_new_node_id(p, id);
    let after = nodes.push(new_node(p, id));
    let last = nodes.len() as int;
    assert forall|k: int| 0 <= k < last implies !has_id(#[trigger] after[k], id) by {
        assert(after[k] == nodes[k]);
    }
    assert(is_first_with_id(after, id, last));
    lemma_first_with_id(after, id, last);
}

/// Makes the node that a request asks for, under the given identifier, puts
/// it last at the top level of the document, and stamps the change. A
/// request for a type that is not known fails and leaves the document as it
/// was.
pub fn create_object_with(
    easel: &mut EaselFile,
    params: &CreateObjectParams,
    id: &str,
    now: &str,
) -> (r: Result<Json, EaselError>)
    requires
        old(easel)@.well_formed(),
    ensures
        final(easel)@ == after_create(old(easel)@, params@, id@, now@),
        final(easel)@.well_formed(),
        match r {
            Ok(node) => known_type(params@.object_type) && node@ == new_node(params@, id@),
            Err(e) => !known_type(params@.object_type) && e.kind == ErrorKind::InvalidArgument
                && e.subject@ == params@.object_type,
        },
{
    let ghost before = easel@;
    match build_object(params, id) {
        Ok(node) => {
            let copy = node.clone();
            let objects = easel.objects_mut();
            let ghost listed = values(objects@);
            objects.push(node);
            assert(values(objects@) =~= listed.push(copy@));
            easel.updated_at = now.to_owned();
            proof {
                lemma_with_objects(before, before.objects().push(copy@), Seq::empty());
            }
            Ok(copy)
        },
        Err(e) => Err(e),
    }
}

/// Makes the node that a request asks for, under a fresh random identifier,
/// puts it last at the top level of the document, and stamps the change with
/// the present moment. The identifier is drawn, not checked against the
/// tree.
pub fn create_object(easel: &mut EaselFile, params: &CreateObjectParams) -> (r: Result<
    Json,
    EaselError,
>)
    requires
        old(easel)@.well_formed(),
    ensures
        final(easel)@.well_formed(),
        exists|id: Seq<char>, now: Seq<char>|
            is_uuid_text(id) && is_timestamp(now) && final(easel)@ == after_create(
                old(easel)@,
                params@,
                id,
                now,
            ) && (match r {
                Ok(node) => node@ == new_node(params@, id),
                Err(_) => true,
            }),
        match r {
            Ok(_) => known_type(params@.object_type),
            Err(e) => !known_type(params@.object_type) && e.kind == ErrorKind::InvalidArgument
                && e.subject@ == params@.object_type,
        },
{
    let id = random_uuid();
    let now = chrono_now();
    create_object_with(easel, params, id.as_str(), now.as_str())
}

/// The document that a node is made in: the one that was loaded, or, where
/// no file stood at the path, a new one without a name of its own.
pub fn document_for_create(loaded: Option<EaselFile>, now: &str) -> (r: EaselFile)
    ensures
        match loaded {
            Some(easel) => r == easel,
            None => r@ == crate::document::new_document("Untitled"@, now@),
        },
        loaded is None ==> r@.well_formed(),
{
    match loaded {
        Some(easel) => easel,
        None => EaselFile::with_timestamp("Untitled", now),
    }
}

/// Whether a key is one that a change of properties leaves alone.
pub open spec fn protected(key: Seq<char>) -> bool {
    key == id_key() || key == type_key()
}

/// The entries of a node after properties were merged in, one after the
/// other: each sets its key, but for `id` and `type`, which are passed over.
pub open spec fn merged(fields: Entries, props: Entries) -> Entries
    decreases props.len(),
{
    if props.len() == 0 {
        fields
    } else if protected(props.last().0) {
        merged(fields, props.drop_last())
    } else {
        upsert(merged(fields, props.drop_last()), props.last().0, props.last().1)
    }
}

/// A node after properties were merged in. Where the node or the properties
/// are no object, the node is as before.
pub open spec fn merge_into(node: Value, props: Value) -> Value {
    match (node, props) {
        (Value::Object(fields), Value::Object(supplied)) => Value::Object(
            merged(fields, supplied),
        ),
        _ => node,
    }
}

/// What the properties supply under a key: the value of the last entry with
/// the key.
pub open spec fn supplied(props: Entries, key: Seq<char>) -> Option<Value>
    decreases props.len(),
{
    if props.len() == 0 {
        None
    } else if props.last().0 == key {
        Some(props.last().1)
    } else {
        supplied(props.drop_last(), key)
    }
}

/// A merge changes what the properties supply and nothing else: under `id`
/// and `type` a node holds what it held; under any other key it holds what
/// the properties supply, and what it held where they supply nothing.
pub proof fn lemma_merged_lookup(fields: Entries, props: Entries, key: Seq<char>)
    ensures
        lookup(merged(fields, props), key) == if protected(key) {
            lookup(fields, key)
        } else {
            match supplied(props, key) {
                Some(v) => Some(v),
                None => lookup(fields, key),
            }
        },
    decreases props.len(),
{
    if props.len() > 0 {
        let earlier = props.drop_last();
        lemma_merged_lookup(fields, earlier, key);
        if !protected(props.last().0) {
            if props.last().0 == key {
                lemma_upsert_same(merged(fields, earlier), key, props.last().1);
            } else {
                lemma_upsert_other(merged(fields, earlier), props.last().0, props.last().1, key);
            }
        }
    }
}

/// A merge leaves the identifier of a node as it was.
pub proof fn lemma_merge_keeps_id(node: Value, props: Value)
    ensures
        node_id(merge_into(node, props)) == node_id(node),
        merge_into(node, props).get(type_key()) == node.get(type_key()),
{
    match (node, props) {
        (Value::Object(fields), Value::Object(supplied)) => {
            lemma_merged_lookup(fields, supplied, id_key());
            lemma_merged_lookup(fields, supplied, type_key());
        },
        _ => {},
    }
}

/// Whether a key is one that a change of properties leaves alone.
pub fn is_protected(key: &str) -> (r: bool)
    ensures
        r == protected(key@),
{
    same_text(key, "id") || same_text(key, "type")
}

/// Merges properties into a node: each one sets its key, but for `id` and
/// `type`, which are passed over. Where the node or the properties are no
/// object, nothing happens.
pub fn merge_properties(node: &mut Json, properties: &Json)
    ensures
        final(node)@ == merge_into(old(node)@, properties@),
{
    match properties.as_object() {
        Some(source) => {
            match node {
                Json::Object(fields) => {
                    proof {
                        lemma_object_view(*fields);
                    }
                    let ghost before = entries(fields@);
                    let ghost props = entries(source@);
                    let mut i: usize = 0;
                    assert(props.take(0) =~= Seq::empty());
                    while i < source.len()
                        invariant
                            i <= source@.len(),
                            props == entries(source@),
                            entries(fields@) == merged(before, props.take(i as int)),
                        decreases source@.len() - i,
                    {
                        proof {
                            assert(props.take(i + 1).drop_last() =~= props.take(i as int));
                            assert(props.take(i + 1).last() == props[i as int]);
                        }
                        if !is_protected(source[i].0.as_str()) {
                            let value = source[i].1.clone();
                            set_field(fields, source[i].0.as_str(), value);
                        }
                        i += 1;
                    }
                    proof {
                        assert(props.take(i as int) =~= props);
                        lemma_object_view(*fields);
                    }
                },
                _ => {},
            }
        },
        None => {},
    }
}

/// The document after a node was changed: the node stands where it stood,
/// with the properties merged in, and the change is stamped. Where no node
/// carries the identifier the document is as before.
pub open spec fn after_update(
    d: Document,
    id: Seq<char>,
    props: Value,
    now: Seq<char>,
) -> Document {
    match locate(d.objects(), id) {
        Some(place) => touched(
            d.with_objects(
                put_at(d.objects(), place, merge_into(node_at(d.objects(), place), props)),
            ),
            now,
        ),
        None => d,
    }
}

/// A node that was changed is found under its identifier as before, in the
/// same place and with the properties merged in; no node is added or lost.
pub proof fn lemma_updated_is_found(
    d: Document,
    id: Seq<char>,
    props: Value,
    now: Seq<char>,
)
    requires
        d.well_formed(),
        locate(d.objects(), id) is Some,
    ensures
        locate(after_update(d, id, props, now).objects(), id) == locate(d.objects(), id),
        find(after_update(d, id, props, now).objects(), id) == Some(
            merge_into(node_at(d.objects(), locate(d.objects(), id)->0), props),
        ),
        after_update(d, id, props, now).objects().len() == d.objects().len(),
{
    let nodes = d.objects();
    let place = locate(nodes, id)->0;
    let node = node_at(nodes, place);
    crate::tree::lemma_located(nodes, id);
    lemma_merge_keeps_id(node, props);
    crate::tree::lemma_put_at_found(nodes, id, merge_into(node, props));
    lemma_with_objects(d, put_at(nodes, place, merge_into(node, props)), Seq::empty());
}

/// Merges properties into the node that a search for the identifier finds,
/// stamps the change, and returns the node as it then is. Fails, and leaves
/// the document as it was, where no node carries the identifier at either
/// level.
pub fn update_object_at(easel: &mut EaselFile, id: &str, properties: &Json, now: &str) -> (r:
    Result<Json, EaselError>)
    requires
        old(easel)@.well_formed(),
    ensures
        final(easel)@ == after_update(old(easel)@, id@, properties@, now@),
        final(easel)@.well_formed(),
        match r {
            Ok(node) => locate(old(easel)@.objects(), id@) matches Some(place) && node@
                == merge_into(node_at(old(easel)@.objects(), place), properties@),
            Err(e) => locate(old(easel)@.objects(), id@) is None && e.kind == ErrorKind::NotFound
                && e.subject@ == id@,
        },
{
    let ghost before = easel@;
    let updated = match easel.find_object_mut(id) {
        Some(node) => {
            merge_properties(node, properties);
            node.clone()
        },
        None => {
            return Err(EaselError::new(ErrorKind::NotFound, id));
        },
    };
    easel.updated_at = now.to_owned();
    proof {
        let place = locate(before.objects(), id@)->0;
        lemma_with_objects(before, put_at(before.objects(), place, updated@), Seq::empty());
    }
    Ok(updated)
}

/// Merges properties into the node that a search for the identifier finds,
/// stamps the change with the present moment, and returns the node as it
/// then is.
pub fn update_object(easel: &mut EaselFile, id: &str, properties: &Json) -> (r: Result<
    Json,
    EaselError,
>)
    requires
        old(easel)@.well_formed(),
    ensures
        final(easel)@.well_formed(),
        exists|now: Seq<char>|
            is_timestamp(now) && final(easel)@ == after_update(
                old(easel)@,
                id@,
                properties@,
                now,
            ),
        match r {
            Ok(node) => locate(old(easel)@.objects(), id@) matches Some(place) && node@
                == merge_into(node_at(old(easel)@.objects(), place), properties@),
            Err(e) => locate(old(easel)@.objects(), id@) is None && e.kind == ErrorKind::NotFound
                && e.subject@ == id@,
        },
{
    let now = chrono_now();
    update_object_at(easel, id, properties, now.as_str())
}

/// The texts of the first sequence that do not occur in the second, in
/// their order.
pub open spec fn not_among(asked: Seq<Seq<char>>, taken: Seq<Seq<char>>) -> Seq<Seq<char>>
    decreases asked.len(),
{
    if asked.len() == 0 {
        Seq::empty()
    } else if taken.contains(asked.last()) {
        not_among(asked.drop_last(), taken)
    } else {
        not_among(asked.drop_last(), taken).push(asked.last())
    }
}

/// A text is reported as not found exactly when it was asked for and is
/// not among those taken: so every identifier that was asked for is either
/// among the deleted or among the not found, and never both.
pub proof fn lemma_not_among(asked: Seq<Seq<char>>, taken: Seq<Seq<char>>, id: Seq<char>)
    ensures
        not_among(asked, taken).contains(id) == (asked.contains(id) && !taken.contains(id)),
    decreases asked.len(),
{
    if asked.len() > 0 {
        let earlier = asked.drop_last();
        let before = not_among(earlier, taken);
        let out = not_among(asked, taken);
        lemma_not_among(earlier, taken, id);
        if asked.contains(id) {
            let k = choose|k: int| 0 <= k < asked.len() && asked[k] == id;
            if k < earlier.len() {
                assert(earlier[k] == id);
            }
        }
        if earlier.contains(id) {
            let k = choose|k: int| 0 <= k < earlier.len() && earlier[k] == id;
            assert(asked[k] == id);
        }
        assert(asked[asked.len() - 1] == asked.last());
        if out.contains(id) {
            let k = choose|k: int| 0 <= k < out.len() && out[k] == id;
            if k < before.len() {
                assert(before[k] == id);
            }
        }
        if before.contains(id) && !taken.contains(asked.last()) {
            let k = choose|k: int| 0 <= k < before.len() && before[k] == id;
            assert(out[k] == id);
        }
        if !taken.contains(asked.last()) {
            assert(out[out.len() - 1] == asked.last());
        }
    }
}

/// Whether the text occurs in the list.
pub fn occurs_in(list: &Vec<String>, s: &str) -> (r: bool)
    ensures
        r == texts(list@).contains(s@),
{
    let mut i: usize = 0;
    while i < list.len()
        invariant
            i <= list@.len(),
            forall|k: int| 0 <= k < i ==> texts(list@)[k] != s@,
        decreases list@.len() - i,
    {
        if same_text(list[i].as_str(), s) {
            assert(texts(list@)[i as int] == s@);
            return true;
        }
        i += 1;
    }
    false
}

/// What a deletion did: the identifiers that took something away, and those
/// that found nothing to take.
#[derive(Clone, Debug, PartialEq)]
pub struct DeleteReport {
    pub deleted: Vec<String>,
    pub not_found: Vec<String>,
}

/// The document after identifiers were deleted: none of them occurs any
/// more, and the change is stamped, whether or not anything was taken away.
pub open spec fn after_delete(d: Document, ids: Seq<Seq<char>>, now: Seq<char>) -> Document {
    touched(d.with_objects(purged_all(d.objects(), ids)), now)
}

/// Takes the identifiers out of the tree at both levels, stamps the change,
/// and reports which identifiers took something away and which did not. An
/// identifier that finds nothing is no failure.
pub fn delete_objects_at(easel: &mut EaselFile, ids: &[String], now: &str) -> (r: DeleteReport)
    requires
        old(easel)@.well_formed(),
    ensures
        final(easel)@ == after_delete(old(easel)@, texts(ids@), now@),
        final(easel)@.well_formed(),
        texts(r.deleted@) == removed_ids(old(easel)@.objects(), texts(ids@)),
        texts(r.not_found@) == not_among(texts(ids@), texts(r.deleted@)),
        forall|k: int|
            0 <= k < ids@.len() ==> !present(final(easel)@.objects(), #[trigger] ids@[k]@),
{
    let deleted = easel.remove_objects(ids);
    let ghost asked = texts(ids@);
    let ghost taken = texts(deleted@);
    let mut not_found: Vec<String> = Vec::new();
    let mut i: usize = 0;
    proof {
        assert(asked.take(0) =~= Seq::empty());
        assert(texts(not_found@) =~= Seq::empty());
    }
    while i < ids.len()
        invariant
            i <= ids@.len(),
            asked == texts(ids@),
            taken == texts(deleted@),
            texts(not_found@) == not_among(asked.take(i as int), taken),
        decreases ids@.len() - i,
    {
        proof {
            assert(asked.take(i + 1).drop_last() =~= asked.take(i as int));
            assert(asked.take(i + 1).last() == ids@[i as int]@);
        }
        if !occurs_in(&deleted, ids[i].as_str()) {
            let ghost earlier = texts(not_found@);
            not_found.push(ids[i].clone());
            assert(texts(not_found@) =~= earlier.push(ids@[i as int]@));
        }
        i += 1;
    }
    proof {
        assert(asked.take(i as int) =~= asked);
    }
    easel.updated_at = now.to_owned();
    DeleteReport { deleted, not_found }
}

/// Takes the identifiers out of the tree at both levels, stamps the change
/// with the present moment, and reports which identifiers took something
/// away and which did not.
pub fn delete_objects(easel: &mut EaselFile, ids: &[String]) -> (r: DeleteReport)
    requires
        old(easel)@.well_formed(),
    ensures
        final(easel)@.well_formed(),
        exists|now: Seq<char>|
            is_timestamp(now) && final(easel)@ == after_delete(old(easel)@, texts(ids@), now),
        texts(r.deleted@) == removed_ids(old(easel)@.objects(), texts(ids@)),
        texts(r.not_found@) == not_among(texts(ids@), texts(r.deleted@)),
        forall|k: int|
            0 <= k < ids@.len() ==> !present(final(easel)@.objects(), #[trigger] ids@[k]@),
{
    let now = chrono_now();
    delete_objects_at(easel, ids, now.as_str())
}

/// The node that a search for the identifier finds. Fails where no node
/// carries the identifier at either level.
pub fn get_object<'a>(easel: &'a EaselFile, id: &str) -> (r: Result<&'a Json, EaselError>)
    ensures
        match r {
            Ok(node) => find(easel@.objects(), id@) == Some(node@),
            Err(e) => find(easel@.objects(), id@) is None && e.kind == ErrorKind::NotFound
                && e.subject@ == id@,
        },
{
    match easel.find_object(id) {
        Some(node) => Ok(node),
        None => Err(EaselError::new(ErrorKind::NotFound, id)),
    }
}

/// Makes the document for a file that is to be created, stamped with the
/// given moment. Fails where a file stands at the path already: nothing is
/// ever written over.
pub fn create_easel_file_at(params: &CreateEaselFileParams, exists: bool, now: &str) -> (r:
    Result<EaselFile, EaselError>)
    ensures
        match r {
            Ok(easel) => !exists && easel@ == crate::document::new_document(params.name@, now@)
                && easel@.well_formed(),
            Err(e) => exists && e.kind == ErrorKind::AlreadyExists && e.subject@
                == params.file_path@,
        },
{
    if exists {
        Err(EaselError::new(ErrorKind::AlreadyExists, params.file_path.as_str()))
    } else {
        Ok(EaselFile::with_timestamp(params.name.as_str(), now))
    }
}

/// Makes the document for a file that is to be created, stamped with the
/// present moment. Fails where a file stands at the path already.
pub fn create_easel_file(params: &CreateEaselFileParams, exists: bool) -> (r: Result<
    EaselFile,
    EaselError,
>)
    ensures
        match r {
            Ok(easel) => !exists && easel@.well_formed() && exists|now: Seq<char>|
                is_timestamp(now) && easel@ == crate::document::new_document(params.name@, now),
            Err(e) => exists && e.kind == ErrorKind::AlreadyExists && e.subject@
                == params.file_path@,
        },
{
    let now = chrono_now();
    create_easel_file_at(params, exists, now.as_str())
}

/// One line of a listing: where a document lies, its name, and how many
/// nodes stand at the top level of its canvas.
#[derive(Clone, Debug, PartialEq)]
pub struct EaselFileInfo {
    pub path: String,
    pub name: String,
    pub object_count: usize,
}

/// A file that a search came across: its path, and its document where the
/// content could be read as one.
#[derive(Clone, Debug, PartialEq)]
pub struct FoundFile {
    pub path: String,
    pub document: Option<EaselFile>,
}

/// One line of a listing, as mathematics sees it.
pub struct InfoLine {
    pub path: Seq<char>,
    pub name: Seq<char>,
    pub object_count: nat,
}

impl View for EaselFileInfo {
    type V = InfoLine;

    open spec fn view(&self) -> InfoLine {
        InfoLine { path: self.path@, name: self.name@, object_count: self.object_count as nat }
    }
}

/// The lines that a list of entries stands for.
pub open spec fn lines(infos: Seq<EaselFileInfo>) -> Seq<InfoLine> {
    Seq::new(infos.len(), |i: int| infos[i]@)
}

/// The listing of what a search came across: one line for each file that
/// holds a document, in the order found; a file that holds none is passed
/// over.
pub open spec fn listing(found: Seq<FoundFile>) -> Seq<InfoLine>
    decreases found.len(),
{
    if found.len() == 0 {
        Seq::empty()
    } else {
        match found.last().document {
            Some(easel) => listing(found.drop_last()).push(
                InfoLine {
                    path: found.last().path@,
                    name: easel@.name,
                    object_count: easel@.objects().len(),
                },
            ),
            None => listing(found.drop_last()),
        }
    }
}

/// Lists what a search came across: one line for each file that holds a
/// document; a file whose content could not be read as one is passed over
/// and is no failure.
pub fn list_easel_files(found: &Vec<FoundFile>) -> (r: Vec<EaselFileInfo>)
    ensures
        lines(r@) == listing(found@),
{
    let mut out: Vec<EaselFileInfo> = Vec::new();
    let mut i: usize = 0;
    proof {
        assert(found@.take(0) =~= Seq::empty());
        assert(lines(out@) =~= Seq::empty());
    }
    while i < found.len()
        invariant
            i <= found@.len(),
            lines(out@) == listing(found@.take(i as int)),
        decreases found@.len() - i,
    {
        proof {
            assert(found@.take(i + 1).drop_last() =~= found@.take(i as int));
            assert(found@.take(i + 1).last() == found@[i as int]);
        }
        match &found[i].document {
            Some(easel) => {
                let ghost earlier = lines(out@);
                let info = EaselFileInfo {
                    path: found[i].path.clone(),
                    name: easel.name.clone(),
                    object_count: easel.objects().len(),
                };
                out.push(info);
                assert(lines(out@) =~= earlier.push(info@));
            },
            None => {},
        }
        i += 1;
    }
    proof {
        assert(found@.take(i as int) =~= found@);
    }
    out
}

/// The pattern that finds the document files under a directory, at any
/// depth.
pub fn search_pattern(directory: &str) -> (r: String)
    ensures
        r@ == directory@ + "/**/*.easel"@,
{
    joined(directory, "/**/*.easel")
}

/// The text values of a sequence of texts.
pub open spec fn text_values(items: Seq<Seq<char>>) -> Seq<Value> {
    Seq::new(items.len(), |i: int| Value::Text(items[i]))
}

/// The text values of a list of strings.
pub fn write_texts(items: &Vec<String>) -> (r: Vec<Json>)
    ensures
        values(r@) == text_values(texts(items@)),
{
    let mut out: Vec<Json> = Vec::new();
    let mut i: usize = 0;
    while i < items.len()
        invariant
            i <= items@.len(),
            out@.len() == i,
            forall|k: int| 0 <= k < i ==> out@[k]@ == Value::Text(items@[k]@),
        decreases items@.len() - i,
    {
        out.push(Json::text(items[i].as_str()));
        i += 1;
    }
    assert(values(out@) =~= text_values(texts(items@)));
    out
}

/// The answer to the making of a document file.
pub open spec fn created_answer(path: Seq<char>, name: Seq<char>) -> Value {
    Value::Object(
        seq![
            ("filePath"@, Value::Text(path)),
            ("name"@, Value::Text(name)),
            ("message"@, Value::Text("Created new .easel file"@)),
        ],
    )
}

/// The answer to the making of a document file: where it lies, its name, and
/// a word that it was made.
pub fn created_file_answer(params: &CreateEaselFileParams) -> (r: Json)
    ensures
        r@ == created_answer(params.file_path@, params.name@),
{
    let mut fields: Vec<(String, Json)> = Vec::new();
    fields.push(("filePath".to_owned(), Json::text(params.file_path.as_str())));
    fields.push(("name".to_owned(), Json::text(params.name.as_str())));
    fields.push(("message".to_owned(), Json::text("Created new .easel file")));
    assert(entries(fields@) =~= created_answer(params.file_path@, params.name@)->Object_0);
    Json::object(fields)
}

/// One line of a listing, written as a value.
pub open spec fn line_value(line: InfoLine) -> Value {
    Value::Object(
        seq![
            ("path"@, Value::Text(line.path)),
            ("name"@, Value::Text(line.name)),
            ("objectCount"@, Value::Number(Number::Unsigned(line.object_count as u64))),
        ],
    )
}

/// A listing, written as a value.
pub open spec fn listing_value(listed: Seq<InfoLine>) -> Value {
    Value::List(Seq::new(listed.len(), |i: int| line_value(listed[i])))
}

impl EaselFileInfo {
    /// The line written as a value.
    pub fn to_json(&self) -> (r: Json)
        ensures
            r@ == line_value(self@),
    {
        let mut fields: Vec<(String, Json)> = Vec::new();
        fields.push(("path".to_owned(), Json::text(self.path.as_str())));
        fields.push(("name".to_owned(), Json::text(self.name.as_str())));
        fields.push(("objectCount".to_owned(), Json::unsigned(self.object_count as u64)));
        assert(entries(fields@) =~= line_value(self@)->Object_0);
        Json::object(fields)
    }
}

/// The answer to a listing: its lines, in their order.
pub fn listing_answer(infos: &Vec<EaselFileInfo>) -> (r: Json)
    ensures
        r@ == listing_value(lines(infos@)),
{
    let mut out: Vec<Json> = Vec::new();
    let mut i: usize = 0;
    while i < infos.len()
        invariant
            i <= infos@.len(),
            out@.len() == i,
            forall|k: int| 0 <= k < i ==> out@[k]@ == line_value(infos@[k]@),
        decreases infos@.len() - i,
    {
        out.push(infos[i].to_json());
        i += 1;
    }
    assert(values(out@) =~= listing_value(lines(infos@))->List_0);
    Json::list(out)
}

/// The answer to a deletion, written as a value.
pub open spec fn deletion_value(deleted: Seq<Seq<char>>, not_found: Seq<Seq<char>>) -> Value {
    Value::Object(
        seq![
            ("deleted"@, Value::List(text_values(deleted))),
            ("notFound"@, Value::List(text_values(not_found))),
        ],
    )
}

impl DeleteReport {
    /// The answer to a deletion: the identifiers that took something away,
    /// and those that found nothing to take.
    pub fn to_json(&self) -> (r: Json)
        ensures
            r@ == deletion_value(texts(self.deleted@), texts(self.not_found@)),
    {
        let mut fields: Vec<(String, Json)> = Vec::new();
        fields.push(("deleted".to_owned(), Json::list(write_texts(&self.deleted))));
        fields.push(("notFound".to_owned(), Json::list(write_texts(&self.not_found))));
        assert(entries(fields@) =~= deletion_value(
            texts(self.deleted@),
            texts(self.not_found@),
        )->Object_0);
        Json::object(fields)
    }
}

} // verus!
