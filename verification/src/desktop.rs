//! What the desktop application keeps beside the document files: the rows
//! of its index, and how a document file and a row of the index are made
//! from one another.

use crate::codec::{
    all_numbers, canvas_shaped, normal_canvas, numbers_of, read_canvas, read_numbers,
};
use crate::document::{
    empty_canvas, identity_transform, lemma_new_document, new_canvas, Document, EaselFile,
    ViewportState, FORMAT_VERSION,
};
use crate::error::{EaselError, ErrorKind};
use crate::json::{Json, Number, Value};
use vstd::prelude::*;

verus! {

/// One document in the index.
#[derive(Clone, Debug, PartialEq)]
pub struct CanvasMeta {
    pub id: String,
    pub name: String,
    pub sort_order: i32,
    pub created_at: String,
    pub updated_at: String,
}

/// The content of one document, as the window of the application takes and
/// gives it: the canvas and the transform as JSON text.
#[derive(Clone, Debug, PartialEq)]
pub struct CanvasState {
    pub canvas_id: String,
    pub canvas_json: String,
    pub zoom: Number,
    pub viewport_transform: String,
    pub updated_at: String,
}

/// One conversation about a document.
#[derive(Clone, Debug, PartialEq)]
pub struct ChatSession {
    pub id: String,
    pub canvas_id: String,
    pub model: String,
    pub name: String,
    pub created_at: String,
    pub updated_at: String,
}

/// One message of a conversation, as the index holds it.
#[derive(Clone, Debug, PartialEq)]
pub struct ChatMessageRow {
    pub id: String,
    pub session_id: String,
    pub role: String,
    pub content: String,
    pub created_at: String,
}

/// One message of a conversation, on its way into the index.
#[derive(Clone, Debug, PartialEq)]
pub struct NewChatMessage {
    pub id: String,
    pub session_id: String,
    pub role: String,
    pub content: String,
}

/// The row under which a document file that the index does not know yet is
/// entered: it takes the name and both timestamps from the file, and its
/// place in the order behind the rows that are there and those entered
/// before it in the same pass.
pub fn registration(id: &str, easel: &EaselFile, count: i32, offset: i32) -> (r: CanvasMeta)
    requires
        i32::MIN <= count + offset <= i32::MAX,
    ensures
        r.id@ == id@,
        r.name@ == easel@.name,
        r.sort_order == count + offset,
        r.created_at@ == easel@.created_at,
        r.updated_at@ == easel@.updated_at,
{
    CanvasMeta {
        id: id.to_owned(),
        name: easel.name.clone(),
        sort_order: count + offset,
        created_at: easel.created_at.clone(),
        updated_at: easel.updated_at.clone(),
    }
}

/// The document after the window saved its content: the canvas, made
/// normal, the zoom and the transform are the new ones, and the rest is as
/// it was. Where the canvas or the transform has the wrong shape the
/// document is as before.
pub open spec fn after_save_state(
    d: Document,
    canvas: Value,
    zoom: Number,
    transform: Value,
) -> Document {
    if canvas_shaped(canvas) && transform is List && all_numbers(transform->List_0) {
        Document {
            canvas: normal_canvas(canvas),
            zoom,
            transform: numbers_of(transform->List_0),
            ..d
        }
    } else {
        d
    }
}

/// Puts the content that the window saved into the document. Fails, and
/// leaves the document as it was, where the canvas is no object that can
/// list nodes (the failure is about `canvas`) or else where the transform is
/// no list of numbers (about `viewportTransform`).
pub fn apply_canvas_state(
    easel: &mut EaselFile,
    canvas: &Json,
    zoom: Number,
    transform: &Json,
) -> (r: Result<(), EaselError>)
    ensures
        final(easel)@ == after_save_state(old(easel)@, canvas@, zoom, transform@),
        match r {
            Ok(_) => canvas_shaped(canvas@) && transform@ is List && all_numbers(
                transform@->List_0,
            ) && final(easel)@.well_formed(),
            Err(e) => e.kind == ErrorKind::Format && if !canvas_shaped(canvas@) {
                e.subject@ == "canvas"@
            } else {
                !(transform@ is List && all_numbers(transform@->List_0)) && e.subject@
                    == "viewportTransform"@
            },
        },
{
    let shaped = match read_canvas(canvas) {
        Some(shaped) => shaped,
        None => {
            return Err(EaselError::new(ErrorKind::Format, "canvas"));
        },
    };
    let numbers = match transform.as_array() {
        Some(items) => match read_numbers(items) {
            Some(numbers) => numbers,
            None => {
                return Err(EaselError::new(ErrorKind::Format, "viewportTransform"));
            },
        },
        None => {
            return Err(EaselError::new(ErrorKind::Format, "viewportTransform"));
        },
    };
    proof {
        crate::codec::lemma_normal_canvas(canvas@);
    }
    easel.canvas = shaped;
    easel.viewport.zoom = zoom;
    easel.viewport.transform = numbers;
    Ok(())
}

/// The document that the window saves into: the one that was loaded, or,
/// where no file stood at the path, a new one under the name that the index
/// has for it, or without a name of its own where the index has none.
pub fn document_for_save(loaded: Option<EaselFile>, name: Option<&str>, now: &str) -> (r:
    EaselFile)
    ensures
        match loaded {
            Some(easel) => r == easel,
            None => r@ == crate::document::new_document(
                match name {
                    Some(n) => n@,
                    None => "Untitled"@,
                },
                now@,
            ) && r@.well_formed(),
        },
{
    match loaded {
        Some(easel) => easel,
        None => match name {
            Some(n) => EaselFile::with_timestamp(n, now),
            None => EaselFile::with_timestamp("Untitled", now),
        },
    }
}

/// The document that a row of the `canvas_states` table stands for: format version
/// one; the canvas of the row, made normal, or an empty canvas where the row
/// holds none that can list nodes; the transform of the row, or the identity
/// where the row holds no list of numbers.
pub open spec fn legacy_document(
    name: Seq<char>,
    canvas: Option<Value>,
    zoom: Number,
    transform: Option<Value>,
    created_at: Seq<char>,
    updated_at: Seq<char>,
) -> Document {
    Document {
        format_version: FORMAT_VERSION,
        name,
        canvas: match canvas {
            Some(c) => if canvas_shaped(c) {
                normal_canvas(c)
            } else {
                empty_canvas()
            },
            None => empty_canvas(),
        },
        zoom,
        transform: match transform {
            Some(Value::List(items)) => if all_numbers(items) {
                numbers_of(items)
            } else {
                identity_transform()
            },
            _ => identity_transform(),
        },
        created_at,
        updated_at,
    }
}

/// The value that a reference may hold, as mathematics sees it.
pub open spec fn value_in(held: Option<&Json>) -> Option<Value> {
    match held {
        Some(j) => Some(j@),
        None => None,
    }
}

impl EaselFile {
    /// The document that a row of the `canvas_states` table stands for. The
    /// canvas and the transform are given where the texts of the row could
    /// be read as JSON.
    pub fn from_legacy(
        name: &str,
        canvas: Option<&Json>,
        zoom: Number,
        transform: Option<&Json>,
        created_at: &str,
        updated_at: &str,
    ) -> (r: EaselFile)
        ensures
            r@ == legacy_document(
                name@,
                value_in(canvas),
                zoom,
                value_in(transform),
                created_at@,
                updated_at@,
            ),
            r@.well_formed(),
    {
        proof {
            lemma_new_document(name@, created_at@);
        }
        let shaped = match canvas {
            Some(c) => match read_canvas(c) {
                Some(shaped) => {
                    proof {
                        crate::codec::lemma_normal_canvas(c@);
                    }
                    shaped
                },
                None => new_canvas(),
            },
            None => new_canvas(),
        };
        let numbers = match transform {
            Some(t) => match t.as_array() {
                Some(items) => match read_numbers(items) {
                    Some(numbers) => numbers,
                    None => ViewportState::identity().transform,
                },
                None => ViewportState::identity().transform,
            },
            None => ViewportState::identity().transform,
        };
        EaselFile {
            format_version: FORMAT_VERSION,
            name: name.to_owned(),
            canvas: shaped,
            viewport: ViewportState { zoom, transform: numbers },
            created_at: created_at.to_owned(),
            updated_at: updated_at.to_owned(),
        }
    }
}

} // verus!
