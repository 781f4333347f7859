//! Where the documents of the desktop application lie.
//!
//! Paths are texts whose parts are joined by a slash.

use crate::text::joined;
use vstd::prelude::*;
use vstd::string::StrSliceExecFns;

verus! {

/// A name joined to a base path: a name that starts at the root stands for
/// itself; otherwise it follows the base, after a slash unless the base is
/// empty or ends in one.
pub open spec fn join_path(base: Seq<char>, name: Seq<char>) -> Seq<char> {
    if name.len() > 0 && name[0] == '/' {
        name
    } else if base.len() == 0 || base.last() == '/' {
        base + name
    } else {
        base + seq!['/'] + name
    }
}

/// The directory of the documents, under the data directory.
pub open spec fn canvases_dir_of(app_data_dir: Seq<char>) -> Seq<char> {
    join_path(app_data_dir, "canvases"@)
}

/// The name of the file of a document: its identifier and the extension.
pub open spec fn easel_file_name(canvas_id: Seq<char>) -> Seq<char> {
    canvas_id + ".easel"@
}

/// The identifier that a file name stands for: what comes before a final
/// `.easel`, where something does.
pub open spec fn easel_stem(file_name: Seq<char>) -> Option<Seq<char>> {
    if file_name.len() > 6 && file_name.subrange(file_name.len() - 6, file_name.len() as int)
        == ".easel"@ {
        Some(file_name.subrange(0, file_name.len() - 6))
    } else {
        None
    }
}

/// The file name of a document stands for the identifier of the document,
/// unless that is empty.
pub proof fn lemma_file_name_round_trip(canvas_id: Seq<char>)
    requires
        canvas_id.len() > 0,
    ensures
        easel_stem(easel_file_name(canvas_id)) == Some(canvas_id),
{
    reveal_strlit(".easel");
    let name = easel_file_name(canvas_id);
    assert(".easel"@.len() == 6);
    assert(name.subrange(name.len() - 6, name.len() as int) =~= ".easel"@);
    assert(name.subrange(0, name.len() - 6) =~= canvas_id);
}

/// A name joined to a base path.
pub fn join(base: &str, name: &str) -> (r: String)
    ensures
        r@ == join_path(base@, name@),
{
    proof {
        reveal_strlit("/");
        assert("/"@ =~= seq!['/']);
    }
    let name_len = name.unicode_len();
    let base_len = base.unicode_len();
    if name_len > 0 && name.get_char(0) == '/' {
        name.to_owned()
    } else if base_len == 0 || base.get_char(base_len - 1) == '/' {
        joined(base, name)
    } else {
        let head = joined(base, "/");
        joined(head.as_str(), name)
    }
}

/// The directory of the documents, under the data directory.
pub fn canvases_dir(app_data_dir: &str) -> (r: String)
    ensures
        r@ == canvases_dir_of(app_data_dir@),
{
    join(app_data_dir, "canvases")
}

/// The path of the file of one document.
pub fn canvas_easel_path(app_data_dir: &str, canvas_id: &str) -> (r: String)
    ensures
        r@ == join_path(canvases_dir_of(app_data_dir@), easel_file_name(canvas_id@)),
{
    let dir = canvases_dir(app_data_dir);
    let file = joined(canvas_id, ".easel");
    join(dir.as_str(), file.as_str())
}

/// The identifier of the document that a file of the given name holds;
/// nothing for a name that does not end in `.easel` or has nothing in front
/// of it.
pub fn canvas_id_of_file(file_name: &str) -> (r: Option<String>)
    ensures
        match r {
            Some(id) => easel_stem(file_name@) == Some(id@),
            None => easel_stem(file_name@) is None,
        },
{
    proof {
        reveal_strlit(".easel");
        assert(".easel"@.len() == 6);
    }
    let len = file_name.unicode_len();
    if len <= 6 {
        return None;
    }
    let tail = file_name.substring_char(len - 6, len);
    if crate::text::same_text(tail, ".easel") {
        Some(file_name.substring_char(0, len - 6).to_owned())
    } else {
        None
    }
}

} // verus!
