//! The canvas document and the searches and removals on its object tree.

use crate::binary64::Binary64;
use crate::clock::{chrono_now, is_timestamp};
use crate::json::{
    entries, is_first_with_key, lemma_first_with_key, lemma_has_first_with_key, lemma_list_view,
    lemma_object_view, lemma_upsert_same, lemma_upsert_twice, position_of, upsert, values, Json,
    Number, Value,
};
use crate::text::{same_text, texts};
use crate::tree::{
    any_child_with_id, any_with_id, find, has_id, holds_members, is_first_with_id,
    lemma_first_parent, lemma_first_with_id, lemma_purged_all, locate, members, node_at,
    objects_key, present, pruned, purged, purged_all, put_at, removed_ids, without_id, Place,
};
use vstd::prelude::*;

verus! {

/// Where the view of a canvas stands and how far it is zoomed.
#[derive(Clone, Debug, PartialEq)]
pub struct ViewportState {
    pub zoom: Number,
    pub transform: Vec<Number>,
}

/// One canvas document.
#[derive(Clone, Debug, PartialEq)]
pub struct EaselFile {
    pub format_version: u32,
    pub name: String,
    pub canvas: Json,
    pub viewport: ViewportState,
    pub created_at: String,
    pub updated_at: String,
}

/// A canvas document as mathematics sees it.
pub struct Document {
    pub format_version: u32,
    pub name: Seq<char>,
    pub canvas: Value,
    pub zoom: Number,
    pub transform: Seq<Number>,
    pub created_at: Seq<char>,
    pub updated_at: Seq<char>,
}

impl View for EaselFile {
    type V = Document;

    open spec fn view(&self) -> Document {
        Document {
            format_version: self.format_version,
            name: self.name@,
            canvas: self.canvas@,
            zoom: self.viewport.zoom,
            transform: self.viewport.transform@,
            created_at: self.created_at@,
            updated_at: self.updated_at@,
        }
    }
}

/// The encoding of the binary64 number one.
pub const ONE_BITS: u64 = 0x3ff0_0000_0000_0000;

/// The format version that new documents carry.
pub const FORMAT_VERSION: u32 = 1;

/// The binary64 number one, as a JSON number.
pub open spec fn one() -> Number {
    Number::Real(Binary64 { bits: ONE_BITS })
}

/// The binary64 number zero, as a JSON number.
pub open spec fn zero() -> Number {
    Number::Real(Binary64 { bits: 0 })
}

/// The canvas of a new document: the renderer's version tag and no nodes.
pub open spec fn empty_canvas() -> Value {
    Value::Object(
        seq![("version"@, Value::Text("7.0.0"@)), ("objects"@, Value::List(Seq::empty()))],
    )
}

/// The transform that leaves everything where it is.
pub open spec fn identity_transform() -> Seq<Number> {
    seq![one(), zero(), zero(), one(), zero(), zero()]
}

/// The document that is made under a name at a moment: format version one,
/// an empty canvas, zoom one, the identity transform, and both timestamps at
/// that moment.
pub open spec fn new_document(name: Seq<char>, now: Seq<char>) -> Document {
    Document {
        format_version: FORMAT_VERSION,
        name,
        canvas: empty_canvas(),
        zoom: one(),
        transform: identity_transform(),
        created_at: now,
        updated_at: now,
    }
}

/// A new document is well formed and holds no node.
pub proof fn lemma_new_document(name: Seq<char>, now: Seq<char>)
    ensures
        new_document(name, now).well_formed(),
        new_document(name, now).objects() == Seq::<Value>::empty(),
{
    reveal_strlit("version");
    reveal_strlit("objects");
    let fields = empty_canvas()->Object_0;
    assert(fields[0].0.len() == 7);
    assert(fields[0].0[0] == 'v');
    assert(fields[1].0[0] == 'o');
    assert(fields[1].0 == objects_key());
    assert(is_first_with_key(fields, objects_key(), 1));
    lemma_first_with_key(fields, objects_key(), 1);
}

impl Document {
    /// The nodes at the top level of the canvas.
    pub open spec fn objects(self) -> Seq<Value> {
        members(self.canvas)
    }

    /// Whether the canvas is an object that lists its nodes.
    pub open spec fn well_formed(self) -> bool {
        holds_members(self.canvas)
    }

    /// The document with other nodes at the top level of its canvas.
    pub open spec fn with_objects(self, nodes: Seq<Value>) -> Document {
        Document { canvas: self.canvas.with(objects_key(), Value::List(nodes)), ..self }
    }
}

/// Listing other nodes in a document whose canvas is an object gives a
/// well-formed document with just those nodes; listing twice is listing the
/// second time; and listing what is listed already changes nothing.
pub proof fn lemma_with_objects(d: Document, a: Seq<Value>, b: Seq<Value>)
    requires
        d.canvas is Object,
    ensures
        d.with_objects(a).well_formed(),
        d.with_objects(a).objects() == a,
        d.with_objects(a).with_objects(b) == d.with_objects(b),
        d.well_formed() ==> d.with_objects(d.objects()) == d,
{
    let fields = d.canvas->Object_0;
    lemma_upsert_same(fields, objects_key(), Value::List(a));
    lemma_upsert_twice(fields, objects_key(), Value::List(a), Value::List(b));
    if d.well_formed() {
        lemma_has_first_with_key(fields, objects_key());
        assert(upsert(fields, objects_key(), Value::List(d.objects())) =~= fields);
    }
}

/// The nodes that a value lists under `objects`.
pub fn member_nodes(v: &Json) -> (r: &[Json])
    ensures
        values(r@) == members(v@),
{
    match v.get("objects") {
        Some(listed) => match listed.as_array() {
            Some(items) => items.as_slice(),
            None => {
                assert(values(Seq::<Json>::empty()) =~= Seq::<Value>::empty());
                &[]
            },
        },
        None => {
            assert(values(Seq::<Json>::empty()) =~= Seq::<Value>::empty());
            &[]
        },
    }
}

/// Whether the value is an object that lists nodes under `objects`.
pub fn lists_members(v: &Json) -> (r: bool)
    ensures
        r == holds_members(v@),
{
    match v.as_object() {
        Some(_) => match v.get("objects") {
            Some(listed) => listed.as_array().is_some(),
            None => false,
        },
        None => false,
    }
}

/// The nodes that a value lists under `objects`, open to change.
pub fn member_nodes_mut(v: &mut Json) -> (r: &mut Vec<Json>)
    requires
        holds_members(old(v)@),
    ensures
        values(r@) == members(old(v)@),
        final(v)@ == old(v)@.with(objects_key(), Value::List(values(final(r)@))),
{
    match v {
        Json::Object(fields) => {
            proof {
                lemma_object_view(*fields);
            }
            let i = position_of(fields, "objects");
            proof {
                if i < fields@.len() {
                    lemma_first_with_key(entries(fields@), objects_key(), i as int);
                }
            }
            let ghost before = entries(fields@);
            let ghost after = *final(fields);
            match &mut fields[i].1 {
                Json::List(items) => {
                    proof {
                        lemma_list_view(*items);
                        lemma_list_view(*final(items));
                        lemma_object_view(after);
                        assert(entries(after@) =~= before.update(
                            i as int,
                            (objects_key(), Value::List(values(final(items)@))),
                        ));
                    }
                    items
                },
                _ => vstd::pervasive::unreached(),
            }
        },
        _ => vstd::pervasive::unreached(),
    }
}

/// Whether the node carries the identifier.
pub fn node_has_id(node: &Json, id: &str) -> (r: bool)
    ensures
        r == has_id(node@, id@),
{
    match node.get("id") {
        Some(held) => match held.as_str() {
            Some(s) => same_text(s, id),
            None => false,
        },
        None => false,
    }
}

/// The place of the first node with the identifier, or the number of nodes
/// where none carries it.
pub fn index_with_id(nodes: &[Json], id: &str) -> (i: usize)
    ensures
        i <= nodes@.len(),
        i < nodes@.len() ==> is_first_with_id(values(nodes@), id@, i as int),
        i == nodes@.len() ==> !any_with_id(values(nodes@), id@),
{
    let mut i: usize = 0;
    while i < nodes.len()
        invariant
            i <= nodes@.len(),
            forall|k: int| 0 <= k < i ==> !has_id(#[trigger] values(nodes@)[k], id@),
        decreases nodes@.len() - i,
    {
        if node_has_id(&nodes[i], id) {
            return i;
        }
        i += 1;
    }
    i
}

/// Takes the nodes that carry the identifier out of the list, and says
/// whether there was one.
pub fn retain_without(nodes: &mut Vec<Json>, id: &str) -> (found: bool)
    ensures
        values(final(nodes)@) == without_id(values(old(nodes)@), id@),
        found == any_with_id(values(old(nodes)@), id@),
{
    let ghost before = values(nodes@);
    let ghost mut seen: int = 0;
    let mut found = false;
    let mut i: usize = 0;
    assert(before.take(0) =~= Seq::empty());
    assert(values(nodes@).take(0) =~= Seq::empty());
    while i < nodes.len()
        invariant
            i <= nodes@.len(),
            0 <= seen <= before.len(),
            nodes@.len() - i == before.len() - seen,
            values(nodes@).take(i as int) == without_id(before.take(seen), id@),
            forall|k: int| i <= k < nodes@.len() ==> values(nodes@)[k] == before[k - i + seen],
            found == any_with_id(before.take(seen), id@),
        decreases nodes@.len() - i,
    {
        let ghost current = values(nodes@);
        assert(before.take(seen + 1).drop_last() =~= before.take(seen));
        assert(before.take(seen + 1).last() == before[seen]);
        assert(current[i as int] == before[seen]);
        if node_has_id(&nodes[i], id) {
            nodes.remove(i);
            proof {
                assert(has_id(before.take(seen + 1)[seen], id@));
                assert(values(nodes@).take(i as int) =~= current.take(i as int));
                assert forall|k: int| i <= k < nodes@.len() implies values(nodes@)[k]
                    == before[k - i + (seen + 1)] by {
                    assert(values(nodes@)[k] == current[k + 1]);
                }
            }
            found = true;
        } else {
            proof {
                assert(current.take(i + 1) =~= current.take(i as int).push(before[seen]));
                if any_with_id(before.take(seen + 1), id@) {
                    let k = choose|k: int|
                        0 <= k < seen + 1 && has_id(#[trigger] before.take(seen + 1)[k], id@);
                    assert(has_id(before.take(seen)[k], id@));
                }
                if any_with_id(before.take(seen), id@) {
                    let k = choose|k: int|
                        0 <= k < seen && has_id(#[trigger] before.take(seen)[k], id@);
                    assert(has_id(before.take(seen + 1)[k], id@));
                }
            }
            i += 1;
        }
        proof {
            seen = seen + 1;
        }
    }
    assert(before.take(seen) =~= before);
    assert(values(nodes@).take(i as int) =~= values(nodes@));
    found
}

/// Takes the children that carry the identifier out of a node, and says
/// whether there was one. A node that lists no children is left as it is.
pub fn prune_children(node: &mut Json, id: &str) -> (found: bool)
    ensures
        final(node)@ == pruned(old(node)@, id@),
        found == any_with_id(members(old(node)@), id@),
{
    if lists_members(node) {
        let children = member_nodes_mut(node);
        retain_without(children, id)
    } else {
        assert(members(node@) =~= Seq::empty());
        false
    }
}

/// Takes the identifier out of the tree: the top-level nodes that carry it,
/// and the children that carry it in every node that stays. Says whether
/// anything was taken out.
pub fn purge(nodes: &mut Vec<Json>, id: &str) -> (found: bool)
    ensures
        values(final(nodes)@) == purged(values(old(nodes)@), id@),
        found == present(values(old(nodes)@), id@),
{
    let ghost before = values(nodes@);
    let ghost mut seen: int = 0;
    let mut found = false;
    let mut i: usize = 0;
    assert(before.take(0) =~= Seq::empty());
    assert(values(nodes@).take(0) =~= Seq::empty());
    while i < nodes.len()
        invariant
            i <= nodes@.len(),
            0 <= seen <= before.len(),
            nodes@.len() - i == before.len() - seen,
            values(nodes@).take(i as int) == purged(before.take(seen), id@),
            forall|k: int| i <= k < nodes@.len() ==> values(nodes@)[k] == before[k - i + seen],
            found == present(before.take(seen), id@),
        decreases nodes@.len() - i,
    {
        let ghost current = values(nodes@);
        let ghost shorter = before.take(seen);
        let ghost longer = before.take(seen + 1);
        assert(longer.drop_last() =~= shorter);
        assert(longer.last() == before[seen]);
        assert(current[i as int] == before[seen]);
        proof {
            if any_with_id(shorter, id@) {
                let k = choose|k: int| 0 <= k < seen && has_id(#[trigger] shorter[k], id@);
                assert(has_id(longer[k], id@));
            }
            if any_child_with_id(shorter, id@) {
                let k = choose|k: int|
                    0 <= k < seen && any_with_id(members(#[trigger] shorter[k]), id@);
                assert(any_with_id(members(longer[k]), id@));
            }
        }
        if node_has_id(&nodes[i], id) {
            nodes.remove(i);
            proof {
                assert(has_id(longer[seen], id@));
                assert(values(nodes@).take(i as int) =~= current.take(i as int));
                assert forall|k: int| i <= k < nodes@.len() implies values(nodes@)[k]
                    == before[k - i + (seen + 1)] by {
                    assert(values(nodes@)[k] == current[k + 1]);
                }
            }
            found = true;
        } else {
            let inside = prune_children(&mut nodes[i], id);
            proof {
                assert(values(nodes@).take(i + 1) =~= current.take(i as int).push(
                    pruned(before[seen], id@),
                ));
                assert forall|k: int| i + 1 <= k < nodes@.len() implies values(nodes@)[k]
                    == before[k - (i + 1) + (seen + 1)] by {
                    assert(values(nodes@)[k] == current[k]);
                }
                if inside {
                    assert(any_with_id(members(longer[seen]), id@));
                }
                if any_with_id(longer, id@) {
                    let k = choose|k: int| 0 <= k < seen + 1 && has_id(#[trigger] longer[k], id@);
                    assert(has_id(shorter[k], id@));
                }
                if any_child_with_id(longer, id@) && !inside {
                    let k = choose|k: int|
                        0 <= k < seen + 1 && any_with_id(members(#[trigger] longer[k]), id@);
                    assert(any_with_id(members(shorter[k]), id@));
                }
            }
            found = found || inside;
            i += 1;
        }
        proof {
            seen = seen + 1;
        }
    }
    assert(before.take(seen) =~= before);
    assert(values(nodes@).take(i as int) =~= values(nodes@));
    found
}

/// Where a node stands in the tree of a document.
#[derive(Clone, Copy, Debug, PartialEq, Eq, Structural)]
pub enum Slot {
    /// The node at this place of the top level.
    Top(usize),
    /// The child at the second place within the container at the first.
    Nested(usize, usize),
}

impl View for Slot {
    type V = Place;

    open spec fn view(&self) -> Place {
        match self {
            Slot::Top(i) => Place::Top(*i as int),
            Slot::Nested(i, j) => Place::Nested(*i as int, *j as int),
        }
    }
}

/// Whether a place names a node of the tree.
pub open spec fn in_tree(nodes: Seq<Value>, place: Place) -> bool {
    match place {
        Place::Top(i) => 0 <= i < nodes.len(),
        Place::Nested(i, j) => 0 <= i < nodes.len() && 0 <= j < members(nodes[i]).len(),
    }
}

/// The canvas of a new document.
pub fn new_canvas() -> (r: Json)
    ensures
        r@ == empty_canvas(),
{
    let mut fields: Vec<(String, Json)> = Vec::new();
    fields.push(("version".to_owned(), Json::text("7.0.0")));
    fields.push(("objects".to_owned(), Json::list(Vec::new())));
    proof {
        assert(values(Seq::<Json>::empty()) =~= Seq::<Value>::empty());
        assert(entries(fields@) =~= empty_canvas()->Object_0);
    }
    Json::object(fields)
}

impl ViewportState {
    /// Zoom one and the identity transform.
    pub fn identity() -> (r: ViewportState)
        ensures
            r.zoom == one(),
            r.transform@ == identity_transform(),
    {
        let unit = Number::Real(Binary64 { bits: ONE_BITS });
        let none = Number::Real(Binary64 { bits: 0 });
        let mut transform: Vec<Number> = Vec::new();
        transform.push(unit);
        transform.push(none);
        transform.push(none);
        transform.push(unit);
        transform.push(none);
        transform.push(none);
        assert(transform@ =~= identity_transform());
        ViewportState { zoom: unit, transform }
    }
}

impl EaselFile {
    /// A new, empty document under a name, stamped with the present moment
    /// as the clock of the machine has it.
    pub fn new(name: &str) -> (r: EaselFile)
        ensures
            exists|now: Seq<char>| is_timestamp(now) && r@ == new_document(name@, now),
            r@.well_formed(),
    {
        let now = chrono_now();
        EaselFile::with_timestamp(name, now.as_str())
    }

    /// A new, empty document under a name, stamped with the given moment.
    pub fn with_timestamp(name: &str, now: &str) -> (r: EaselFile)
        ensures
            r@ == new_document(name@, now@),
            r@.well_formed(),
    {
        proof {
            lemma_new_document(name@, now@);
        }
        EaselFile {
            format_version: FORMAT_VERSION,
            name: name.to_owned(),
            canvas: new_canvas(),
            viewport: ViewportState::identity(),
            created_at: now.to_owned(),
            updated_at: now.to_owned(),
        }
    }

    /// The nodes at the top level of the canvas; none where the canvas does
    /// not list any.
    pub fn objects(&self) -> (r: &[Json])
        ensures
            values(r@) == self@.objects(),
    {
        member_nodes(&self.canvas)
    }

    /// Whether the canvas is an object that lists its nodes.
    pub fn is_well_formed(&self) -> (r: bool)
        ensures
            r == self@.well_formed(),
    {
        lists_members(&self.canvas)
    }

    /// The nodes at the top level of the canvas, open to change.
    pub fn objects_mut(&mut self) -> (r: &mut Vec<Json>)
        requires
            old(self)@.well_formed(),
        ensures
            values(r@) == old(self)@.objects(),
            final(self)@ == old(self)@.with_objects(values(final(r)@)),
    {
        member_nodes_mut(&mut self.canvas)
    }

    /// The place of the node that a search for the identifier finds.
    pub fn locate(&self, id: &str) -> (r: Option<Slot>)
        ensures
            match r {
                Some(slot) => locate(self@.objects(), id@) == Some(slot@) && in_tree(
                    self@.objects(),
                    slot@,
                ),
                None => locate(self@.objects(), id@) is None,
            },
    {
        let objects = self.objects();
        let ghost nodes = values(objects@);
        let top = index_with_id(objects, id);
        if top < objects.len() {
            proof {
                lemma_first_with_id(nodes, id@, top as int);
            }
            return Some(Slot::Top(top));
        }
        let mut i: usize = 0;
        while i < objects.len()
            invariant
                i <= objects@.len(),
                nodes == values(objects@),
                nodes == self@.objects(),
                !any_with_id(nodes, id@),
                forall|k: int| 0 <= k < i ==> !any_with_id(members(#[trigger] nodes[k]), id@),
            decreases objects@.len() - i,
        {
            let children = member_nodes(&objects[i]);
            let j = index_with_id(children, id);
            if j < children.len() {
                proof {
                    assert(nodes[i as int] == objects@[i as int]@);
                    lemma_first_with_id(members(nodes[i as int]), id@, j as int);
                    lemma_first_parent(nodes, id@, i as int);
                }
                return Some(Slot::Nested(i, j));
            }
            i += 1;
        }
        None
    }

    /// The node that a search for the identifier finds, open to change. The
    /// node stays where it is.
    pub fn find_object_mut(&mut self, id: &str) -> (r: Option<&mut Json>)
        requires
            old(self)@.well_formed(),
        ensures
            match r {
                Some(node) => locate(old(self)@.objects(), id@) matches Some(place) && node@
                    == node_at(old(self)@.objects(), place) && final(self)@ == old(
                    self,
                )@.with_objects(put_at(old(self)@.objects(), place, final(node)@)),
                None => locate(old(self)@.objects(), id@) is None && final(self)@ == old(self)@,
            },
    {
        match self.locate(id) {
            None => None,
            Some(Slot::Top(i)) => {
                let objects = self.objects_mut();
                let ghost nodes = values(objects@);
                let ghost after = *final(objects);
                let node = &mut objects[i];
                proof {
                    assert(values(after@) =~= nodes.update(i as int, final(node)@));
                }
                Some(node)
            },
            Some(Slot::Nested(i, j)) => {
                let objects = self.objects_mut();
                let ghost nodes = values(objects@);
                let ghost after = *final(objects);
                assert(nodes[i as int] == objects@[i as int]@);
                let children = member_nodes_mut(&mut objects[i]);
                let ghost listed = *final(children);
                let node = &mut children[j];
                proof {
                    assert(values(listed@) =~= members(nodes[i as int]).update(
                        j as int,
                        final(node)@,
                    ));
                    assert(values(after@) =~= nodes.update(i as int, after@[i as int]@));
                }
                Some(node)
            },
        }
    }

    /// Takes the identifiers out of the tree, one after the other: for each,
    /// the top-level nodes that carry it and the children that carry it in
    /// every node that stays. Returns the identifiers whose turn took
    /// something away, in the order asked.
    pub fn remove_objects(&mut self, ids: &[String]) -> (removed: Vec<String>)
        requires
            old(self)@.well_formed(),
        ensures
            final(self)@ == old(self)@.with_objects(
                purged_all(old(self)@.objects(), texts(ids@)),
            ),
            texts(removed@) == removed_ids(old(self)@.objects(), texts(ids@)),
            final(self)@.well_formed(),
            forall|k: int|
                0 <= k < ids@.len() ==> !present(final(self)@.objects(), #[trigger] ids@[k]@),
    {
        let ghost start = self@;
        let ghost nodes = start.objects();
        let ghost asked = texts(ids@);
        let mut removed: Vec<String> = Vec::new();
        let mut k: usize = 0;
        proof {
            lemma_with_objects(start, nodes, nodes);
            assert(asked.take(0) =~= Seq::empty());
            assert(texts(removed@) =~= Seq::empty());
        }
        while k < ids.len()
            invariant
                k <= ids@.len(),
                asked == texts(ids@),
                start.well_formed(),
                nodes == start.objects(),
                self@ == start.with_objects(purged_all(nodes, asked.take(k as int))),
                texts(removed@) == removed_ids(nodes, asked.take(k as int)),
            decreases ids@.len() - k,
        {
            let ghost done = asked.take(k as int);
            let ghost current = purged_all(nodes, done);
            proof {
                lemma_with_objects(start, current, current);
                assert(asked.take(k + 1).drop_last() =~= done);
                assert(asked.take(k + 1).last() == ids@[k as int]@);
            }
            let objects = self.objects_mut();
            let found = purge(objects, ids[k].as_str());
            proof {
                lemma_with_objects(start, current, purged(current, ids@[k as int]@));
            }
            if found {
                let ghost earlier = texts(removed@);
                removed.push(ids[k].clone());
                assert(texts(removed@) =~= earlier.push(ids@[k as int]@));
            }
            k += 1;
        }
        proof {
            assert(asked.take(k as int) =~= asked);
            lemma_with_objects(start, purged_all(nodes, asked), purged_all(nodes, asked));
            lemma_purged_all(nodes, asked);
            assert forall|j: int| 0 <= j < ids@.len() implies !present(
                self@.objects(),
                #[trigger] ids@[j]@,
            ) by {
                assert(asked[j] == ids@[j]@);
            }
        }
        removed
    }

    /// The node that a search for the identifier finds: the first at the top
    /// level; failing that, the first child of the first container that has
    /// one.
    pub fn find_object(&self, id: &str) -> (r: Option<&Json>)
        ensures
            match r {
                Some(node) => find(self@.objects(), id@) == Some(node@),
                None => find(self@.objects(), id@) is None,
            },
    {
        let objects = self.objects();
        match self.locate(id) {
            None => None,
            Some(Slot::Top(i)) => Some(&objects[i]),
            Some(Slot::Nested(i, j)) => {
                let children = member_nodes(&objects[i]);
                Some(&children[j])
            },
        }
    }
}

} // verus!
