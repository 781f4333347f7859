//! The object tree of a canvas, as mathematics sees it.
//!
//! A canvas is an object whose `objects` member lists its nodes. A node is an
//! object too; its `id` member names it, and a node that has an `objects`
//! member of its own is a container of child nodes, one level deep.

use crate::json::{lemma_upsert_other, lemma_upsert_same, Value};
use vstd::prelude::*;

verus! {

/// The key under which a canvas, or a container, lists its nodes.
pub open spec fn objects_key() -> Seq<char> {
    "objects"@
}

/// The key under which a node holds its identifier.
pub open spec fn id_key() -> Seq<char> {
    "id"@
}

/// The key under which a node holds its type tag.
pub open spec fn type_key() -> Seq<char> {
    "type"@
}

/// The nodes listed under `objects`; none where the value is no object, has
/// no such member, or holds something other than a list there.
pub open spec fn members(v: Value) -> Seq<Value> {
    match v.get(objects_key()) {
        Some(Value::List(items)) => items,
        _ => Seq::empty(),
    }
}

/// Whether the value is an object that lists nodes under `objects`.
pub open spec fn holds_members(v: Value) -> bool {
    v is Object && v.get(objects_key()) matches Some(Value::List(_))
}

/// The identifier of a node: the text under `id`, where there is one.
pub open spec fn node_id(v: Value) -> Option<Seq<char>> {
    match v.get(id_key()) {
        Some(Value::Text(s)) => Some(s),
        _ => None,
    }
}

/// Whether the node carries the identifier.
pub open spec fn has_id(v: Value, id: Seq<char>) -> bool {
    node_id(v) == Some(id)
}

/// Whether some node of the sequence carries the identifier.
pub open spec fn any_with_id(nodes: Seq<Value>, id: Seq<char>) -> bool {
    exists|i: int| 0 <= i < nodes.len() && has_id(#[trigger] nodes[i], id)
}

/// Whether `i` is the place of the first node with the identifier.
pub open spec fn is_first_with_id(nodes: Seq<Value>, id: Seq<char>, i: int) -> bool {
    &&& 0 <= i < nodes.len()
    &&& has_id(nodes[i], id)
    &&& forall|k: int| 0 <= k < i ==> !has_id(#[trigger] nodes[k], id)
}

/// The place of the first node with the identifier, where there is one.
pub open spec fn first_with_id(nodes: Seq<Value>, id: Seq<char>) -> int {
    choose|i: int| is_first_with_id(nodes, id, i)
}

/// Whether some node of the sequence has a child with the identifier.
pub open spec fn any_child_with_id(nodes: Seq<Value>, id: Seq<char>) -> bool {
    exists|i: int| 0 <= i < nodes.len() && any_with_id(members(#[trigger] nodes[i]), id)
}

/// Whether `i` is the place of the first node that has a child with the
/// identifier.
pub open spec fn is_first_parent(nodes: Seq<Value>, id: Seq<char>, i: int) -> bool {
    &&& 0 <= i < nodes.len()
    &&& any_with_id(members(nodes[i]), id)
    &&& forall|k: int| 0 <= k < i ==> !any_with_id(members(#[trigger] nodes[k]), id)
}

/// The place of the first node that has a child with the identifier.
pub open spec fn first_parent(nodes: Seq<Value>, id: Seq<char>) -> int {
    choose|i: int| is_first_parent(nodes, id, i)
}

/// Where a node stands in the tree.
pub enum Place {
    /// The node at this place of the top level.
    Top(int),
    /// The child at the second place within the container at the first.
    Nested(int, int),
}

/// The place of the node that a search for the identifier finds: the first
/// at the top level; failing that, the first child of the first container
/// that has one.
pub open spec fn locate(nodes: Seq<Value>, id: Seq<char>) -> Option<Place> {
    if any_with_id(nodes, id) {
        Some(Place::Top(first_with_id(nodes, id)))
    } else if any_child_with_id(nodes, id) {
        let i = first_parent(nodes, id);
        Some(Place::Nested(i, first_with_id(members(nodes[i]), id)))
    } else {
        None
    }
}

/// The node at a place.
pub open spec fn node_at(nodes: Seq<Value>, place: Place) -> Value {
    match place {
        Place::Top(i) => nodes[i],
        Place::Nested(i, j) => members(nodes[i])[j],
    }
}

/// The node that a search for the identifier finds.
pub open spec fn find(nodes: Seq<Value>, id: Seq<char>) -> Option<Value> {
    match locate(nodes, id) {
        Some(place) => Some(node_at(nodes, place)),
        None => None,
    }
}

/// The nodes with the one at a place replaced.
pub open spec fn put_at(nodes: Seq<Value>, place: Place, node: Value) -> Seq<Value> {
    match place {
        Place::Top(i) => nodes.update(i, node),
        Place::Nested(i, j) => nodes.update(
            i,
            nodes[i].with(objects_key(), Value::List(members(nodes[i]).update(j, node))),
        ),
    }
}

/// The first node with an identifier is the only place that is first with it.
pub proof fn lemma_first_with_id(nodes: Seq<Value>, id: Seq<char>, i: int)
    requires
        is_first_with_id(nodes, id, i),
    ensures
        any_with_id(nodes, id),
        first_with_id(nodes, id) == i,
{
    let j = first_with_id(nodes, id);
    assert(is_first_with_id(nodes, id, j));
    if j < i {
        assert(!has_id(nodes[j], id));
    }
    if i < j {
        assert(!has_id(nodes[i], id));
    }
}

/// The first container with a matching child is the only place that is first
/// so.
pub proof fn lemma_first_parent(nodes: Seq<Value>, id: Seq<char>, i: int)
    requires
        is_first_parent(nodes, id, i),
    ensures
        any_child_with_id(nodes, id),
        first_parent(nodes, id) == i,
{
    let j = first_parent(nodes, id);
    assert(is_first_parent(nodes, id, j));
    if j < i {
        assert(!any_with_id(members(nodes[j]), id));
    }
    if i < j {
        assert(!any_with_id(members(nodes[i]), id));
    }
}

/// A node one level inside a container is found by its identifier alone:
/// whenever some child carries an identifier, the search finds a node that
/// carries it.
pub proof fn lemma_nested_node_is_found(nodes: Seq<Value>, id: Seq<char>, i: int, j: int)
    requires
        0 <= i < nodes.len(),
        0 <= j < members(nodes[i]).len(),
        has_id(members(nodes[i])[j], id),
    ensures
        find(nodes, id) is Some,
        has_id(find(nodes, id)->0, id),
        !any_with_id(nodes, id) ==> locate(nodes, id) is Some && locate(nodes, id)->0 is Nested,
{
    assert(any_with_id(members(nodes[i]), id));
    assert(any_child_with_id(nodes, id));
    if any_with_id(nodes, id) {
        let k = choose|k: int| 0 <= k < nodes.len() && has_id(#[trigger] nodes[k], id);
        lemma_least_with_id(nodes, id, k);
        assert(is_first_with_id(nodes, id, first_with_id(nodes, id)));
    } else {
        lemma_least_parent(nodes, id, i);
        let p = first_parent(nodes, id);
        assert(is_first_parent(nodes, id, p));
        let c = choose|c: int|
            0 <= c < members(nodes[p]).len() && has_id(#[trigger] members(nodes[p])[c], id);
        lemma_least_with_id(members(nodes[p]), id, c);
        assert(is_first_with_id(members(nodes[p]), id, first_with_id(members(nodes[p]), id)));
    }
}

/// Where some node carries an identifier, there is a first one.
pub proof fn lemma_least_with_id(nodes: Seq<Value>, id: Seq<char>, k: int)
    requires
        0 <= k < nodes.len(),
        has_id(nodes[k], id),
    ensures
        exists|i: int| is_first_with_id(nodes, id, i),
    decreases k,
{
    if exists|m: int| 0 <= m < k && has_id(#[trigger] nodes[m], id) {
        let m = choose|m: int| 0 <= m < k && has_id(#[trigger] nodes[m], id);
        lemma_least_with_id(nodes, id, m);
    } else {
        assert(is_first_with_id(nodes, id, k));
    }
}

/// Where some container has a matching child, there is a first one.
pub proof fn lemma_least_parent(nodes: Seq<Value>, id: Seq<char>, k: int)
    requires
        0 <= k < nodes.len(),
        any_with_id(members(nodes[k]), id),
    ensures
        exists|i: int| is_first_parent(nodes, id, i),
    decreases k,
{
    if exists|m: int| 0 <= m < k && any_with_id(members(#[trigger] nodes[m]), id) {
        let m = choose|m: int| 0 <= m < k && any_with_id(members(#[trigger] nodes[m]), id);
        lemma_least_parent(nodes, id, m);
    } else {
        assert(is_first_parent(nodes, id, k));
    }
}

/// The nodes that do not carry the identifier, in their order.
pub open spec fn without_id(nodes: Seq<Value>, id: Seq<char>) -> Seq<Value>
    decreases nodes.len(),
{
    if nodes.len() == 0 {
        Seq::empty()
    } else if has_id(nodes.last(), id) {
        without_id(nodes.drop_last(), id)
    } else {
        without_id(nodes.drop_last(), id).push(nodes.last())
    }
}

/// A node without the children that carry the identifier. A node that lists
/// no children is left as it is.
pub open spec fn pruned(node: Value, id: Seq<char>) -> Value {
    if holds_members(node) {
        node.with(objects_key(), Value::List(without_id(members(node), id)))
    } else {
        node
    }
}

/// The tree without the identifier: the top-level nodes that carry it are
/// gone, and so are the children that carry it in every node that stays.
pub open spec fn purged(nodes: Seq<Value>, id: Seq<char>) -> Seq<Value>
    decreases nodes.len(),
{
    if nodes.len() == 0 {
        Seq::empty()
    } else if has_id(nodes.last(), id) {
        purged(nodes.drop_last(), id)
    } else {
        purged(nodes.drop_last(), id).push(pruned(nodes.last(), id))
    }
}

/// Whether the identifier occurs in the tree, at the top level or one level
/// down.
pub open spec fn present(nodes: Seq<Value>, id: Seq<char>) -> bool {
    any_with_id(nodes, id) || any_child_with_id(nodes, id)
}

/// The tree after the identifiers were purged one after the other.
pub open spec fn purged_all(nodes: Seq<Value>, ids: Seq<Seq<char>>) -> Seq<Value>
    decreases ids.len(),
{
    if ids.len() == 0 {
        nodes
    } else {
        purged(purged_all(nodes, ids.drop_last()), ids.last())
    }
}

/// The identifiers whose purge took something away, in the order asked: an
/// identifier counts when it still occurred in the tree at its turn.
pub open spec fn removed_ids(nodes: Seq<Value>, ids: Seq<Seq<char>>) -> Seq<Seq<char>>
    decreases ids.len(),
{
    if ids.len() == 0 {
        Seq::empty()
    } else if present(purged_all(nodes, ids.drop_last()), ids.last()) {
        removed_ids(nodes, ids.drop_last()).push(ids.last())
    } else {
        removed_ids(nodes, ids.drop_last())
    }
}

/// What stays after a removal was there before, and nothing that stays
/// carries the identifier.
pub proof fn lemma_without_id(nodes: Seq<Value>, id: Seq<char>)
    ensures
        !any_with_id(without_id(nodes, id), id),
        forall|k: int|
            0 <= k < without_id(nodes, id).len() ==> nodes.contains(
                #[trigger] without_id(nodes, id)[k],
            ),
        !any_with_id(nodes, id) ==> without_id(nodes, id) == nodes,
    decreases nodes.len(),
{
    if nodes.len() > 0 {
        let rest = nodes.drop_last();
        lemma_without_id(rest, id);
        let out = without_id(nodes, id);
        assert forall|k: int| 0 <= k < out.len() implies nodes.contains(#[trigger] out[k]) by {
            if k < without_id(rest, id).len() {
                let j = choose|j: int| 0 <= j < rest.len() && rest[j] == without_id(rest, id)[k];
                assert(nodes[j] == out[k]);
            } else {
                assert(nodes[nodes.len() - 1] == out[k]);
            }
        }
        if !any_with_id(nodes, id) {
            assert(!has_id(nodes[nodes.len() - 1], id));
            assert forall|k: int| 0 <= k < rest.len() implies !has_id(#[trigger] rest[k], id) by {
                assert(rest[k] == nodes[k]);
            }
            assert(out =~= nodes);
        }
    }
}

/// Pruning a node keeps its identifier and leaves it the children that do
/// not carry the purged one.
pub proof fn lemma_pruned(node: Value, id: Seq<char>)
    ensures
        node_id(pruned(node, id)) == node_id(node),
        members(pruned(node, id)) == without_id(members(node), id),
        holds_members(pruned(node, id)) == holds_members(node),
{
    reveal_strlit("objects");
    reveal_strlit("id");
    if holds_members(node) {
        let fields = node->Object_0;
        let listed = Value::List(without_id(members(node), id));
        assert(id_key() != objects_key()) by {
            assert(id_key().len() == 2);
            assert(objects_key().len() == 7);
        }
        lemma_upsert_other(fields, objects_key(), listed, id_key());
        lemma_upsert_same(fields, objects_key(), listed);
    } else {
        assert(members(node) =~= Seq::empty());
    }
}

/// Every node of a purged tree is the pruned form of a node that was there
/// and did not carry the identifier.
pub proof fn lemma_purged_sources(nodes: Seq<Value>, id: Seq<char>)
    ensures
        forall|k: int|
            0 <= k < purged(nodes, id).len() ==> exists|j: int|
                0 <= j < nodes.len() && !has_id(nodes[j], id) && #[trigger] purged(nodes, id)[k]
                    == pruned(nodes[j], id),
    decreases nodes.len(),
{
    if nodes.len() > 0 {
        let rest = nodes.drop_last();
        lemma_purged_sources(rest, id);
        let out = purged(nodes, id);
        assert forall|k: int| 0 <= k < out.len() implies exists|j: int|
            0 <= j < nodes.len() && !has_id(nodes[j], id) && #[trigger] out[k] == pruned(
                nodes[j],
                id,
            ) by {
            if k < purged(rest, id).len() {
                let j = choose|j: int|
                    0 <= j < rest.len() && !has_id(rest[j], id) && purged(rest, id)[k] == pruned(
                        rest[j],
                        id,
                    );
                assert(nodes[j] == rest[j]);
            } else {
                let j = nodes.len() - 1;
                assert(out[k] == pruned(nodes[j], id));
            }
        }
    }
}

/// After a purge the identifier occurs at neither level, and no other
/// identifier occurs that did not occur before.
pub proof fn lemma_purged(nodes: Seq<Value>, id: Seq<char>)
    ensures
        !present(purged(nodes, id), id),
        forall|other: Seq<char>|
            #[trigger] present(purged(nodes, id), other) ==> present(nodes, other),
{
    let out = purged(nodes, id);
    lemma_purged_sources(nodes, id);
    assert forall|k: int| 0 <= k < out.len() implies !has_id(#[trigger] out[k], id)
        && !any_with_id(members(out[k]), id) by {
        let j = choose|j: int|
            0 <= j < nodes.len() && !has_id(nodes[j], id) && out[k] == pruned(nodes[j], id);
        lemma_pruned(nodes[j], id);
        lemma_without_id(members(nodes[j]), id);
    }
    assert forall|other: Seq<char>| #[trigger] present(out, other) implies present(
        nodes,
        other,
    ) by {
        if any_with_id(out, other) {
            let k = choose|k: int| 0 <= k < out.len() && has_id(#[trigger] out[k], other);
            let j = choose|j: int|
                0 <= j < nodes.len() && !has_id(nodes[j], id) && out[k] == pruned(nodes[j], id);
            lemma_pruned(nodes[j], id);
            assert(has_id(nodes[j], other));
        } else {
            let k = choose|k: int|
                0 <= k < out.len() && any_with_id(members(#[trigger] out[k]), other);
            let j = choose|j: int|
                0 <= j < nodes.len() && !has_id(nodes[j], id) && out[k] == pruned(nodes[j], id);
            lemma_pruned(nodes[j], id);
            let kept = without_id(members(nodes[j]), id);
            lemma_without_id(members(nodes[j]), id);
            let c = choose|c: int| 0 <= c < kept.len() && has_id(#[trigger] kept[c], other);
            assert(members(nodes[j]).contains(kept[c]));
            let d = choose|d: int|
                0 <= d < members(nodes[j]).len() && members(nodes[j])[d] == kept[c];
            assert(has_id(members(nodes[j])[d], other));
            assert(any_with_id(members(nodes[j]), other));
        }
    }
}

/// After the identifiers were purged, none of them occurs in the tree, at
/// the top level or one level down.
pub proof fn lemma_purged_all(nodes: Seq<Value>, ids: Seq<Seq<char>>)
    ensures
        forall|k: int| 0 <= k < ids.len() ==> !present(purged_all(nodes, ids), #[trigger] ids[k]),
        forall|other: Seq<char>|
            #[trigger] present(purged_all(nodes, ids), other) ==> present(nodes, other),
    decreases ids.len(),
{
    if ids.len() > 0 {
        let earlier = ids.drop_last();
        lemma_purged_all(nodes, earlier);
        lemma_purged(purged_all(nodes, earlier), ids.last());
        assert forall|k: int| 0 <= k < ids.len() implies !present(
            purged_all(nodes, ids),
            #[trigger] ids[k],
        ) by {
            if k < earlier.len() {
                assert(earlier[k] == ids[k]);
                assert(!present(purged_all(nodes, earlier), ids[k]));
            }
        }
    }
}

/// What a search finds is what the search order says: a first node at the
/// top level; or no node there, and the first child of the first container
/// that has one; or the identifier occurs at neither level.
pub proof fn lemma_located(nodes: Seq<Value>, id: Seq<char>)
    ensures
        match locate(nodes, id) {
            Some(Place::Top(i)) => is_first_with_id(nodes, id, i),
            Some(Place::Nested(i, j)) => !any_with_id(nodes, id) && is_first_parent(nodes, id, i)
                && is_first_with_id(members(nodes[i]), id, j),
            None => !present(nodes, id),
        },
{
    if any_with_id(nodes, id) {
        let k = choose|k: int| 0 <= k < nodes.len() && has_id(#[trigger] nodes[k], id);
        lemma_least_with_id(nodes, id, k);
    } else if any_child_with_id(nodes, id) {
        let k = choose|k: int| 0 <= k < nodes.len() && any_with_id(members(#[trigger] nodes[k]), id);
        lemma_least_parent(nodes, id, k);
        let i = first_parent(nodes, id);
        let c = choose|c: int|
            0 <= c < members(nodes[i]).len() && has_id(#[trigger] members(nodes[i])[c], id);
        lemma_least_with_id(members(nodes[i]), id, c);
    }
}

/// A node that is put in the place of the one that a search finds, and
/// carries the same identifier, is what the search finds afterwards, in the
/// same place; no node is added or lost.
pub proof fn lemma_put_at_found(nodes: Seq<Value>, id: Seq<char>, node: Value)
    requires
        locate(nodes, id) is Some,
        has_id(node, id),
    ensures
        locate(put_at(nodes, locate(nodes, id)->0, node), id) == locate(nodes, id),
        find(put_at(nodes, locate(nodes, id)->0, node), id) == Some(node),
        put_at(nodes, locate(nodes, id)->0, node).len() == nodes.len(),
{
    reveal_strlit("objects");
    reveal_strlit("id");
    lemma_located(nodes, id);
    let place = locate(nodes, id)->0;
    let after = put_at(nodes, place, node);
    match place {
        Place::Top(i) => {
            assert forall|k: int| 0 <= k < i implies !has_id(#[trigger] after[k], id) by {
                assert(after[k] == nodes[k]);
            }
            lemma_first_with_id(after, id, i);
        },
        Place::Nested(i, j) => {
            let children = members(nodes[i]);
            let listed = Value::List(children.update(j, node));
            let fields = nodes[i]->Object_0;
            assert(id_key() != objects_key()) by {
                assert(id_key().len() == 2);
                assert(objects_key().len() == 7);
            }
            lemma_upsert_other(fields, objects_key(), listed, id_key());
            lemma_upsert_same(fields, objects_key(), listed);
            assert(members(after[i]) == children.update(j, node));
            assert(node_id(after[i]) == node_id(nodes[i]));
            assert forall|k: int| 0 <= k < after.len() implies !has_id(#[trigger] after[k], id) by {
                if k != i {
                    assert(after[k] == nodes[k]);
                }
                assert(!has_id(nodes[k], id));
            }
            assert(has_id(members(after[i])[j], id));
            assert forall|k: int| 0 <= k < i implies !any_with_id(
                members(#[trigger] after[k]),
                id,
            ) by {
                assert(after[k] == nodes[k]);
            }
            assert forall|c: int| 0 <= c < j implies !has_id(
                #[trigger] members(after[i])[c],
                id,
            ) by {
                assert(members(after[i])[c] == children[c]);
            }
            lemma_first_with_id(members(after[i]), id, j);
            lemma_first_parent(after, id, i);
        },
    }
}

/// An identifier that a deletion reports as removed was asked for, and
/// occurred in the tree.
pub proof fn lemma_removed_ids(nodes: Seq<Value>, ids: Seq<Seq<char>>, id: Seq<char>)
    requires
        removed_ids(nodes, ids).contains(id),
    ensures
        ids.contains(id),
        present(nodes, id),
    decreases ids.len(),
{
    if ids.len() > 0 {
        let earlier = ids.drop_last();
        let before = removed_ids(nodes, earlier);
        if before.contains(id) {
            lemma_removed_ids(nodes, earlier, id);
            let k = choose|k: int| 0 <= k < earlier.len() && earlier[k] == id;
            assert(ids[k] == id);
        } else {
            let out = removed_ids(nodes, ids);
            let k = choose|k: int| 0 <= k < out.len() && out[k] == id;
            if present(purged_all(nodes, earlier), ids.last()) {
                if k < before.len() {
                    assert(before[k] == id);
                }
                assert(ids.last() == id);
                assert(ids[ids.len() - 1] == id);
                lemma_purged_all(nodes, earlier);
            } else {
                assert(before[k] == id);
            }
        }
    }
}

} // verus!
