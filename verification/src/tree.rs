//! The item tree: an `indextree` arena whose nodes hold the items, together
//! with the model of it that the contracts of this crate speak of.
//!
//! Nodes are known by their position in the arena, counted from 1 as the
//! arena itself counts them.

use vstd::prelude::*;
use indextree::Arena;
use std::num::NonZeroUsize;
use crate::item::{Item, ItemView};

verus! {

#[verifier::external_type_specification]
#[verifier::external_body]
#[verifier::reject_recursive_types(T)]
pub struct ExArena<T>(Arena<T>);

/// What each slot of the arena holds, in storage order: the item of a live
/// node, or nothing for a slot whose node was removed.
pub uninterp spec fn arena_items(a: Arena<Item>) -> Seq<Option<ItemView>>;

/// For each slot of the arena, the position of its node's parent, if it has one.
pub uninterp spec fn arena_parents(a: Arena<Item>) -> Seq<Option<int>>;

/// For each slot of the arena, the positions of its node's children, first to last.
pub uninterp spec fn arena_children(a: Arena<Item>) -> Seq<Seq<int>>;

/// Every slot of the arena holds a live node.
pub open spec fn all_live(a: Arena<Item>) -> bool {
    forall|i: int| 0 <= i < arena_items(a).len() ==> (#[trigger] arena_items(a)[i]).is_some()
}

/// `position` is the position of a live node of the arena.
pub open spec fn live_at(a: Arena<Item>, position: int) -> bool {
    1 <= position <= arena_items(a).len() && arena_items(a)[position - 1].is_some()
}

/// `Arena::new`: the arena it returns has no slots.
#[verifier::external_body]
pub(crate) fn arena_new() -> (a: Arena<Item>)
    ensures
        arena_items(a) == Seq::<Option<ItemView>>::empty(),
        arena_parents(a) == Seq::<Option<int>>::empty(),
        arena_children(a) == Seq::<Seq<int>>::empty(),
{
    Arena::new()
}

/// `Arena::len`: the number of slots, removed nodes included.
#[verifier::external_body]
pub(crate) fn arena_len(a: &Arena<Item>) -> (n: usize)
    ensures
        n == arena_items(*a).len(),
{
    a.len()
}

/// `Arena::new_node`: with no freed slot to reuse, the new node takes a new
/// slot at the end; it has no parent and no children, and the other nodes are
/// as they were. The result is the new node's position.
#[verifier::external_body]
pub(crate) fn arena_new_node(a: &mut Arena<Item>, item: Item) -> (position: usize)
    requires
        all_live(*old(a)),
        arena_items(*old(a)).len() < usize::MAX,
    ensures
        arena_items(*final(a)) == arena_items(*old(a)).push(Some(item@)),
        arena_parents(*final(a)) == arena_parents(*old(a)).push(None),
        arena_children(*final(a)) == arena_children(*old(a)).push(Seq::empty()),
        position == arena_items(*old(a)).len() + 1,
{
    usize::from(a.new_node(item))
}

/// `NodeId::append_value`: with no freed slot to reuse, the new node takes a
/// new slot at the end and becomes the last child of the node at `parent`; it
/// has no children, and the other nodes are as they were. The result is the
/// new node's position.
#[verifier::external_body]
pub(crate) fn arena_append_value(a: &mut Arena<Item>, parent: usize, item: Item) -> (position: usize)
    requires
        all_live(*old(a)),
        arena_items(*old(a)).len() < usize::MAX,
        arena_parents(*old(a)).len() == arena_items(*old(a)).len(),
        arena_children(*old(a)).len() == arena_items(*old(a)).len(),
        1 <= parent <= arena_items(*old(a)).len(),
    ensures
        arena_items(*final(a)) == arena_items(*old(a)).push(Some(item@)),
        arena_parents(*final(a)) == arena_parents(*old(a)).push(Some(parent as int)),
        arena_children(*final(a)) == arena_children(*old(a)).update(
            parent - 1,
            arena_children(*old(a))[parent - 1].push(arena_items(*old(a)).len() as int + 1),
        ).push(Seq::empty()),
        position == arena_items(*old(a)).len() + 1,
{
    let parent_id = a.get_node_id_at(NonZeroUsize::new(parent).unwrap()).unwrap();
    usize::from(parent_id.append_value(item, a))
}

/// `Arena::get_node_id_at`, `Arena::get` and `Node::get`: the item that the
/// live node at `position` holds.
#[verifier::external_body]
pub(crate) fn arena_item(a: &Arena<Item>, position: usize) -> (item: &Item)
    requires
        live_at(*a, position as int),
    ensures
        arena_items(*a)[position - 1] == Some(item@),
{
    let id = a.get_node_id_at(NonZeroUsize::new(position).unwrap()).unwrap();
    a.get(id).unwrap().get()
}

/// `Node::parent`: the position of the parent of the live node at `position`,
/// if it has one.
#[verifier::external_body]
pub(crate) fn arena_parent(a: &Arena<Item>, position: usize) -> (parent: Option<usize>)
    requires
        live_at(*a, position as int),
        arena_parents(*a).len() == arena_items(*a).len(),
    ensures
        arena_parents(*a)[position - 1] == match parent {
            Some(p) => Some(p as int),
            None => None,
        },
{
    let id = a.get_node_id_at(NonZeroUsize::new(position).unwrap()).unwrap();
    a.get(id).unwrap().parent().map(usize::from)
}

/// `NodeId::children`: the positions of the children of the live node at
/// `position`, first to last.
#[verifier::external_body]
pub(crate) fn arena_children_of(a: &Arena<Item>, position: usize) -> (children: Vec<usize>)
    requires
        live_at(*a, position as int),
        arena_children(*a).len() == arena_items(*a).len(),
    ensures
        children@.map_values(|c: usize| c as int) == arena_children(*a)[position - 1],
{
    let id = a.get_node_id_at(NonZeroUsize::new(position).unwrap()).unwrap();
    id.children(a).map(usize::from).collect()
}

} // verus!
