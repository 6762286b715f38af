//! The extracted outline: every item of one document, as a forest.

use vstd::prelude::*;
use indextree::Arena;
use crate::item::{Item, ItemView};
use crate::tree::{
    all_live, arena_append_value, arena_children, arena_children_of, arena_item, arena_items,
    arena_len, arena_new, arena_new_node, arena_parent, arena_parents,
};

verus! {

/// The items of one document. A node is known by its position in the arena,
/// counted from 1; positions follow the order in which the items were added.
pub struct ExtractedNotes {
    pub items_arena: Arena<Item>,
    /// The positions of the top-level items, in document order.
    pub roots: Vec<usize>,
}

/// An item has a display name when it has a title or an identifier.
pub open spec fn nameable(item: ItemView) -> bool {
    item.given_title.is_some() || item.margin_note_id.is_some()
}

impl ExtractedNotes {
    /// The number of items.
    pub open spec fn count(&self) -> nat {
        arena_items(self.items_arena).len()
    }

    /// `position` names an item.
    pub open spec fn has(&self, position: int) -> bool {
        1 <= position <= self.count()
    }

    /// The item at `position`.
    pub open spec fn item_at(&self, position: int) -> ItemView {
        arena_items(self.items_arena)[position - 1].unwrap()
    }

    /// The position of the parent of the item at `position`, if it has one.
    pub open spec fn parent_of(&self, position: int) -> Option<int> {
        arena_parents(self.items_arena)[position - 1]
    }

    /// The positions of the children of the item at `position`, first to last.
    pub open spec fn children_of(&self, position: int) -> Seq<int> {
        arena_children(self.items_arena)[position - 1]
    }

    /// The items in the order of their positions.
    pub open spec fn items(&self) -> Seq<ItemView> {
        Seq::new(self.count(), |i: int| self.item_at(i + 1))
    }

    /// The top-level positions.
    pub open spec fn root_positions(&self) -> Seq<int> {
        self.roots@.map_values(|r: usize| r as int)
    }

    /// What holds of every forest this crate builds: no node was removed,
    /// every item has a display name, a parent stands before its children, and
    /// the child lists and the parent links agree.
    pub open spec fn wf(&self) -> bool {
        let a = self.items_arena;
        &&& self.count() <= usize::MAX
        &&& arena_parents(a).len() == self.count()
        &&& arena_children(a).len() == self.count()
        &&& all_live(a)
        &&& forall|p: int| self.has(p) ==> nameable(#[trigger] self.item_at(p))
        &&& forall|p: int|
            self.has(p) ==> match #[trigger] self.parent_of(p) {
                Some(q) => 1 <= q < p,
                None => true,
            }
        &&& forall|p: int, k: int|
            self.has(p) && 0 <= k < self.children_of(p).len() ==> {
                let c = #[trigger] self.children_of(p)[k];
                p < c <= self.count() && self.parent_of(c) == Some(p)
            }
        &&& forall|k: int|
            0 <= k < self.roots@.len() ==> self.has(#[trigger] self.roots@[k] as int)
                && self.parent_of(self.roots@[k] as int).is_none()
    }

    /// A forest without items.
    pub fn new() -> (r: ExtractedNotes)
        ensures
            r.wf(),
            r.count() == 0,
            r.roots@.len() == 0,
    {
        ExtractedNotes { items_arena: arena_new(), roots: Vec::new() }
    }

    /// The number of items.
    pub fn len(&self) -> (n: usize)
        ensures
            n == self.count(),
    {
        arena_len(&self.items_arena)
    }

    /// Adds a top-level item after the ones already there and returns its position.
    pub fn add_root(&mut self, item: Item) -> (position: usize)
        requires
            old(self).wf(),
            old(self).count() < usize::MAX,
            nameable(item@),
        ensures
            final(self).wf(),
            position == old(self).count() + 1,
            final(self).count() == old(self).count() + 1,
            final(self).item_at(position as int) == item@,
            final(self).parent_of(position as int).is_none(),
            final(self).children_of(position as int) == Seq::<int>::empty(),
            final(self).roots@ == old(self).roots@.push(position),
            forall|p: int| old(self).has(p) ==> {
                &&& final(self).item_at(p) == old(self).item_at(p)
                &&& final(self).parent_of(p) == old(self).parent_of(p)
                &&& final(self).children_of(p) == old(self).children_of(p)
            },
    {
        let position = arena_new_node(&mut self.items_arena, item);
        self.roots.push(position);
        proof {
            let before = *old(self);
            assert forall|p: int, k: int|
                self.has(p) && 0 <= k < self.children_of(p).len() implies {
                    let c = #[trigger] self.children_of(p)[k];
                    p < c <= self.count() && self.parent_of(c) == Some(p)
                } by {
                assert(before.has(p));
                let c = before.children_of(p)[k];
                assert(before.has(c));
            }
            assert forall|p: int| self.has(p) implies nameable(#[trigger] self.item_at(p)) by {
                if p < position {
                    assert(before.has(p));
                    assert(self.item_at(p) == before.item_at(p));
                }
            }
            assert forall|p: int| self.has(p) implies match #[trigger] self.parent_of(p) {
                Some(q) => 1 <= q < p,
                None => true,
            } by {
                if p < position {
                    assert(before.has(p));
                    assert(self.parent_of(p) == before.parent_of(p));
                }
            }
            assert forall|k: int| 0 <= k < self.roots@.len() implies self.has(
                #[trigger] self.roots@[k] as int,
            ) && self.parent_of(self.roots@[k] as int).is_none() by {
                if k < before.roots@.len() {
                    assert(before.has(before.roots@[k] as int));
                }
            }
        }
        position
    }

    /// Adds an item as the last child of the item at `parent` and returns its position.
    pub fn add_child(&mut self, parent: usize, item: Item) -> (position: usize)
        requires
            old(self).wf(),
            old(self).count() < usize::MAX,
            old(self).has(parent as int),
            nameable(item@),
        ensures
            final(self).wf(),
            position == old(self).count() + 1,
            final(self).count() == old(self).count() + 1,
            final(self).item_at(position as int) == item@,
            final(self).parent_of(position as int) == Some(parent as int),
            final(self).children_of(position as int) == Seq::<int>::empty(),
            final(self).children_of(parent as int) == old(self).children_of(parent as int).push(
                position as int,
            ),
            final(self).roots@ == old(self).roots@,
            forall|p: int| old(self).has(p) ==> {
                &&& final(self).item_at(p) == old(self).item_at(p)
                &&& final(self).parent_of(p) == old(self).parent_of(p)
                &&& p != parent ==> final(self).children_of(p) == old(self).children_of(p)
            },
    {
        let position = arena_append_value(&mut self.items_arena, parent, item);
        proof {
            let before = *old(self);
            assert forall|p: int, k: int|
                self.has(p) && 0 <= k < self.children_of(p).len() implies {
                    let c = #[trigger] self.children_of(p)[k];
                    p < c <= self.count() && self.parent_of(c) == Some(p)
                } by {
                assert(before.has(p));
                if p == parent && k == before.children_of(p).len() {
                } else {
                    let c = before.children_of(p)[k];
                    assert(before.has(c));
                }
            }
            assert forall|p: int| self.has(p) implies nameable(#[trigger] self.item_at(p)) by {
                if p < position {
                    assert(before.has(p));
                    assert(self.item_at(p) == before.item_at(p));
                }
            }
            assert forall|p: int| self.has(p) implies match #[trigger] self.parent_of(p) {
                Some(q) => 1 <= q < p,
                None => true,
            } by {
                if p < position {
                    assert(before.has(p));
                    assert(self.parent_of(p) == before.parent_of(p));
                }
            }
            assert forall|k: int| 0 <= k < self.roots@.len() implies self.has(
                #[trigger] self.roots@[k] as int,
            ) && self.parent_of(self.roots@[k] as int).is_none() by {
                assert(before.has(before.roots@[k] as int));
            }
        }
        position
    }

    /// The item at `position`.
    pub fn item(&self, position: usize) -> (item: &Item)
        requires
            self.wf(),
            self.has(position as int),
        ensures
            item@ == self.item_at(position as int),
            nameable(item@),
    {
        arena_item(&self.items_arena, position)
    }

    /// The position of the parent of the item at `position`, if it has one.
    pub fn parent(&self, position: usize) -> (parent: Option<usize>)
        requires
            self.wf(),
            self.has(position as int),
        ensures
            match parent {
                Some(q) => self.parent_of(position as int) == Some(q as int) && 1 <= q < position,
                None => self.parent_of(position as int).is_none(),
            },
    {
        arena_parent(&self.items_arena, position)
    }

    /// The positions of the children of the item at `position`, first to last.
    pub fn children(&self, position: usize) -> (children: Vec<usize>)
        requires
            self.wf(),
            self.has(position as int),
        ensures
            children@.map_values(|c: usize| c as int) == self.children_of(position as int),
            forall|k: int| 0 <= k < children@.len() ==> self.has(#[trigger] children@[k] as int),
    {
        let children = arena_children_of(&self.items_arena, position);
        proof {
            assert forall|k: int| 0 <= k < children@.len() implies self.has(
                #[trigger] children@[k] as int,
            ) by {
                let mapped = children@.map_values(|c: usize| c as int);
                assert(mapped[k] == children@[k] as int);
                assert(self.children_of(position as int)[k] == children@[k] as int);
            }
        }
        children
    }
}

} // verus!
