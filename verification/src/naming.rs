//! Note names: the first-choice name of an item, and the table that gives
//! every identified item a name no other identified item has.

use vstd::prelude::*;
use vstd::string::StringExecFns;
use crate::item::{Item, ItemView};
use crate::notes::{nameable, ExtractedNotes};
use crate::text::{regex_replace_all, replace_char};
use crate::textmap::{has_value, TextMap};

verus! {

/// What every note name begins with.
pub open spec fn marker() -> Seq<char> {
    "(LIT) "@
}

/// A title with each path separator replaced by `(or)`.
pub open spec fn safe_title(title: Seq<char>) -> Seq<char> {
    replace_char(title, '/', "(or)"@)
}

/// The first-choice name of an item: the marker, then the title made safe,
/// or the identifier where there is no title.
pub open spec fn initial_name(item: ItemView) -> Seq<char> {
    marker() + match item.given_title {
        Some(title) => safe_title(title),
        None => match item.margin_note_id {
            Some(id) => id,
            None => Seq::empty(),
        },
    }
}

/// A name with the name of an ancestor added in brackets.
pub open spec fn qualified(name: Seq<char>, ancestor_name: Seq<char>) -> Seq<char> {
    name + " ("@ + ancestor_name + ")"@
}

/// The name that the item at `at` settles on, starting from `name`: while the
/// name is taken, the first-choice name of the next ancestor is added in
/// brackets. There is none when the root is reached with the name still taken.
pub open spec fn settled_name(
    notes: ExtractedNotes,
    table: Map<Seq<char>, Seq<char>>,
    name: Seq<char>,
    at: int,
) -> Option<Seq<char>>
    decreases at,
{
    if !has_value(table, name) {
        Some(name)
    } else {
        match notes.parent_of(at) {
            Some(q) => if 1 <= q < at {
                settled_name(notes, table, qualified(name, initial_name(notes.item_at(q))), q)
            } else {
                None
            },
            None => None,
        }
    }
}

/// The table after the item at `position` has had its turn.
pub open spec fn table_step(
    notes: ExtractedNotes,
    table: Map<Seq<char>, Seq<char>>,
    position: int,
) -> Option<Map<Seq<char>, Seq<char>>> {
    let item = notes.item_at(position);
    match item.margin_note_id {
        None => Some(table),
        Some(id) => match settled_name(notes, table, initial_name(item), position) {
            Some(name) => Some(table.insert(id, name)),
            None => None,
        },
    }
}

/// The table from identifier to note name after the first `n` items have had
/// their turn, in the order of their positions; none when one of them could
/// not be given a name of its own.
pub open spec fn names_upto(notes: ExtractedNotes, n: nat) -> Option<Map<Seq<char>, Seq<char>>>
    decreases n,
{
    if n == 0 {
        Some(Map::empty())
    } else {
        match names_upto(notes, (n - 1) as nat) {
            Some(table) => table_step(notes, table, n as int),
            None => None,
        }
    }
}

/// The table from identifier to note name for the whole forest.
pub open spec fn name_table(notes: ExtractedNotes) -> Option<Map<Seq<char>, Seq<char>>> {
    names_upto(notes, notes.count())
}

/// The name of an item's note: the table's name for an identified item, the
/// first-choice name for another.
pub open spec fn note_name(table: Map<Seq<char>, Seq<char>>, item: ItemView) -> Seq<char> {
    match item.margin_note_id {
        Some(id) => table[id],
        None => initial_name(item),
    }
}

/// Why no name table could be built.
#[derive(Debug)]
pub enum NamingError {
    /// The item at this position shares its name with an earlier one, and so
    /// does every name that its ancestors could qualify it with.
    Unresolved(usize),
}

/// The first-choice name of an item.
pub fn initial_note_name(item: &Item) -> (r: String)
    requires
        nameable(item@),
    ensures
        r@ == initial_name(item@),
{
    let mut out = String::from_str("(LIT) ");
    match &item.given_title {
        Some(title) => {
            proof {
                reveal_strlit("/");
                reveal_strlit("(or)");
                assert("/"@ =~= seq!['/']);
                assert(!"(or)"@.contains('$'));
            }
            // A single slash is a pattern that compiles, so there is a result.
            match regex_replace_all("/", title.as_str(), "(or)") {
                Some(clean) => out.append(clean.as_str()),
                None => {},
            }
        },
        None => match &item.margin_note_id {
            Some(id) => out.append(id.as_str()),
            None => {},
        },
    }
    out
}

/// A name that nothing in `table` has yet, for the item at `position`.
pub fn settle_name(notes: &ExtractedNotes, table: &TextMap, position: usize) -> (r: Option<String>)
    requires
        notes.wf(),
        table.wf(),
        notes.has(position as int),
    ensures
        crate::text::opt_view(r) == settled_name(
            *notes,
            table@,
            initial_name(notes.item_at(position as int)),
            position as int,
        ),
{
    let mut name = initial_note_name(notes.item(position));
    let mut at: usize = position;
    loop
        invariant
            notes.wf(),
            table.wf(),
            notes.has(at as int),
            settled_name(*notes, table@, name@, at as int) == settled_name(
                *notes,
                table@,
                initial_name(notes.item_at(position as int)),
                position as int,
            ),
        decreases at,
    {
        if !table.contains_value(&name) {
            return Some(name);
        }
        match notes.parent(at) {
            Some(q) => {
                let ancestor = initial_note_name(notes.item(q));
                name.append(" (");
                name.append(ancestor.as_str());
                name.append(")");
                at = q;
            },
            None => {
                return None;
            },
        }
    }
}

/// The table from identifier to note name for the whole forest.
pub fn create_node_name_map(notes: &ExtractedNotes) -> (r: Result<TextMap, NamingError>)
    requires
        notes.wf(),
    ensures
        match r {
            Ok(table) => table.wf() && name_table(*notes) == Some(table@),
            Err(NamingError::Unresolved(position)) => {
                &&& notes.has(position as int)
                &&& names_upto(*notes, (position - 1) as nat).is_some()
                &&& names_upto(*notes, position as nat).is_none()
                &&& name_table(*notes).is_none()
            },
        },
{
    let mut out = TextMap::new();
    let n: usize = notes.len();
    let mut done: usize = 0;
    while done < n
        invariant
            notes.wf(),
            out.wf(),
            n == notes.count(),
            done <= n,
            names_upto(*notes, done as nat) == Some(out@),
        decreases n - done,
    {
        let position: usize = done + 1;
        let item = notes.item(position);
        match &item.margin_note_id {
            Some(id) => {
                match settle_name(notes, &out, position) {
                    Some(name) => {
                        out.insert(id.clone(), name);
                    },
                    None => {
                        proof {
                            lemma_names_stay_none(*notes, position as nat, n as nat);
                        }
                        return Err(NamingError::Unresolved(position));
                    },
                }
            },
            None => {},
        }
        done = position;
    }
    Ok(out)
}

/// Once an item could not be named, the table stays undefined.
pub proof fn lemma_names_stay_none(notes: ExtractedNotes, k: nat, n: nat)
    requires
        names_upto(notes, k).is_none(),
        k <= n,
    ensures
        names_upto(notes, n).is_none(),
    decreases n,
{
    if k < n {
        lemma_names_stay_none(notes, k, (n - 1) as nat);
    }
}

/// A name that an item settles on is one that nothing in the table has, and
/// it begins with the name the item started from.
pub proof fn lemma_settled_name(
    notes: ExtractedNotes,
    table: Map<Seq<char>, Seq<char>>,
    name: Seq<char>,
    at: int,
)
    ensures
        match settled_name(notes, table, name, at) {
            Some(settled) => !has_value(table, settled) && name.is_prefix_of(settled),
            None => has_value(table, name),
        },
    decreases at,
{
    if has_value(table, name) {
        match notes.parent_of(at) {
            Some(q) => {
                if 1 <= q < at {
                    let next = qualified(name, initial_name(notes.item_at(q)));
                    lemma_settled_name(notes, table, next, q);
                    if settled_name(notes, table, next, q).is_some() {
                        let settled = settled_name(notes, table, next, q).unwrap();
                        assert(name.is_prefix_of(next)) by {
                            assert(next.subrange(0, name.len() as int) =~= name);
                        }
                        assert(name.is_prefix_of(settled)) by {
                            assert(settled.subrange(0, next.len() as int) == next);
                            assert(settled.subrange(0, name.len() as int) =~= next.subrange(
                                0,
                                name.len() as int,
                            ));
                        }
                    }
                }
            },
            None => {},
        }
    } else {
        assert(name.subrange(0, name.len() as int) =~= name);
    }
}

/// A name that was taken when its item was reached is qualified by the
/// first-choice name of the item's parent.
pub proof fn lemma_settled_qualified(
    notes: ExtractedNotes,
    table: Map<Seq<char>, Seq<char>>,
    name: Seq<char>,
    at: int,
)
    requires
        has_value(table, name),
        settled_name(notes, table, name, at).is_some(),
    ensures
        notes.parent_of(at).is_some(),
        qualified(name, initial_name(notes.item_at(notes.parent_of(at).unwrap()))).is_prefix_of(
            settled_name(notes, table, name, at).unwrap(),
        ),
{
    let q = notes.parent_of(at).unwrap();
    lemma_settled_name(notes, table, qualified(name, initial_name(notes.item_at(q))), q);
}

/// No two identifiers of the table have the same name.
pub open spec fn distinct_names(table: Map<Seq<char>, Seq<char>>) -> bool {
    forall|a: Seq<char>, b: Seq<char>|
        table.dom().contains(a) && table.dom().contains(b) && a != b ==> #[trigger] table[a]
            != #[trigger] table[b]
}

/// At every stage the table gives different identifiers different names, and
/// it names the identifier of every item that has had its turn.
pub proof fn lemma_names_upto(notes: ExtractedNotes, n: nat)
    requires
        names_upto(notes, n).is_some(),
    ensures
        distinct_names(names_upto(notes, n).unwrap()),
        forall|p: int|
            1 <= p <= n ==> match (#[trigger] notes.item_at(p)).margin_note_id {
                Some(id) => names_upto(notes, n).unwrap().dom().contains(id),
                None => true,
            },
    decreases n,
{
    if n > 0 {
        let before = names_upto(notes, (n - 1) as nat).unwrap();
        let after = names_upto(notes, n).unwrap();
        lemma_names_upto(notes, (n - 1) as nat);
        let item = notes.item_at(n as int);
        match item.margin_note_id {
            Some(id) => {
                lemma_settled_name(notes, before, initial_name(item), n as int);
                let name = settled_name(notes, before, initial_name(item), n as int).unwrap();
                assert(after == before.insert(id, name));
                assert forall|a: Seq<char>, b: Seq<char>|
                    after.dom().contains(a) && after.dom().contains(b) && a != b implies
                    #[trigger] after[a] != #[trigger] after[b] by {
                    if a == id {
                        assert(before.dom().contains(b));
                        assert(before[b] != name);
                    } else if b == id {
                        assert(before.dom().contains(a));
                        assert(before[a] != name);
                    } else {
                        assert(before[a] != before[b]);
                    }
                }
            },
            None => {},
        }
        assert forall|p: int| 1 <= p <= n implies match (#[trigger] notes.item_at(
            p,
        )).margin_note_id {
            Some(id) => after.dom().contains(id),
            None => true,
        } by {
            if p < n {
                match notes.item_at(p).margin_note_id {
                    Some(id) => {
                        assert(before.dom().contains(id));
                    },
                    None => {},
                }
            }
        }
    }
}

/// Once an item has had its turn, the name of its identifier changes only
/// when a later item carries the same identifier.
pub proof fn lemma_name_kept(notes: ExtractedNotes, k: nat, n: nat, id: Seq<char>)
    requires
        k <= n,
        names_upto(notes, n).is_some(),
        forall|p: int| k < p <= n ==> (#[trigger] notes.item_at(p)).margin_note_id != Some(id),
    ensures
        names_upto(notes, k).is_some(),
        names_upto(notes, k).unwrap().dom().contains(id) ==> names_upto(notes, n).unwrap().dom().contains(id)
            && names_upto(notes, n).unwrap()[id] == names_upto(notes, k).unwrap()[id],
    decreases n,
{
    if k < n {
        lemma_name_kept(notes, k, (n - 1) as nat, id);
        assert(notes.item_at(n as int).margin_note_id != Some(id));
    }
}

/// The table names the identifier of every item of the forest, so that a
/// link to any identified item can be resolved.
pub proof fn lemma_every_identifier_named(notes: ExtractedNotes, p: int)
    requires
        name_table(notes).is_some(),
        notes.has(p),
        notes.item_at(p).margin_note_id.is_some(),
    ensures
        name_table(notes).unwrap().dom().contains(notes.item_at(p).margin_note_id.unwrap()),
{
    lemma_names_upto(notes, notes.count());
}

/// Two items with different identifiers get different note names.
pub proof fn lemma_distinct_note_names(notes: ExtractedNotes, p: int, q: int)
    requires
        name_table(notes).is_some(),
        notes.has(p),
        notes.has(q),
        notes.item_at(p).margin_note_id.is_some(),
        notes.item_at(q).margin_note_id.is_some(),
        notes.item_at(p).margin_note_id != notes.item_at(q).margin_note_id,
    ensures
        note_name(name_table(notes).unwrap(), notes.item_at(p)) != note_name(
            name_table(notes).unwrap(),
            notes.item_at(q),
        ),
{
    lemma_names_upto(notes, notes.count());
    let table = name_table(notes).unwrap();
    let a = notes.item_at(p).margin_note_id.unwrap();
    let b = notes.item_at(q).margin_note_id.unwrap();
    assert(table.dom().contains(a));
    assert(table.dom().contains(b));
}

/// An identified item whose first-choice name was taken when it was reached,
/// and whose identifier no later item carries, has a parent, and its note
/// name begins with its first-choice name followed by the parent's in brackets.
pub proof fn lemma_collision_names_parent(notes: ExtractedNotes, p: int)
    requires
        name_table(notes).is_some(),
        notes.has(p),
        notes.item_at(p).margin_note_id.is_some(),
        forall|r: int|
            p < r <= notes.count() ==> (#[trigger] notes.item_at(r)).margin_note_id
                != notes.item_at(p).margin_note_id,
        has_value(names_upto(notes, (p - 1) as nat).unwrap(), initial_name(notes.item_at(p))),
    ensures
        notes.parent_of(p).is_some(),
        qualified(
            initial_name(notes.item_at(p)),
            initial_name(notes.item_at(notes.parent_of(p).unwrap())),
        ).is_prefix_of(note_name(name_table(notes).unwrap(), notes.item_at(p))),
{
    let id = notes.item_at(p).margin_note_id.unwrap();
    lemma_name_kept(notes, p as nat, notes.count(), id);
    let before = names_upto(notes, (p - 1) as nat).unwrap();
    lemma_settled_qualified(notes, before, initial_name(notes.item_at(p)), p);
}

} // verus!
