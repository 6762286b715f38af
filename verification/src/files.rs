//! What an export does to the note directory, with the directory seen as a
//! map from path to content.

use vstd::prelude::*;
use crate::body::{header_block, note_text};
use crate::exporter::{previous_path, Exporter, NoteWriteView};
use crate::scan::{note_id, previous_index, scanned, NoteFile};
use crate::item::metadata_of;

verus! {

/// The directory after one step: the stale file is gone, then the note is written.
pub open spec fn apply_write(files: Map<Seq<char>, Seq<char>>, step: NoteWriteView) -> Map<
    Seq<char>,
    Seq<char>,
> {
    let cleared = match step.stale {
        Some(old) => files.remove(old),
        None => files,
    };
    cleared.insert(step.path, step.body)
}

/// The directory after the steps of a plan, carried out in order.
pub open spec fn apply_plan(files: Map<Seq<char>, Seq<char>>, plan: Seq<NoteWriteView>) -> Map<
    Seq<char>,
    Seq<char>,
>
    decreases plan.len(),
{
    if plan.len() == 0 {
        files
    } else {
        apply_write(apply_plan(files, plan.drop_last()), plan.last())
    }
}

/// No step of the plan deletes a file.
pub open spec fn deletes_nothing(plan: Seq<NoteWriteView>) -> bool {
    forall|k: int| 0 <= k < plan.len() ==> (#[trigger] plan[k]).stale.is_none()
}

/// Wherever the index of the earlier export knows an item, it has the path
/// that the item's note goes to now.
pub open spec fn index_is_current(exporter: Exporter) -> bool {
    forall|p: int|
        exporter.notes.has(p) ==> match #[trigger] previous_path(
            exporter.previous_id_map@,
            exporter.notes.item_at(p),
        ) {
            Some(old) => old == exporter.path_at(p),
            None => true,
        }
}

proof fn lemma_overlay(files: Map<Seq<char>, Seq<char>>, plan: Seq<NoteWriteView>)
    requires
        deletes_nothing(plan),
    ensures
        apply_plan(files, plan) == files.union_prefer_right(apply_plan(Map::empty(), plan)),
    decreases plan.len(),
{
    if plan.len() == 0 {
        assert(files =~= files.union_prefer_right(Map::empty()));
    } else {
        let head = plan.drop_last();
        assert forall|k: int| 0 <= k < head.len() implies (#[trigger] head[k]).stale.is_none() by {
            assert(head[k] == plan[k]);
        }
        lemma_overlay(files, head);
        assert(plan.last() == plan[plan.len() - 1]);
        assert(plan.last().stale.is_none());
        assert(apply_plan(files, plan) =~= files.union_prefer_right(
            apply_plan(Map::empty(), plan),
        ));
    }
}

/// Carrying out a plan that deletes nothing a second time changes nothing.
pub proof fn lemma_replay(files: Map<Seq<char>, Seq<char>>, plan: Seq<NoteWriteView>)
    requires
        deletes_nothing(plan),
    ensures
        apply_plan(apply_plan(files, plan), plan) == apply_plan(files, plan),
{
    lemma_overlay(files, plan);
    lemma_overlay(apply_plan(files, plan), plan);
    let written = apply_plan(Map::empty(), plan);
    assert(files.union_prefer_right(written).union_prefer_right(written)
        =~= files.union_prefer_right(written));
}

/// The paths and the contents that an export writes do not depend on what
/// the note directory held before.
pub proof fn lemma_writes_do_not_depend_on_index(
    first: Exporter,
    second: Exporter,
    plan_first: Seq<NoteWriteView>,
    plan_second: Seq<NoteWriteView>,
)
    requires
        first.wf(),
        second.wf(),
        first.notes == second.notes,
        first.note_dir@ == second.note_dir@,
        first.is_plan(plan_first),
        second.is_plan(plan_second),
    ensures
        plan_first.len() == plan_second.len(),
        forall|k: int|
            0 <= k < plan_first.len() ==> (#[trigger] plan_first[k]).path == plan_second[k].path
                && plan_first[k].body == plan_second[k].body,
{
    assert(first.note_name_map@ == second.note_name_map@);
    assert forall|k: int| 0 <= k < plan_first.len() implies (#[trigger] plan_first[k]).path
        == plan_second[k].path && plan_first[k].body == plan_second[k].body by {
        let p = k + 1;
        assert(first.write_at(p) == Some(plan_first[p - 1]));
        assert(second.write_at(p) == Some(plan_second[p - 1]));
        assert(first.child_names_at(p) =~= second.child_names_at(p));
    }
}

/// An export over the result of the same export deletes nothing and leaves
/// every file as it is: when the index is current, no step has a stale file,
/// and carrying the plan out again gives the same directory.
pub proof fn lemma_export_again(
    exporter: Exporter,
    plan: Seq<NoteWriteView>,
    files: Map<Seq<char>, Seq<char>>,
)
    requires
        exporter.wf(),
        exporter.is_plan(plan),
        index_is_current(exporter),
    ensures
        deletes_nothing(plan),
        apply_plan(apply_plan(files, plan), plan) == apply_plan(files, plan),
{
    assert forall|k: int| 0 <= k < plan.len() implies (#[trigger] plan[k]).stale.is_none() by {
        let p = k + 1;
        assert(exporter.notes.has(p));
        assert(exporter.write_at(p) == Some(plan[p - 1]));
        let known = previous_path(exporter.previous_id_map@, exporter.notes.item_at(p));
        assert(known.is_some() ==> known.unwrap() == exporter.path_at(p));
    }
    lemma_replay(files, plan);
}

/// A file that some step deletes and no step writes is not there afterwards.
pub proof fn lemma_deleted_stays_away(
    files: Map<Seq<char>, Seq<char>>,
    plan: Seq<NoteWriteView>,
    k: int,
    path: Seq<char>,
)
    requires
        0 <= k < plan.len(),
        plan[k].stale == Some(path),
        forall|j: int| 0 <= j < plan.len() ==> (#[trigger] plan[j]).path != path,
    ensures
        !apply_plan(files, plan).dom().contains(path),
    decreases plan.len(),
{
    let head = plan.drop_last();
    assert(plan.last() == plan[plan.len() - 1]);
    assert(plan.last().path != path);
    if k < plan.len() - 1 {
        assert(head[k] == plan[k]);
        assert forall|j: int| 0 <= j < head.len() implies (#[trigger] head[j]).path != path by {
            assert(head[j] == plan[j]);
        }
        lemma_deleted_stays_away(files, head, k, path);
    }
}

/// A file holds what a step wrote to it when no later step writes or deletes it.
pub proof fn lemma_written_stays(files: Map<Seq<char>, Seq<char>>, plan: Seq<NoteWriteView>, k: int)
    requires
        0 <= k < plan.len(),
        forall|j: int|
            k < j < plan.len() ==> (#[trigger] plan[j]).path != plan[k].path && plan[j].stale
                != Some(plan[k].path),
    ensures
        apply_plan(files, plan).dom().contains(plan[k].path),
        apply_plan(files, plan)[plan[k].path] == plan[k].body,
    decreases plan.len(),
{
    let head = plan.drop_last();
    assert(plan.last() == plan[plan.len() - 1]);
    if k < plan.len() - 1 {
        assert(head[k] == plan[k]);
        assert forall|j: int| k < j < head.len() implies (#[trigger] head[j]).path != head[k].path
            && head[j].stale != Some(head[k].path) by {
            assert(head[j] == plan[j]);
        }
        lemma_written_stays(files, head, k);
    }
}

/// When an item's note goes to another path than the one the index has for
/// its identifier, the step for the item deletes the old file and writes the
/// new one, whose metadata header carries the identifier. If no step writes
/// the old path, and no later step writes or deletes the new one, then after
/// the export the old file is gone and the new file holds the item's note.
pub proof fn lemma_rename(
    exporter: Exporter,
    plan: Seq<NoteWriteView>,
    files: Map<Seq<char>, Seq<char>>,
    p: int,
)
    requires
        exporter.wf(),
        exporter.is_plan(plan),
        exporter.notes.has(p),
        previous_path(exporter.previous_id_map@, exporter.notes.item_at(p)).is_some(),
        previous_path(exporter.previous_id_map@, exporter.notes.item_at(p)) != Some(
            exporter.path_at(p),
        ),
        forall|j: int|
            0 <= j < plan.len() ==> (#[trigger] plan[j]).path != previous_path(
                exporter.previous_id_map@,
                exporter.notes.item_at(p),
            ).unwrap(),
        forall|j: int|
            p <= j < plan.len() ==> (#[trigger] plan[j]).path != exporter.path_at(p)
                && plan[j].stale != Some(exporter.path_at(p)),
    ensures
        plan[p - 1].stale == previous_path(exporter.previous_id_map@, exporter.notes.item_at(p)),
        plan[p - 1].path == exporter.path_at(p),
        exporter.header_at(p).is_some(),
        exporter.header_at(p) == header_block(
            metadata_of(exporter.notes.item_at(p), exporter.parent_name_at(p)),
        ),
        metadata_of(exporter.notes.item_at(p), exporter.parent_name_at(p)).margin_note_id
            == exporter.notes.item_at(p).margin_note_id,
        plan[p - 1].body == note_text(
            exporter.header_at(p).unwrap(),
            exporter.notes.item_at(p),
            exporter.child_names_at(p),
        ),
        !apply_plan(files, plan).dom().contains(
            previous_path(exporter.previous_id_map@, exporter.notes.item_at(p)).unwrap(),
        ),
        apply_plan(files, plan).dom().contains(exporter.path_at(p)),
        apply_plan(files, plan)[exporter.path_at(p)] == plan[p - 1].body,
{
    assert(exporter.write_at(p) == Some(plan[p - 1]));
    let old = previous_path(exporter.previous_id_map@, exporter.notes.item_at(p)).unwrap();
    lemma_deleted_stays_away(files, plan, p - 1, old);
    lemma_written_stays(files, plan, p - 1);
}

/// Every one of the files is a file that some step of the plan wrote, with
/// the text that the step wrote.
pub open spec fn written_by(files: Seq<NoteFile>, plan: Seq<NoteWriteView>) -> bool {
    forall|k: int| 0 <= k < files.len() ==> written_in(#[trigger] files[k], plan)
}

/// Some step of the plan wrote the file, with the text it has.
pub open spec fn written_in(file: NoteFile, plan: Seq<NoteWriteView>) -> bool {
    exists|j: int|
        0 <= j < plan.len() && (#[trigger] plan[j]).path == file.path@ && plan[j].body == file.text@
}

/// The identifier that is read back from the note of an item is the item's own.
pub open spec fn identifiers_read_back(exporter: Exporter) -> bool {
    forall|p: int|
        exporter.notes.has(p) && exporter.body_at(p).is_some() ==> note_id(
            #[trigger] exporter.body_at(p).unwrap(),
        ) == exporter.notes.item_at(p).margin_note_id
}

/// Whatever the index has for an identifier is the path of a scanned file
/// that carries the identifier.
proof fn lemma_index_entry(files: Seq<NoteFile>, id: Seq<char>)
    requires
        previous_index(scanned(files)).dom().contains(id),
    ensures
        exists|k: int|
            0 <= k < files.len() && (#[trigger] files[k]).path@ == previous_index(
                scanned(files),
            )[id] && note_id(files[k].text@) == Some(id),
    decreases files.len(),
{
    let found = scanned(files);
    if files.len() > 0 {
        let head = files.drop_last();
        assert(found.drop_last() =~= scanned(head));
        let last = files.len() - 1;
        assert(found.last() == (files[last].path@, note_id(files[last].text@)));
        if found.last().1 == Some(id) {
            assert(files[last].path@ == previous_index(found)[id]);
        } else {
            lemma_index_entry(head, id);
            let k = choose|k: int|
                0 <= k < head.len() && (#[trigger] head[k]).path@ == previous_index(
                    scanned(head),
                )[id] && note_id(head[k].text@) == Some(id);
            assert(files[k] == head[k]);
            assert(files[k].path@ == previous_index(found)[id]);
        }
    }
}

/// An index that is read from files which an export wrote is current for an
/// export of the same forest into the same directory, provided that the
/// identifier of every note is read back from its text as it was written.
pub proof fn lemma_index_of_written_files(
    first: Exporter,
    plan: Seq<NoteWriteView>,
    files: Seq<NoteFile>,
    second: Exporter,
)
    requires
        first.wf(),
        second.wf(),
        first.notes == second.notes,
        first.note_dir@ == second.note_dir@,
        first.is_plan(plan),
        written_by(files, plan),
        identifiers_read_back(first),
        second.previous_id_map@ == previous_index(scanned(files)),
    ensures
        index_is_current(second),
{
    assert(first.note_name_map@ == second.note_name_map@);
    assert forall|p: int| second.notes.has(p) implies match #[trigger] previous_path(
        second.previous_id_map@,
        second.notes.item_at(p),
    ) {
        Some(old) => old == second.path_at(p),
        None => true,
    } by {
        let item = second.notes.item_at(p);
        if previous_path(second.previous_id_map@, item).is_some() {
            let id = item.margin_note_id.unwrap();
            lemma_index_entry(files, id);
            let k = choose|k: int|
                0 <= k < files.len() && (#[trigger] files[k]).path@ == previous_index(
                    scanned(files),
                )[id] && note_id(files[k].text@) == Some(id);
            assert(written_in(files[k], plan));
            let j = choose|j: int|
                0 <= j < plan.len() && (#[trigger] plan[j]).path == files[k].path@ && plan[j].body
                    == files[k].text@;
            let q = j + 1;
            assert(first.write_at(q) == Some(plan[q - 1]));
            assert(first.notes.has(q));
            assert(note_id(first.body_at(q).unwrap()) == first.notes.item_at(q).margin_note_id);
            assert(first.notes.item_at(q).margin_note_id == Some(id));
            assert(first.path_at(q) == second.path_at(p));
        }
    }
}

/// Exporting a forest a second time into the same directory, with the index
/// read from files that the first export wrote, deletes nothing and writes
/// what the first export wrote, provided that the identifier of every note is
/// read back from its text. After a first export that deleted nothing either,
/// the directory is then as the first export left it.
pub proof fn lemma_export_twice(
    first: Exporter,
    plan: Seq<NoteWriteView>,
    files: Seq<NoteFile>,
    second: Exporter,
    plan_again: Seq<NoteWriteView>,
    directory: Map<Seq<char>, Seq<char>>,
)
    requires
        first.wf(),
        second.wf(),
        first.notes == second.notes,
        first.note_dir@ == second.note_dir@,
        first.is_plan(plan),
        second.is_plan(plan_again),
        written_by(files, plan),
        identifiers_read_back(first),
        second.previous_id_map@ == previous_index(scanned(files)),
    ensures
        deletes_nothing(plan_again),
        plan_again.len() == plan.len(),
        forall|k: int|
            0 <= k < plan.len() ==> (#[trigger] plan_again[k]).path == plan[k].path
                && plan_again[k].body == plan[k].body,
        deletes_nothing(plan) ==> apply_plan(apply_plan(directory, plan), plan_again) == apply_plan(
            directory,
            plan,
        ),
{
    lemma_index_of_written_files(first, plan, files, second);
    lemma_export_again(second, plan_again, directory);
    lemma_writes_do_not_depend_on_index(first, second, plan, plan_again);
    if deletes_nothing(plan) {
        assert(plan_again =~= plan);
        lemma_replay(directory, plan);
    }
}

/// Every note that the plan wrote is among the files, with the text that
/// was written.
pub open spec fn holds_all(files: Seq<NoteFile>, plan: Seq<NoteWriteView>) -> bool {
    forall|j: int| 0 <= j < plan.len() ==> found_in(#[trigger] plan[j], files)
}

/// The note that a step wrote is among the files.
pub open spec fn found_in(step: NoteWriteView, files: Seq<NoteFile>) -> bool {
    exists|k: int|
        0 <= k < files.len() && (#[trigger] files[k]).path@ == step.path && files[k].text@
            == step.body
}

/// The index that has, for the identifier of every item, the path of the
/// item's note.
pub open spec fn current_index(exporter: Exporter) -> Map<Seq<char>, Seq<char>> {
    Map::new(
        |id: Seq<char>|
            exists|p: int|
                exporter.notes.has(p) && (#[trigger] exporter.notes.item_at(p)).margin_note_id
                    == Some(id),
        |id: Seq<char>| crate::exporter::file_path(exporter.note_dir@, exporter.note_name_map@[id]),
    )
}

/// The index knows the identifier of every scanned file that carries one.
proof fn lemma_scanned_is_indexed(files: Seq<NoteFile>, k: int, id: Seq<char>)
    requires
        0 <= k < files.len(),
        note_id(files[k].text@) == Some(id),
    ensures
        previous_index(scanned(files)).dom().contains(id),
    decreases files.len(),
{
    let found = scanned(files);
    let head = files.drop_last();
    assert(found.drop_last() =~= scanned(head));
    let last = files.len() - 1;
    assert(found.last() == (files[last].path@, note_id(files[last].text@)));
    if k < last {
        assert(head[k] == files[k]);
        lemma_scanned_is_indexed(head, k, id);
    }
}

/// The index that is read from the files which a whole export wrote is the
/// index of the export: it has the identifier of every item, none else, and
/// for each the path of the item's note. This holds provided that the
/// identifier of every note is read back from its text as it was written.
pub proof fn lemma_index_after_export(exporter: Exporter, plan: Seq<NoteWriteView>, files: Seq<NoteFile>)
    requires
        exporter.wf(),
        exporter.is_plan(plan),
        written_by(files, plan),
        holds_all(files, plan),
        identifiers_read_back(exporter),
    ensures
        previous_index(scanned(files)) == current_index(exporter),
{
    let index = previous_index(scanned(files));
    let current = current_index(exporter);
    assert forall|id: Seq<char>| #[trigger] index.dom().contains(id) implies current.dom().contains(
        id,
    ) && index[id] == current[id] by {
        lemma_index_entry(files, id);
        let k = choose|k: int|
            0 <= k < files.len() && (#[trigger] files[k]).path@ == previous_index(
                scanned(files),
            )[id] && note_id(files[k].text@) == Some(id);
        assert(written_in(files[k], plan));
        let j = choose|j: int|
            0 <= j < plan.len() && (#[trigger] plan[j]).path == files[k].path@ && plan[j].body
                == files[k].text@;
        let q = j + 1;
        assert(exporter.write_at(q) == Some(plan[q - 1]));
        assert(exporter.notes.has(q));
        assert(note_id(exporter.body_at(q).unwrap()) == exporter.notes.item_at(q).margin_note_id);
        assert(exporter.notes.item_at(q).margin_note_id == Some(id));
    }
    assert forall|id: Seq<char>| #[trigger] current.dom().contains(id) implies index.dom().contains(
        id,
    ) by {
        let p = choose|p: int|
            exporter.notes.has(p) && (#[trigger] exporter.notes.item_at(p)).margin_note_id == Some(
                id,
            );
        assert(exporter.write_at(p) == Some(plan[p - 1]));
        assert(found_in(plan[p - 1], files));
        let k = choose|k: int|
            0 <= k < files.len() && (#[trigger] files[k]).path@ == plan[p - 1].path
                && files[k].text@ == plan[p - 1].body;
        assert(note_id(exporter.body_at(p).unwrap()) == exporter.notes.item_at(p).margin_note_id);
        lemma_scanned_is_indexed(files, k, id);
    }
    assert(index =~= current);
}

} // verus!
