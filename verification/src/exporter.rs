//! The export: which file each item's note goes to, what it holds, and which
//! file of an earlier export has to go first.

use vstd::prelude::*;
use vstd::string::StringExecFns;
use crate::body::{compose_note, front_matter_block, header_block, note_text};
use crate::item::{metadata_of, Item, ItemView};
use crate::naming::{
    create_node_name_map, initial_note_name, lemma_names_upto, name_table, note_name, NamingError,
};
use crate::notes::{nameable, ExtractedNotes};
use crate::oo3::OO3File;
use crate::scan::{create_previous_id_map, previous_index, scanned, NoteFile};
use crate::text::{file_name_of, last_component, opt_view, views};
use crate::textmap::TextMap;

verus! {

/// The path of the note file with the given name under `root`.
pub open spec fn file_path(root: Seq<char>, name: Seq<char>) -> Seq<char> {
    root + "/"@ + name + ".md"@
}

/// The path that held an item's note before, if the index knows its identifier.
pub open spec fn previous_path(previous: Map<Seq<char>, Seq<char>>, item: ItemView) -> Option<
    Seq<char>,
> {
    match item.margin_note_id {
        Some(id) => if previous.dom().contains(id) {
            Some(previous[id])
        } else {
            None
        },
        None => None,
    }
}

/// The file to delete before an item's note is written: the one that held
/// the note before, when that is another file than the one written now.
pub open spec fn stale_path(
    previous: Map<Seq<char>, Seq<char>>,
    item: ItemView,
    new_path: Seq<char>,
) -> Option<Seq<char>> {
    match previous_path(previous, item) {
        Some(old) => if old != new_path {
            Some(old)
        } else {
            None
        },
        None => None,
    }
}

/// What the export does for one item: it deletes `stale`, if there is one,
/// then writes `body` to `path`.
#[derive(Debug)]
pub struct NoteWrite {
    pub stale: Option<String>,
    pub path: String,
    pub body: String,
}

/// A step of the export as plain text values.
pub struct NoteWriteView {
    pub stale: Option<Seq<char>>,
    pub path: Seq<char>,
    pub body: Seq<char>,
}

impl View for NoteWrite {
    type V = NoteWriteView;

    open spec fn view(&self) -> NoteWriteView {
        NoteWriteView { stale: opt_view(self.stale), path: self.path@, body: self.body@ }
    }
}

/// The copy of one image of the container into the image directory.
#[derive(Debug)]
pub struct ImageCopy {
    pub from: String,
    pub to: String,
}

/// Where the image at `from` goes: under its own file name into `image_dir`.
pub open spec fn image_target(image_dir: Seq<char>, from: Seq<char>) -> Seq<char> {
    image_dir + "/"@ + last_component(from)
}

/// Why an export could not be planned.
#[derive(Debug)]
pub enum ExportError {
    /// The metadata header of the item at this position could not be serialized.
    Header(usize),
}

/// An export that could not be planned to its end: the steps for the items
/// before the one that failed, which are to be carried out all the same, and
/// why the next one could not be planned.
#[derive(Debug)]
pub struct Interrupted {
    pub steps: Vec<NoteWrite>,
    pub error: ExportError,
}

/// The export of one forest into one note directory.
pub struct Exporter {
    pub oo3: OO3File,
    pub note_dir: String,
    pub image_dir: String,
    pub notes: ExtractedNotes,
    pub previous_id_map: TextMap,
    pub note_name_map: TextMap,
}

impl Exporter {
    /// The name table is the one of the forest, and both maps are in order.
    pub open spec fn wf(&self) -> bool {
        &&& self.notes.wf()
        &&& self.previous_id_map.wf()
        &&& self.note_name_map.wf()
        &&& name_table(self.notes) == Some(self.note_name_map@)
    }

    /// The note name of the item at `position`.
    pub open spec fn name_at(&self, position: int) -> Seq<char> {
        note_name(self.note_name_map@, self.notes.item_at(position))
    }

    /// The path of the note of the item at `position`.
    pub open spec fn path_at(&self, position: int) -> Seq<char> {
        file_path(self.note_dir@, self.name_at(position))
    }

    /// The note name of the parent of the item at `position`, if it has one.
    pub open spec fn parent_name_at(&self, position: int) -> Option<Seq<char>> {
        match self.notes.parent_of(position) {
            Some(q) => Some(self.name_at(q)),
            None => None,
        }
    }

    /// The note names of the children of the item at `position`, first to last.
    pub open spec fn child_names_at(&self, position: int) -> Seq<Seq<char>> {
        self.notes.children_of(position).map_values(|c: int| self.name_at(c))
    }

    /// The metadata block of the note of the item at `position`.
    pub open spec fn header_at(&self, position: int) -> Option<Seq<char>> {
        header_block(metadata_of(self.notes.item_at(position), self.parent_name_at(position)))
    }

    /// The text of the note of the item at `position`; none where its
    /// metadata header cannot be serialized.
    pub open spec fn body_at(&self, position: int) -> Option<Seq<char>> {
        match self.header_at(position) {
            Some(header) => Some(
                note_text(header, self.notes.item_at(position), self.child_names_at(position)),
            ),
            None => None,
        }
    }

    /// The step of the export for the item at `position`.
    pub open spec fn write_at(&self, position: int) -> Option<NoteWriteView> {
        match self.body_at(position) {
            Some(body) => Some(
                NoteWriteView {
                    stale: stale_path(
                        self.previous_id_map@,
                        self.notes.item_at(position),
                        self.path_at(position),
                    ),
                    path: self.path_at(position),
                    body,
                },
            ),
            None => None,
        }
    }

    /// `plan` holds the steps for the first `n` items, in the order of their positions.
    pub open spec fn is_plan_upto(&self, plan: Seq<NoteWriteView>, n: int) -> bool {
        &&& plan.len() == n
        &&& forall|p: int| 1 <= p <= n ==> self.write_at(p) == Some(#[trigger] plan[p - 1])
    }

    /// `plan` holds the steps for all items, in the order of their positions.
    pub open spec fn is_plan(&self, plan: Seq<NoteWriteView>) -> bool {
        self.is_plan_upto(plan, self.notes.count() as int)
    }

    /// An export of `notes` into `note_dir`, where `files` is what the
    /// directory held before. The name table is built here, once, before any
    /// note is written.
    pub fn new(
        oo3: OO3File,
        notes: ExtractedNotes,
        note_dir: String,
        image_dir: String,
        files: &Vec<NoteFile>,
    ) -> (r: Result<Exporter, NamingError>)
        requires
            notes.wf(),
        ensures
            match r {
                Ok(exporter) => {
                    &&& exporter.wf()
                    &&& exporter.oo3 == oo3
                    &&& exporter.notes == notes
                    &&& exporter.note_dir == note_dir
                    &&& exporter.image_dir == image_dir
                    &&& exporter.previous_id_map@ == previous_index(scanned(files@))
                },
                Err(NamingError::Unresolved(position)) => {
                    &&& notes.has(position as int)
                    &&& crate::naming::names_upto(notes, (position - 1) as nat).is_some()
                    &&& crate::naming::names_upto(notes, position as nat).is_none()
                    &&& name_table(notes).is_none()
                },
            },
    {
        let previous_id_map = create_previous_id_map(files);
        match create_node_name_map(&notes) {
            Ok(note_name_map) => Ok(
                Exporter { oo3, note_dir, image_dir, notes, previous_id_map, note_name_map },
            ),
            Err(e) => Err(e),
        }
    }

    /// The copies that bring the container's images into the image
    /// directory, one for each of the given image paths, in their order.
    pub fn copy_images(&self, images: &Vec<String>) -> (r: Vec<ImageCopy>)
        ensures
            r@.len() == images@.len(),
            forall|k: int|
                0 <= k < images@.len() ==> (#[trigger] r@[k]).from@ == images@[k]@ && r@[k].to@
                    == image_target(self.image_dir@, images@[k]@),
    {
        let mut copies: Vec<ImageCopy> = Vec::new();
        let mut i: usize = 0;
        while i < images.len()
            invariant
                i <= images.len(),
                copies@.len() == i,
                forall|k: int|
                    0 <= k < i ==> (#[trigger] copies@[k]).from@ == images@[k]@ && copies@[k].to@
                        == image_target(self.image_dir@, images@[k]@),
            decreases images.len() - i,
        {
            let mut to = self.image_dir.clone();
            to.append("/");
            to.append(file_name_of(images[i].as_str()).as_str());
            copies.push(ImageCopy { from: images[i].clone(), to });
            i += 1;
        }
        copies
    }

    /// The path that held the item's note before, if the index knows its identifier.
    pub fn previous_item_path(&self, item: &Item) -> (r: Option<String>)
        requires
            self.wf(),
        ensures
            opt_view(r) == previous_path(self.previous_id_map@, item@),
    {
        match &item.margin_note_id {
            Some(id) => match self.previous_id_map.get(id) {
                Some(path) => Some(path.clone()),
                None => None,
            },
            None => None,
        }
    }

    /// The note name of an item: the table's name for an identified item, the
    /// first-choice name for another.
    pub fn note_name_of(&self, item: &Item) -> (r: String)
        requires
            self.wf(),
            nameable(item@),
            match item@.margin_note_id {
                Some(id) => self.note_name_map@.dom().contains(id),
                None => true,
            },
        ensures
            r@ == note_name(self.note_name_map@, item@),
    {
        match &item.margin_note_id {
            Some(id) => match self.note_name_map.get(id) {
                Some(name) => name.clone(),
                None => initial_note_name(item),
            },
            None => initial_note_name(item),
        }
    }

    /// The note name of the item at `position`.
    pub fn note_name_at(&self, position: usize) -> (r: String)
        requires
            self.wf(),
            self.notes.has(position as int),
        ensures
            r@ == self.name_at(position as int),
    {
        proof {
            lemma_names_upto(self.notes, self.notes.count());
        }
        self.note_name_of(self.notes.item(position))
    }

    /// The path of the note file of an item under `root`.
    pub fn path_of(&self, root: &String, item: &Item) -> (r: String)
        requires
            self.wf(),
            nameable(item@),
            match item@.margin_note_id {
                Some(id) => self.note_name_map@.dom().contains(id),
                None => true,
            },
        ensures
            r@ == file_path(root@, note_name(self.note_name_map@, item@)),
    {
        let mut path = root.clone();
        path.append("/");
        path.append(self.note_name_of(item).as_str());
        path.append(".md");
        path
    }

    /// The text of the note of the item at `position`, or nothing where its
    /// metadata header cannot be serialized.
    pub fn note_for(&self, position: usize) -> (r: Option<String>)
        requires
            self.wf(),
            self.notes.has(position as int),
        ensures
            opt_view(r) == self.body_at(position as int),
    {
        let item = self.notes.item(position);
        let parent_name = match self.notes.parent(position) {
            Some(q) => Some(self.note_name_at(q)),
            None => None,
        };
        let children = self.notes.children(position);
        let mut child_names: Vec<String> = Vec::new();
        let mut i: usize = 0;
        while i < children.len()
            invariant
                self.wf(),
                i <= children.len(),
                child_names@.len() == i,
                forall|k: int| 0 <= k < children@.len() ==> self.notes.has(#[trigger] children@[k] as int),
                forall|k: int| 0 <= k < i ==> child_names@[k]@ == self.name_at(children@[k] as int),
            decreases children.len() - i,
        {
            child_names.push(self.note_name_at(children[i]));
            i += 1;
        }
        proof {
            let mapped = children@.map_values(|c: usize| c as int);
            assert forall|k: int| 0 <= k < children@.len() implies mapped[k] == children@[k] as int by {}
            assert(views(child_names@) =~= self.child_names_at(position as int));
        }
        let front = item.metadata(parent_name);
        match front_matter_block(&front) {
            Some(header) => Some(compose_note(header.as_str(), item, &child_names)),
            None => None,
        }
    }

    /// The steps of the export, one for each item in the order of their
    /// positions. Each step is to be carried out whole before the next.
    /// Where the note of an item cannot be made, the steps for the items
    /// before it come back with the error.
    pub fn export_all_notes(&self) -> (r: Result<Vec<NoteWrite>, Interrupted>)
        requires
            self.wf(),
        ensures
            match r {
                Ok(plan) => self.is_plan(plan@.map_values(|w: NoteWrite| w@)),
                Err(stop) => match stop.error {
                    ExportError::Header(position) => {
                        &&& self.notes.has(position as int)
                        &&& self.write_at(position as int).is_none()
                        &&& self.is_plan_upto(
                            stop.steps@.map_values(|w: NoteWrite| w@),
                            position - 1,
                        )
                    },
                },
            },
    {
        let n: usize = self.notes.len();
        let mut plan: Vec<NoteWrite> = Vec::new();
        let mut done: usize = 0;
        while done < n
            invariant
                self.wf(),
                n == self.notes.count(),
                done <= n,
                self.is_plan_upto(plan@.map_values(|w: NoteWrite| w@), done as int),
            decreases n - done,
        {
            let position: usize = done + 1;
            let item = self.notes.item(position);
            proof {
                lemma_names_upto(self.notes, self.notes.count());
            }
            let path = self.path_of(&self.note_dir, item);
            let stale = match self.previous_item_path(item) {
                Some(old) => if old == path {
                    None
                } else {
                    Some(old)
                },
                None => None,
            };
            match self.note_for(position) {
                Some(body) => {
                    let ghost before = plan@.map_values(|w: NoteWrite| w@);
                    plan.push(NoteWrite { stale, path, body });
                    proof {
                        let after = plan@.map_values(|w: NoteWrite| w@);
                        assert(after.len() == position);
                        assert forall|p: int| 1 <= p <= position implies self.write_at(p) == Some(
                            #[trigger] after[p - 1],
                        ) by {
                            if p < position {
                                assert(after[p - 1] == before[p - 1]);
                            }
                        }
                    }
                },
                None => {
                    return Err(Interrupted { steps: plan, error: ExportError::Header(position) });
                },
            }
            done = position;
        }
        Ok(plan)
    }

    /// The steps of the export; see [`Exporter::export_all_notes`].
    pub fn export_notes(&self) -> (r: Result<Vec<NoteWrite>, Interrupted>)
        requires
            self.wf(),
        ensures
            match r {
                Ok(plan) => self.is_plan(plan@.map_values(|w: NoteWrite| w@)),
                Err(stop) => match stop.error {
                    ExportError::Header(position) => {
                        &&& self.notes.has(position as int)
                        &&& self.write_at(position as int).is_none()
                        &&& self.is_plan_upto(
                            stop.steps@.map_values(|w: NoteWrite| w@),
                            position - 1,
                        )
                    },
                },
            },
    {
        self.export_all_notes()
    }
}

} // verus!
