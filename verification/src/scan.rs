//! The scan of the note directory: which identifier each note file of an
//! earlier export carries, and the index from identifier to path.

use vstd::prelude::*;
use gray_matter::engine::YAML;
use gray_matter::Matter;
use crate::text::opt_view;
use crate::textmap::TextMap;

verus! {

/// The text under `key` in the YAML metadata block that a note begins with,
/// as `gray_matter` reads it; none where the note has no such block, the block
/// is not a mapping, or it has no text under the key.
pub uninterp spec fn front_matter_field(text: Seq<char>, key: Seq<char>) -> Option<Seq<char>>;

/// `Matter::parse`, `Pod::as_hashmap` and `Pod::as_string`: the text under
/// `key` in the metadata block of a note.
#[verifier::external_body]
pub(crate) fn front_matter_text(text: &str, key: &str) -> (r: Option<String>)
    ensures
        opt_view(r) == front_matter_field(text@, key@),
{
    let data = Matter::<YAML>::new().parse(text).data?;
    data.as_hashmap().ok()?.get(key)?.as_string().ok()
}

/// A note file found in the note directory before the export.
pub struct NoteFile {
    pub path: String,
    pub text: String,
}

/// A note file found in the note directory before the export, with the
/// identifier that its metadata block carries, if it carries one.
pub struct ScannedNote {
    pub path: String,
    pub margin_note_id: Option<String>,
}

/// The identifier that the metadata block of a note carries.
pub open spec fn note_id(text: Seq<char>) -> Option<Seq<char>> {
    front_matter_field(text, "margin_note_id"@)
}

/// What the scan finds in each of the files, in their order.
pub open spec fn scanned(files: Seq<NoteFile>) -> Seq<(Seq<char>, Option<Seq<char>>)> {
    files.map_values(|file: NoteFile| (file.path@, note_id(file.text@)))
}

/// The scanned notes as plain values.
pub open spec fn scanned_views(notes: Seq<ScannedNote>) -> Seq<(Seq<char>, Option<Seq<char>>)> {
    notes.map_values(|note: ScannedNote| (note.path@, opt_view(note.margin_note_id)))
}

/// The index from identifier to the path of the file that carried it, for
/// notes scanned in this order; of two files with one identifier the later
/// one counts, and a file without identifier is left out.
pub open spec fn previous_index(found: Seq<(Seq<char>, Option<Seq<char>>)>) -> Map<
    Seq<char>,
    Seq<char>,
>
    decreases found.len(),
{
    if found.len() == 0 {
        Map::empty()
    } else {
        let before = previous_index(found.drop_last());
        match found.last().1 {
            Some(id) => before.insert(id, found.last().0),
            None => before,
        }
    }
}

/// The identifier that the metadata block of a note carries, if it carries one.
pub fn previous_note_id(text: &str) -> (r: Option<String>)
    ensures
        opt_view(r) == note_id(text@),
{
    front_matter_text(text, "margin_note_id")
}

/// The index from identifier to previous path for notes that were scanned.
pub fn index_notes(notes: &Vec<ScannedNote>) -> (r: TextMap)
    ensures
        r.wf(),
        r@ == previous_index(scanned_views(notes@)),
{
    let mut out = TextMap::new();
    let mut i: usize = 0;
    while i < notes.len()
        invariant
            i <= notes.len(),
            out.wf(),
            out@ == previous_index(scanned_views(notes@).take(i as int)),
        decreases notes.len() - i,
    {
        proof {
            let found = scanned_views(notes@);
            assert(found.take(i + 1).drop_last() =~= found.take(i as int));
            assert(found.take(i + 1).last() == found[i as int]);
        }
        match &notes[i].margin_note_id {
            Some(id) => {
                out.insert(id.clone(), notes[i].path.clone());
            },
            None => {},
        }
        i += 1;
    }
    proof {
        let found = scanned_views(notes@);
        assert(found.take(found.len() as int) =~= found);
    }
    out
}

/// The index from identifier to previous path for the note files of the
/// note directory: each file is scanned for the identifier in its metadata
/// block, and the scanned notes are indexed.
pub fn create_previous_id_map(files: &Vec<NoteFile>) -> (r: TextMap)
    ensures
        r.wf(),
        r@ == previous_index(scanned(files@)),
{
    let mut notes: Vec<ScannedNote> = Vec::new();
    let mut i: usize = 0;
    while i < files.len()
        invariant
            i <= files.len(),
            notes@.len() == i,
            forall|k: int|
                0 <= k < i ==> (#[trigger] notes@[k]).path@ == files@[k].path@ && opt_view(
                    notes@[k].margin_note_id,
                ) == note_id(files@[k].text@),
        decreases files.len() - i,
    {
        notes.push(
            ScannedNote {
                path: files[i].path.clone(),
                margin_note_id: previous_note_id(files[i].text.as_str()),
            },
        );
        i += 1;
    }
    proof {
        assert(scanned_views(notes@) =~= scanned(files@));
    }
    index_notes(&notes)
}

} // verus!
