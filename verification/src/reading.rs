//! From what the queries read at one outline node to the item it stands for.

use vstd::prelude::*;
use vstd::string::{StrSliceExecFns, StringExecFns};
use crate::item::{Item, ItemView};
use crate::notes::{nameable, ExtractedNotes};
use crate::text::{join, join_strings, opt_view, views};
use crate::title::{lemma_normalized_title, normalize_title, normalized, single_spaced, tight};

verus! {

/// The number of characters of a reference address that stand before the identifier.
pub const ADDRESS_PREFIX_LEN: usize = 22;

/// The identifier that a reference address carries: what follows its first
/// 22 characters.
pub open spec fn stable_id_of(url: Seq<char>) -> Seq<char> {
    if url.len() >= 22 {
        url.subrange(22, url.len() as int)
    } else {
        Seq::empty()
    }
}

/// Why an outline could not be read.
#[derive(Debug, PartialEq, Eq, Clone, Copy)]
pub enum ExtractError {
    /// The compressed outline could not be read as gzip-compressed text.
    Container,
    /// The document is not well-formed XML.
    Parse,
    /// A pattern or a query does not compile, or a query is not plain: it
    /// has a name with a prefix that is not the schema's own, or the letters
    /// `sum` in a row.
    Pattern,
    /// A query could not be evaluated.
    Query,
    /// A query gave a value of another kind than the outline format calls for.
    Schema,
    /// A node has neither a title nor an identifier.
    Untitled,
    /// The outline is nested deeper than this crate follows it.
    TooDeep,
    /// The outline has more items than can be counted.
    TooLarge,
}

/// The title of an item as the user gave it, and the one it is shown under.
pub struct TitleChoice {
    /// The normalized title, where it is not empty.
    pub given_title: Option<String>,
    /// The given title, or the identifier where there is none.
    pub title: String,
}

/// What holds of every item that is read from a document: it has a title or
/// an identifier, and a title is not empty, neither begins nor ends with white
/// space, and has no white space inside it but single spaces.
pub open spec fn well_read(item: ItemView) -> bool {
    &&& nameable(item)
    &&& match item.given_title {
        Some(title) => title.len() > 0 && tight(title) && single_spaced(title),
        None => true,
    }
}

/// The identifier of the node with these readings.
pub open spec fn id_of(url: Option<Seq<char>>) -> Option<Seq<char>> {
    match url {
        Some(u) => Some(stable_id_of(u)),
        None => None,
    }
}

/// The comment of a node with these note texts: none without any text, else
/// the texts one after another.
pub open spec fn comment_of(texts: Seq<Seq<char>>) -> Option<Seq<char>> {
    if texts.len() == 0 {
        None
    } else {
        Some(join(texts, Seq::empty()))
    }
}

/// The identifier that a reference address carries.
pub fn stable_id_from_url(url: &str) -> (r: String)
    ensures
        r@ == stable_id_of(url@),
{
    let n: usize = url.unicode_len();
    if n >= ADDRESS_PREFIX_LEN {
        String::from_str(url.substring_char(ADDRESS_PREFIX_LEN, n))
    } else {
        String::new()
    }
}

/// The address and the identifier of a node whose reference query gave `url`.
pub fn url_and_id(url: Option<String>) -> (r: (Option<String>, Option<String>))
    ensures
        opt_view(r.0) == opt_view(url),
        opt_view(r.1) == id_of(opt_view(url)),
{
    let id = match &url {
        Some(u) => Some(stable_id_from_url(u.as_str())),
        None => None,
    };
    (url, id)
}

/// The title of a node from the raw text of its title cell: the normalized
/// text where that is not empty; else the identifier, with no given title;
/// and an error where there is no identifier either.
pub fn choose_title(raw_title: &str, margin_note_id: &Option<String>) -> (r: Result<
    TitleChoice,
    ExtractError,
>)
    ensures
        match r {
            Ok(choice) => if normalized(raw_title@).len() > 0 {
                &&& opt_view(choice.given_title) == Some(normalized(raw_title@))
                &&& choice.title@ == normalized(raw_title@)
                &&& tight(choice.title@)
                &&& single_spaced(choice.title@)
            } else {
                &&& choice.given_title.is_none()
                &&& Some(choice.title@) == opt_view(*margin_note_id)
            },
            Err(e) => e == ExtractError::Untitled && normalized(raw_title@).len() == 0
                && margin_note_id.is_none(),
        },
{
    let title = normalize_title(raw_title);
    proof {
        lemma_normalized_title(raw_title@);
    }
    if title.as_str().unicode_len() > 0 {
        Ok(TitleChoice { given_title: Some(title.clone()), title })
    } else {
        match margin_note_id {
            Some(id) => Ok(TitleChoice { given_title: None, title: id.clone() }),
            None => Err(ExtractError::Untitled),
        }
    }
}

/// The warning for an item that goes by its identifier for want of a title.
pub open spec fn title_warning_of(item: ItemView) -> Option<Seq<char>> {
    match (item.given_title, item.margin_note_id) {
        (None, Some(id)) => Some("Warning using margin note id as title for "@ + id),
        _ => None,
    }
}

/// The warning to give for an item: one for an item without a title, which
/// goes by its identifier; none for an item with a title.
pub fn title_warning(item: &Item) -> (r: Option<String>)
    ensures
        opt_view(r) == title_warning_of(item@),
{
    match (&item.given_title, &item.margin_note_id) {
        (None, Some(id)) => {
            let mut text = String::from_str("Warning using margin note id as title for ");
            text.append(id.as_str());
            Some(text)
        },
        _ => None,
    }
}

/// The warnings for the first `n` items of a forest, in the order of their
/// positions.
pub open spec fn title_warnings_upto(notes: ExtractedNotes, n: nat) -> Seq<Seq<char>>
    decreases n,
{
    if n == 0 {
        Seq::empty()
    } else {
        let before = title_warnings_upto(notes, (n - 1) as nat);
        match title_warning_of(notes.item_at(n as int)) {
            Some(warning) => before.push(warning),
            None => before,
        }
    }
}

/// The warnings to give for the items of a forest, in the order of their
/// positions: one for each item that goes by its identifier.
pub fn title_warnings(notes: &ExtractedNotes) -> (r: Vec<String>)
    requires
        notes.wf(),
    ensures
        views(r@) == title_warnings_upto(*notes, notes.count()),
{
    let n: usize = notes.len();
    let mut warnings: Vec<String> = Vec::new();
    let mut done: usize = 0;
    while done < n
        invariant
            notes.wf(),
            n == notes.count(),
            done <= n,
            views(warnings@) == title_warnings_upto(*notes, done as nat),
        decreases n - done,
    {
        let position: usize = done + 1;
        let ghost before = views(warnings@);
        match title_warning(notes.item(position)) {
            Some(warning) => {
                warnings.push(warning);
                assert(views(warnings@) =~= before.push(warning@));
            },
            None => {},
        }
        done = position;
    }
    warnings
}

/// The image references of a node: those of the content cells, then those of the note.
pub fn collect_image_ids(cell_images: &Vec<String>, note_images: &Vec<String>) -> (r: Vec<String>)
    ensures
        views(r@) == views(cell_images@) + views(note_images@),
{
    let mut out: Vec<String> = Vec::new();
    let mut i: usize = 0;
    while i < cell_images.len()
        invariant
            i <= cell_images.len(),
            out@.len() == i,
            forall|k: int| 0 <= k < i ==> out@[k]@ == cell_images@[k]@,
        decreases cell_images.len() - i,
    {
        out.push(cell_images[i].clone());
        i += 1;
    }
    let mut j: usize = 0;
    while j < note_images.len()
        invariant
            j <= note_images.len(),
            out@.len() == cell_images.len() + j,
            forall|k: int| 0 <= k < cell_images.len() ==> out@[k]@ == cell_images@[k]@,
            forall|k: int| 0 <= k < j ==> out@[cell_images.len() + k]@ == note_images@[k]@,
        decreases note_images.len() - j,
    {
        out.push(note_images[j].clone());
        j += 1;
    }
    assert(views(out@) =~= views(cell_images@) + views(note_images@));
    out
}

/// The comment of a node from the literal texts of its note.
pub fn collect_comments(note_texts: &Vec<String>) -> (r: Option<String>)
    ensures
        opt_view(r) == comment_of(views(note_texts@)),
{
    if note_texts.len() > 0 {
        proof {
            reveal_strlit("");
            assert(""@ =~= Seq::<char>::empty());
        }
        Some(join_strings(note_texts, ""))
    } else {
        None
    }
}

} // verus!
