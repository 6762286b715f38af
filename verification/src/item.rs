//! The outline item and the metadata header that its note carries.

use vstd::prelude::*;
use vstd::string::StringExecFns;
use crate::text::{clone_opt, opt_view, views};

verus! {

/// One node of the outline.
#[derive(Debug, PartialEq)]
pub struct Item {
    /// The title the user gave, if any.
    pub given_title: Option<String>,
    /// The durable identifier; grouping nodes have none.
    pub margin_note_id: Option<String>,
    /// Embedded images: those of the content cells first, then those of the note.
    pub image_ids: Vec<String>,
    /// The literal text of the note, if there is any.
    pub comments: Option<String>,
}

/// An item as plain text values.
pub struct ItemView {
    pub given_title: Option<Seq<char>>,
    pub margin_note_id: Option<Seq<char>>,
    pub image_ids: Seq<Seq<char>>,
    pub comments: Option<Seq<char>>,
}

impl View for Item {
    type V = ItemView;

    open spec fn view(&self) -> ItemView {
        ItemView {
            given_title: opt_view(self.given_title),
            margin_note_id: opt_view(self.margin_note_id),
            image_ids: views(self.image_ids@),
            comments: opt_view(self.comments),
        }
    }
}

/// The metadata header of a note.
#[derive(Debug)]
pub struct NoteFrontMatter {
    pub tags: Vec<String>,
    pub margin_note_id: Option<String>,
    /// Breadcrumbs: a link to the parent note.
    pub up: Option<Vec<String>>,
    pub title: Option<String>,
}

/// A metadata header as plain text values.
pub struct NoteFrontMatterView {
    pub tags: Seq<Seq<char>>,
    pub margin_note_id: Option<Seq<char>>,
    pub up: Option<Seq<Seq<char>>>,
    pub title: Option<Seq<char>>,
}

impl View for NoteFrontMatter {
    type V = NoteFrontMatterView;

    open spec fn view(&self) -> NoteFrontMatterView {
        NoteFrontMatterView {
            tags: views(self.tags@),
            margin_note_id: opt_view(self.margin_note_id),
            up: match self.up {
                Some(v) => Some(views(v@)),
                None => None,
            },
            title: opt_view(self.title),
        }
    }
}

/// The tag that marks a note as coming from the outline.
pub open spec fn provenance_tag() -> Seq<char> {
    "source-margin-note"@
}

/// The link that names another note: `[[name]]`.
pub open spec fn link_token(name: Seq<char>) -> Seq<char> {
    "[["@ + name + "]]"@
}

/// The address of the annotation with the given identifier.
pub open spec fn source_url(id: Seq<char>) -> Seq<char> {
    "marginnote3app://note/"@ + id
}

/// The metadata header of an item whose parent's note has the given name.
pub open spec fn metadata_of(item: ItemView, parent_note_name: Option<Seq<char>>) -> NoteFrontMatterView {
    NoteFrontMatterView {
        tags: seq![provenance_tag()],
        margin_note_id: item.margin_note_id,
        up: match parent_note_name {
            Some(name) => Some(seq![link_token(name)]),
            None => None,
        },
        title: item.given_title,
    }
}

/// Builds `[[name]]`.
pub fn make_link(name: &str) -> (r: String)
    ensures
        r@ == link_token(name@),
{
    let mut out = String::from_str("[[");
    out.append(name);
    out.append("]]");
    out
}

impl Item {
    /// The metadata header of this item's note.
    pub fn metadata(&self, parent_note_name: Option<String>) -> (r: NoteFrontMatter)
        ensures
            r@ == metadata_of(self@, opt_view(parent_note_name)),
    {
        let mut tags: Vec<String> = Vec::new();
        tags.push(String::from_str("source-margin-note"));
        let up = match parent_note_name {
            Some(name) => {
                let mut links: Vec<String> = Vec::new();
                links.push(make_link(name.as_str()));
                assert(views(links@) =~= seq![link_token(name@)]);
                Some(links)
            },
            None => None,
        };
        assert(views(tags@) =~= seq![provenance_tag()]);
        NoteFrontMatter {
            title: clone_opt(&self.given_title),
            tags,
            up,
            margin_note_id: clone_opt(&self.margin_note_id),
        }
    }

    /// The address of the annotation this item came from, if it came from one.
    pub fn margin_note_url(&self) -> (r: Option<String>)
        ensures
            opt_view(r) == match self@.margin_note_id {
                Some(id) => Some(source_url(id)),
                None => None,
            },
    {
        match &self.margin_note_id {
            Some(id) => {
                let mut url = String::from_str("marginnote3app://note/");
                url.append(id.as_str());
                Some(url)
            },
            None => None,
        }
    }
}

} // verus!
